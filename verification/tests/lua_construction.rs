use std::sync::Arc;

use hyperpuzzle::lazy_puzzle::{LazyPuzzle, LazyPuzzleGenerator};
use hyperpuzzle::library::{LibraryDb, LibraryFileLoadOutput};
use hyperpuzzle::puzzle_build::{build_puzzle, GeneratorOutput};

/// A library whose puzzle parameters, generators, puzzles and color systems
/// are strings.
type Db = LibraryDb<String, String, String, String>;

fn puzzles(ids: &[&str]) -> Vec<(String, LazyPuzzle<String, String>)> {
    ids.iter().map(|id| (id.to_string(), LazyPuzzle::new(format!("spec of {id}")))).collect()
}

fn generators(ids: &[&str]) -> Vec<(String, LazyPuzzleGenerator<String, String>)> {
    ids.iter().map(|id| (id.to_string(), LazyPuzzleGenerator::new(id.to_string()))).collect()
}

fn load_puzzle_library() -> Db {
    let mut lib = LibraryDb::new();
    lib.add_file("cubes.lua".to_string(), None, "-- cubes".to_string());
    lib.finish_loading(
        "cubes.lua",
        Ok(LibraryFileLoadOutput {
            puzzles: puzzles(&["ft_cube_3", "ft_cube_4"]),
            puzzle_generators: generators(&["ft_cube"]),
            color_systems: vec![],
        }),
    );
    lib.add_file("hypercubes.lua".to_string(), None, "-- hypercubes".to_string());
    lib.finish_loading(
        "hypercubes.lua",
        Ok(LibraryFileLoadOutput {
            puzzles: puzzles(&["ft_hypercube_3"]),
            puzzle_generators: generators(&["ft_hypercube"]),
            color_systems: vec![],
        }),
    );
    lib
}

/// Builds a puzzle with the library's build; parameters construct the
/// puzzle that describes them, and generators make a puzzle that describes
/// their parameters.
fn build_puzzle_blocking(lib: &mut Db, id: &str) -> Result<Arc<String>, String> {
    let construct = |spec: &String| -> Result<String, String> { Ok(format!("built from {spec}")) };
    let generate = |g: &String, params: &Vec<String>| -> Result<GeneratorOutput<String>, String> {
        Ok(GeneratorOutput::Puzzle(format!("{g} with {}", params.join(","))))
    };
    build_puzzle(lib, id, &construct, &generate).map_err(|e| format!("{e:?}"))
}

#[test]
fn build_all_puzzles() -> Result<(), String> {
    let mut lib = load_puzzle_library();
    let ids: Vec<String> = lib.puzzles.pairs_slice().iter().map(|(id, _)| id.clone()).collect();
    let mut failed = vec![];
    for id in ids {
        match build_puzzle_blocking(&mut lib, &id) {
            Ok(_) => (),
            Err(_) => {
                println!("Error building {}!", id);
                failed.push(id.clone());
            }
        }
    }
    if failed.is_empty() {
        Ok(())
    } else {
        let fail_count = failed.len();
        Err(format!("{fail_count} puzzles failed to build:"))
    }
}

#[test]
fn build_7x7x7x7() {
    let mut lib = load_puzzle_library();
    let result = build_puzzle_blocking(&mut lib, "ft_hypercube:7");
    let puzzle = result.expect("failed to build puzzle");
    assert_eq!(*puzzle, "ft_hypercube with 7");
    // Building it again gives the cached puzzle.
    let again = build_puzzle_blocking(&mut lib, "ft_hypercube:7").unwrap();
    assert!(Arc::ptr_eq(&puzzle, &again));
}

#[test]
fn build_follows_redirects_and_caches_plain_puzzles() {
    let mut lib = load_puzzle_library();
    let construct = |spec: &String| -> Result<String, String> { Ok(format!("built from {spec}")) };
    let redirect = |_g: &String, params: &Vec<String>| -> Result<GeneratorOutput<String>, String> {
        Ok(GeneratorOutput::Redirect(format!("ft_cube_{}", params[0])))
    };
    let p = build_puzzle(&mut lib, "ft_cube:3", &construct, &redirect).unwrap();
    assert_eq!(*p, "built from spec of ft_cube_3");
    let q = build_puzzle(&mut lib, "ft_cube_3", &construct, &redirect).unwrap();
    assert!(Arc::ptr_eq(&p, &q));
    let looping = |_g: &String, _p: &Vec<String>| -> Result<GeneratorOutput<String>, String> {
        Ok(GeneratorOutput::Redirect("ft_cube:9".to_string()))
    };
    assert!(build_puzzle(&mut lib, "ft_cube:9", &construct, &looping).is_err());
    assert!(build_puzzle(&mut lib, "missing", &construct, &looping).is_err());
}
