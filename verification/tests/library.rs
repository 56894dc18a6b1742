use hyperpuzzle::catalog::{list_puzzle_ids, PuzzleListMetadata};
use hyperpuzzle::lazy_puzzle::{LazyPuzzle, LazyPuzzleGenerator};
use hyperpuzzle::library::{
    GeneratorStep, LibraryDb, LibraryError, LibraryFileLoadOutput, LibraryFileLoadState, PuzzleStep, ThingKind,
};
use hyperpuzzle::puzzle_id::{parse_generated_puzzle_id, split_chars, BuildAction, PuzzleBuild, MAX_PUZZLE_REDIRECTS};
use hyperpuzzle::tags::{TagData, TagSet, TagValue};
use std::sync::Arc;

fn strs(v: &[&str]) -> Vec<String> {
    v.iter().map(|s| s.to_string()).collect()
}

/// A library whose puzzle parameters, generators, puzzles and color systems
/// are strings.
type Db = LibraryDb<String, String, String, String>;
type Output = LibraryFileLoadOutput<String, String, String, String>;

fn output(puzzles: &[&str], generators: &[&str], colors: &[&str]) -> Output {
    LibraryFileLoadOutput {
        puzzles: puzzles.iter().map(|p| (p.to_string(), LazyPuzzle::new(format!("spec of {p}")))).collect(),
        puzzle_generators: generators
            .iter()
            .map(|g| (g.to_string(), LazyPuzzleGenerator::new(format!("generator {g}"))))
            .collect(),
        color_systems: colors.iter().map(|c| (c.to_string(), Arc::new(format!("colors {c}")))).collect(),
    }
}

fn library() -> Db {
    let mut db = LibraryDb::new();
    db.add_file("base.lua".to_string(), Some("/lib/base.lua".to_string()), "base".to_string());
    db.add_file("cubes.lua".to_string(), None, "cubes".to_string());
    db.add_file("extra.lua".to_string(), None, "extra".to_string());
    db.finish_loading("base.lua", Ok(output(&[], &[], &["rubiks"])));
    db.finish_loading("cubes.lua", Ok(output(&["cube3"], &["ft_cube"], &[])));
    db.finish_loading("extra.lua", Ok(output(&["megaminx"], &[], &[])));
    db.add_dependent("base.lua", "cubes.lua".to_string());
    db.add_dependent("cubes.lua", "extra.lua".to_string());
    db
}

#[test]
fn lookup_finds_loaded_objects() {
    let db = library();
    assert_eq!(db.file_result_for(ThingKind::Puzzle, "cube3").unwrap().name, "cubes.lua");
    assert_eq!(db.file_result_for(ThingKind::PuzzleGenerator, "ft_cube").unwrap().name, "cubes.lua");
    assert_eq!(db.file_result_for(ThingKind::ColorSystem, "rubiks").unwrap().name, "base.lua");
    match db.file_result_for(ThingKind::Puzzle, "nope") {
        Err(LibraryError::NotFound { kind, id }) => {
            assert_eq!(kind, ThingKind::Puzzle);
            assert_eq!(id, "nope");
        }
        other => panic!("{other:?}"),
    }
}

#[test]
fn unload_unloads_dependents() {
    let mut db = library();
    db.unload_file("base.lua");
    for f in ["base.lua", "cubes.lua", "extra.lua"] {
        let file = db.files.get(f).unwrap();
        assert!(matches!(file.load_state, LibraryFileLoadState::Unloaded), "{f}");
        assert!(file.dependents.is_empty());
    }
    assert!(db.file_result_for(ThingKind::Puzzle, "megaminx").is_err());
    assert!(db.file_result_for(ThingKind::ColorSystem, "rubiks").is_err());
    assert_eq!(db.puzzles.len(), 0);
}

#[test]
fn unload_missing_file_changes_nothing() {
    let mut db = library();
    db.unload_file("missing.lua");
    assert_eq!(db.file_result_for(ThingKind::Puzzle, "cube3").unwrap().name, "cubes.lua");
}

#[test]
fn lookup_in_unloaded_file() {
    let mut db = library();
    db.finish_loading("extra.lua", Err("syntax error".to_string()));
    // The ID is still registered from the earlier load, but the file failed.
    match db.file_result_for(ThingKind::Puzzle, "megaminx") {
        Err(LibraryError::Unloaded { file, kind, id }) => {
            assert_eq!(file, "extra.lua");
            assert_eq!(kind, ThingKind::Puzzle);
            assert_eq!(id, "megaminx");
        }
        other => panic!("{other:?}"),
    }
}

#[test]
fn add_same_file_keeps_it_loaded() {
    let mut db = library();
    db.add_file("cubes.lua".to_string(), None, "cubes".to_string());
    assert!(db.file_result_for(ThingKind::Puzzle, "cube3").is_ok());
    db.add_file("cubes.lua".to_string(), None, "cubes v2".to_string());
    assert!(db.file_result_for(ThingKind::Puzzle, "cube3").is_err());
    // Its dependent went with it; the file it depends on stays loaded.
    assert!(db.file_result_for(ThingKind::Puzzle, "megaminx").is_err());
    assert!(db.file_result_for(ThingKind::ColorSystem, "rubiks").is_ok());
    assert_eq!(db.files.get("cubes.lua").unwrap().contents, "cubes v2");
}

#[test]
fn remove_file_drops_it() {
    let mut db = library();
    db.remove_file("extra.lua");
    assert!(db.files.get("extra.lua").is_none());
    assert_eq!(db.files.len(), 2);
    assert!(db.file_result_for(ThingKind::Puzzle, "megaminx").is_err());
    assert!(db.file_result_for(ThingKind::Puzzle, "cube3").is_ok());
}

#[test]
fn parse_generated_ids() {
    assert_eq!(parse_generated_puzzle_id("ft_cube:3"), Some(("ft_cube".to_string(), strs(&["3"]))));
    assert_eq!(
        parse_generated_puzzle_id("ft_box:2,3,,4"),
        Some(("ft_box".to_string(), strs(&["2", "3", "", "4"])))
    );
    assert_eq!(parse_generated_puzzle_id("ft:a:b"), Some(("ft".to_string(), strs(&["a:b"]))));
    assert_eq!(parse_generated_puzzle_id("ft_cube:"), Some(("ft_cube".to_string(), strs(&[""]))));
    assert_eq!(parse_generated_puzzle_id("megaminx"), None);
    assert_eq!(split_chars("é,ü", ','), strs(&["é", "ü"]));
}

#[test]
fn build_follows_redirects_then_gives_up() {
    let mut b = PuzzleBuild::new("ft_cube:3");
    match b.next_action() {
        BuildAction::GeneratePuzzle { generator_id, params, id } => {
            assert_eq!(generator_id, "ft_cube");
            assert_eq!(params, strs(&["3"]));
            assert_eq!(id, "ft_cube:3");
        }
        other => panic!("{other:?}"),
    }
    b.redirect("cube3".to_string());
    assert!(matches!(b.next_action(), BuildAction::LookUpPuzzle { id } if id == "cube3"));
    let mut b = PuzzleBuild::new("loop:0");
    for k in 1..=MAX_PUZZLE_REDIRECTS {
        assert!(b.can_redirect());
        assert!(matches!(b.next_action(), BuildAction::GeneratePuzzle { .. }));
        b.redirect(format!("loop:{k}"));
    }
    assert!(!b.can_redirect());
    match b.next_action() {
        BuildAction::TooManyRedirects { redirect_sequence } => {
            assert_eq!(redirect_sequence.len(), MAX_PUZZLE_REDIRECTS + 1);
            assert_eq!(redirect_sequence[0], "loop:0");
            assert_eq!(redirect_sequence[20], "loop:20");
        }
        other => panic!("{other:?}"),
    }
}

#[test]
fn lazy_puzzles_start_unconstructed() {
    let p: LazyPuzzle<&str, u32> = LazyPuzzle::new("spec");
    assert_eq!(*p.spec, "spec");
    assert!(p.constructed.is_none());
    let mut g: LazyPuzzleGenerator<&str, u32> = LazyPuzzleGenerator::new("gen");
    assert_eq!(g.constructed.len(), 0);
    assert!(g.cached("gen:3").is_none());
    g.record("gen:3".to_string(), Arc::new(3));
    assert_eq!(**g.cached("gen:3").unwrap(), 3);
    let mut p = p;
    assert!(p.cached().is_none());
    p.record(Arc::new(7));
    assert_eq!(**p.cached().unwrap(), 7);
}

#[test]
fn built_puzzles_are_cached_in_their_file() {
    let mut db = library();
    match db.puzzle_step("cube3").unwrap() {
        PuzzleStep::Build(spec) => assert_eq!(**spec, "spec of cube3"),
        PuzzleStep::Cached(_) => panic!("nothing was constructed yet"),
    }
    db.record_puzzle("cube3", Arc::new("built cube3".to_string()));
    match db.puzzle_step("cube3").unwrap() {
        PuzzleStep::Cached(p) => assert_eq!(**p, "built cube3"),
        PuzzleStep::Build(_) => panic!("the puzzle was cached"),
    }
    match db.generator_step("ft_cube", "ft_cube:3").unwrap() {
        GeneratorStep::Generate(g) => assert_eq!(**g, "generator ft_cube"),
        GeneratorStep::Cached(_) => panic!("nothing was generated yet"),
    }
    db.record_generated("ft_cube", "ft_cube:3".to_string(), Arc::new("built 3".to_string()));
    match db.generator_step("ft_cube", "ft_cube:3").unwrap() {
        GeneratorStep::Cached(p) => assert_eq!(**p, "built 3"),
        GeneratorStep::Generate(_) => panic!("the puzzle was cached"),
    }
    assert!(matches!(db.generator_step("ft_cube", "ft_cube:4").unwrap(), GeneratorStep::Generate(_)));
    // Unloading the file drops its cache with it.
    db.unload_file("cubes.lua");
    assert!(db.puzzle_step("cube3").is_err());
    assert!(db.generator_step("ft_cube", "ft_cube:3").is_err());
}

#[test]
fn color_systems_come_from_their_file() {
    let db = library();
    assert_eq!(**db.build_color_system("rubiks").unwrap(), "colors rubiks");
    assert!(matches!(db.build_color_system("cube3"), Err(LibraryError::NotFound { .. })));
}

#[test]
fn replacing_a_file_unregisters_its_objects_and_dependents() {
    let mut db = library();
    db.add_file("base.lua".to_string(), None, "base v2".to_string());
    assert_eq!(db.color_systems.len(), 0);
    assert_eq!(db.puzzles.len(), 0);
    assert_eq!(db.puzzle_generators.len(), 0);
}

fn meta(id: &str, experimental: bool) -> PuzzleListMetadata {
    let mut tags = TagSet::new();
    if experimental {
        tags.insert(&TagData { name: "experimental".to_string() }, TagValue::True);
    }
    PuzzleListMetadata { id: id.to_string(), name: id.to_uppercase(), tags }
}

#[test]
fn listing_filters_and_sorts() {
    let ng = vec![meta("megaminx", false), meta("cube3", false), meta("weird", true)];
    let gens = vec![meta("ft_cube", false)];
    let ex = vec![meta("ft_cube:2", false)];
    assert_eq!(
        list_puzzle_ids(&ng, &gens, &ex, false, false, false, false),
        strs(&["cube3", "ft_cube", "ft_cube:2", "megaminx"])
    );
    assert_eq!(
        list_puzzle_ids(&ng, &gens, &ex, true, false, false, true),
        strs(&["cube3", "megaminx", "weird"])
    );
    assert_eq!(list_puzzle_ids(&ng, &gens, &ex, false, true, true, false), strs(&["ft_cube", "ft_cube:2"]));
}
