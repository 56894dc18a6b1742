use hyperpuzzle::autoname::{iter_autonamed, DuplicateName};
use hyperpuzzle::naming::{BadName, NameSet, NamingScheme};

fn s(x: &str) -> String {
    x.to_string()
}

#[test]
fn naming_scheme_set_and_get() {
    let mut n = NamingScheme::new();
    assert_eq!(n.get(0), None);
    n.set(0, Some(s("R"))).unwrap();
    n.set(1, Some(s("L"))).unwrap();
    assert_eq!(n.get(0), Some(s("R")));
    assert_eq!(n.id_of("L"), Some(1));
    match n.set(2, Some(s("R"))) {
        Err(BadName::AlreadyTaken { name, taken_by }) => {
            assert_eq!(name, "R");
            assert_eq!(taken_by, 0);
        }
        other => panic!("{other:?}"),
    }
    assert_eq!(n.get(2), None);
    // Renaming an element to its own name is fine.
    n.set(0, Some(s("R"))).unwrap();
    n.set(0, None).unwrap();
    assert_eq!(n.get(0), None);
    assert_eq!(n.id_of("R"), None);
    n.set(2, Some(s("R"))).unwrap();
    assert_eq!(n.id_of("R"), Some(2));
}

#[test]
fn name_set_canonical_name() {
    let one = NameSet::from_name(s("U"));
    assert_eq!(one.canonical_name(), Some(s("U")));
    assert!(one.contains("U"));
    let two = NameSet { names: vec![s("U"), s("Up")] };
    assert_eq!(two.canonical_name(), None);
    assert!(two.contains("Up"));
    assert!(!two.contains("D"));
}

#[test]
fn autonaming_fills_gaps_with_unused_names() {
    let mut n = NamingScheme::new();
    n.set(1, Some(s("A"))).unwrap();
    n.set_display(2, Some(s("Second")));
    let order = [0u32, 1, 2, 3];
    let autonames = [s("A"), s("B"), s("C"), s("D"), s("E")];
    let mut warnings = vec![];
    let r = iter_autonamed(&n, &order, &autonames, &mut warnings);
    assert!(warnings.is_empty());
    let flat: Vec<(u32, Vec<String>, String)> =
        r.into_iter().map(|(id, (ns, d))| (id, ns.names, d)).collect();
    assert_eq!(
        flat,
        vec![
            (0, vec![s("B")], s("B")),
            (1, vec![s("A")], s("A")),
            (2, vec![s("C")], s("Second")),
            (3, vec![s("D")], s("D")),
        ]
    );
}

#[test]
fn autonaming_warns_of_duplicate_names() {
    let mut n = NamingScheme::new();
    n.set(1, Some(s("R"))).unwrap();
    n.set_display(1, Some(s("Right")));
    n.set_display(2, Some(s("Right")));
    n.set(3, Some(s("L"))).unwrap();
    n.set_display(3, Some(s("R")));
    let order = [1u32, 2, 3];
    let autonames = [s("A"), s("B")];
    let mut warnings = vec![];
    let r = iter_autonamed(&n, &order, &autonames, &mut warnings);
    assert_eq!(r.len(), 3);
    // Element 2 repeats the long name "Right"; element 3's long name "R" is
    // not a long name used before.
    assert_eq!(warnings, vec![DuplicateName::Long(s("Right"))]);
}
