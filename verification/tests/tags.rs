use hyperpuzzle::tags::{list_contains, TagData, TagRegistry, TagSet, TagValue};

fn registry() -> TagRegistry {
    TagRegistry {
        tags: ["author", "inventor", "external/wca", "file", "experimental", "big"]
            .iter()
            .map(|n| TagData { name: n.to_string() })
            .collect(),
    }
}

fn strs(v: &[&str]) -> Vec<String> {
    v.iter().map(|s| s.to_string()).collect()
}

#[test]
fn new_tag_set_is_empty() {
    let t = TagSet::new();
    assert!(t.get("author").is_none());
    assert!(t.iter().is_empty());
    assert!(TagSet::default().iter().is_empty());
}

#[test]
fn insert_then_get_gives_value() {
    let reg = registry();
    let mut t = TagSet::new();
    t.insert(reg.get("file").unwrap(), TagValue::Str("cubes.lua".to_string()));
    assert!(matches!(t.get("file"), Some(TagValue::Str(s)) if s == "cubes.lua"));
    t.insert(reg.get("file").unwrap(), TagValue::Str("other.lua".to_string()));
    assert!(matches!(t.get("file"), Some(TagValue::Str(s)) if s == "other.lua"));
    assert_eq!(t.iter().len(), 1);
}

#[test]
fn authors_and_inventors() {
    let reg = registry();
    let mut t = TagSet::new();
    assert!(t.authors().is_empty());
    t.insert_named(&reg, "author", TagValue::StrList(strs(&["Andrew", "Milo"]))).unwrap();
    t.insert_named(&reg, "inventor", TagValue::Str("Rubik".to_string())).unwrap();
    assert_eq!(t.authors(), &["Andrew".to_string(), "Milo".to_string()][..]);
    // A string value is not a list.
    assert!(t.inventors().is_empty());
}

#[test]
fn wca_url_formats_id() {
    let reg = registry();
    let mut t = TagSet::new();
    assert_eq!(t.wca_url(), None);
    t.insert_named(&reg, "external/wca", TagValue::Str("333".to_string())).unwrap();
    assert_eq!(
        t.wca_url().as_deref(),
        Some("https://www.worldcubeassociation.org/results/rankings/333/single")
    );
    t.insert_named(&reg, "external/wca", TagValue::True).unwrap();
    assert_eq!(t.wca_url(), None);
}

#[test]
fn filename_and_experimental() {
    let reg = registry();
    let mut t = TagSet::new();
    assert_eq!(t.filename(), Some("<unknown>"));
    assert!(!t.is_experimental());
    t.insert_named(&reg, "file", TagValue::Str("a.lua".to_string())).unwrap();
    assert_eq!(t.filename(), Some("a.lua"));
    t.insert_named(&reg, "experimental", TagValue::False).unwrap();
    assert!(!t.is_experimental());
    t.insert_named(&reg, "experimental", TagValue::True).unwrap();
    assert!(t.is_experimental());
}

#[test]
fn insert_named_unknown_tag() {
    let reg = registry();
    let mut t = TagSet::new();
    let e = t.insert_named(&reg, "colour", TagValue::True).unwrap_err();
    assert_eq!(e.0, "colour");
    assert!(t.iter().is_empty());
}

#[test]
fn search_criteria() {
    let reg = registry();
    let mut t = TagSet::new();
    t.insert_named(&reg, "big", TagValue::Int(-12)).unwrap();
    t.insert_named(&reg, "author", TagValue::StrList(strs(&["Andrew", "Milo"]))).unwrap();
    t.insert_named(&reg, "experimental", TagValue::Inherited).unwrap();
    assert!(t.meets_search_criterion("big", None));
    assert!(t.meets_search_criterion("big", Some("-12")));
    assert!(t.meets_search_criterion("big", Some("-0012")));
    assert!(!t.meets_search_criterion("big", Some("12")));
    assert!(!t.meets_search_criterion("big", Some("-12x")));
    assert!(t.meets_search_criterion("author", Some("Milo")));
    assert!(!t.meets_search_criterion("author", Some("Luna")));
    assert!(t.meets_search_criterion("experimental", None));
    assert!(t.meets_search_criterion("experimental", Some("true")));
    // Absent tags count as false.
    assert!(!t.meets_search_criterion("file", None));
    assert!(t.meets_search_criterion("file", Some("false")));
    assert!(!t.meets_search_criterion("file", Some("true")));
}

#[test]
fn serialized_entries_skip_inherited() {
    let reg = registry();
    let mut t = TagSet::new();
    t.insert_named(&reg, "big", TagValue::True).unwrap();
    t.insert_named(&reg, "experimental", TagValue::Inherited).unwrap();
    t.insert_named(&reg, "file", TagValue::Str("f".to_string())).unwrap();
    let names: Vec<&str> = t.serialized_entries().iter().map(|e| e.0.as_str()).collect();
    assert_eq!(names, vec!["big", "file"]);
}

#[test]
fn tag_value_accessors() {
    assert!(!TagValue::False.is_present());
    assert!(TagValue::Inherited.is_present());
    assert_eq!(TagValue::Str("x".to_string()).as_str(), Some("x"));
    assert_eq!(TagValue::Puzzle("x".to_string()).as_str(), None);
    assert!(TagValue::Int(3).as_str_list().is_none());
    assert!(list_contains(&strs(&["a", "b"]), "b"));
    assert!(!list_contains(&strs(&["a", "b"]), "c"));
    let c = TagValue::StrList(strs(&["a"])).clone();
    assert!(matches!(c, TagValue::StrList(l) if l == vec!["a".to_string()]));
}

#[test]
fn tag_set_clone_keeps_tags() {
    let reg = registry();
    let mut t = TagSet::new();
    t.insert_named(&reg, "file", TagValue::Str("f".to_string())).unwrap();
    let c = t.clone();
    assert!(matches!(c.get("file"), Some(TagValue::Str(s)) if s == "f"));
}

#[test]
fn entry_inserts_nothing_and_changes_in_place() {
    let reg = registry();
    let mut t = TagSet::new();
    let file = reg.get("file").unwrap();
    assert!(t.entry(file).is_none());
    assert!(t.get("file").is_none());
    assert!(t.iter().is_empty());
    t.insert(file, TagValue::Str("a.lua".to_string()));
    let v = t.entry(file).unwrap();
    assert!(matches!(v, TagValue::Str(s) if s == "a.lua"));
    *v = TagValue::Str("b.lua".to_string());
    assert!(matches!(t.get("file"), Some(TagValue::Str(s)) if s == "b.lua"));
}

#[test]
fn get_or_insert_inserts_default_then_keeps_value() {
    let reg = registry();
    let mut t = TagSet::new();
    let file = reg.get("file").unwrap();
    let v = t.get_or_insert(file, TagValue::Str("default.lua".to_string()));
    assert!(matches!(v, TagValue::Str(s) if s == "default.lua"));
    *v = TagValue::Str("cubes.lua".to_string());
    assert!(matches!(t.get("file"), Some(TagValue::Str(s)) if s == "cubes.lua"));
    // A tag already there keeps its value; the default is not used.
    let v = t.get_or_insert(file, TagValue::Str("ignored.lua".to_string()));
    assert!(matches!(v, TagValue::Str(s) if s == "cubes.lua"));
    assert_eq!(t.iter().len(), 1);
}

#[test]
fn entry_named_unknown_tag_leaves_set() {
    let reg = registry();
    let mut t = TagSet::new();
    let err = t.entry_named(&reg, "colour").unwrap_err();
    assert_eq!(err.0, "colour");
    assert!(t.entry_named(&reg, "big").unwrap().is_none());
    assert!(t.iter().is_empty());
    t.insert_named(&reg, "big", TagValue::True).unwrap();
    let v = t.entry_named(&reg, "big").unwrap().unwrap();
    *v = TagValue::Int(7);
    assert!(matches!(t.get("big"), Some(TagValue::Int(7))));
}

#[test]
fn iter_keeps_first_insertion_order() {
    let reg = registry();
    let mut t = TagSet::new();
    t.insert_named(&reg, "file", TagValue::True).unwrap();
    t.insert_named(&reg, "big", TagValue::True).unwrap();
    t.insert_named(&reg, "file", TagValue::False).unwrap();
    let names: Vec<&str> = t.iter().iter().map(|(k, _)| k.as_str()).collect();
    assert_eq!(names, vec!["file", "big"]);
    assert!(matches!(t.iter()[0].1, TagValue::False));
}
