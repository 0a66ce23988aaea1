use passfile::find::{Error, MatchKind, RecordPath};
use passfile::record::{Group, Record};

fn ok<T, E>(r: Result<T, E>) -> T {
    match r {
        Ok(v) => v,
        Err(_) => panic!("unexpected error"),
    }
}

fn err<T, E>(r: Result<T, E>) -> E {
    match r {
        Ok(_) => panic!("unexpected success"),
        Err(e) => e,
    }
}


fn nested_tree() -> Record {
    // root -> a -> b, plus a sibling item
    let mut b = Group::new("b".to_owned());
    ok(b.insert(Record::new_item("password".to_owned(), "s3cret".to_owned())));
    let mut a = Group::new("a".to_owned());
    ok(a.insert(b.into_record()));
    ok(a.insert(Record::new_item("note".to_owned(), "text".to_owned())));
    let mut root = Group::new("root".to_owned());
    ok(root.insert(a.into_record()));
    root.into_record()
}

#[test]
fn segments_ignore_extraneous_delimiters() {
    let p = RecordPath::from_str("a.b");
    assert_eq!(p.iter(), vec!["a".to_owned(), "b".to_owned()]);
    let p = RecordPath::from_str("..a...b..");
    assert_eq!(p.iter(), vec!["a".to_owned(), "b".to_owned()]);
    let p = RecordPath::from_str("");
    assert!(p.iter().is_empty());
    let p = RecordPath::from_str("...");
    assert!(p.iter().is_empty());
}

#[test]
fn split_last_separates_the_trailing_segment() {
    let p = RecordPath::from_str("a.b.c");
    let (lead, trail) = ok(p.split_last());
    assert_eq!(trail.into_inner().as_str(), "c");
    assert_eq!(lead.iter(), vec!["a".to_owned(), "b".to_owned()]);

    let p = RecordPath::from_str("only");
    let (lead, trail) = ok(p.split_last());
    assert_eq!(trail.into_inner().as_str(), "only");
    assert!(lead.iter().is_empty());

    let p = RecordPath::from_str("..");
    let back = err(p.split_last());
    assert_eq!(back.into_inner().as_str(), "..");
}

#[test]
fn exact_resolution_walks_nested_groups() {
    let tree = nested_tree();
    let p = RecordPath::from_str("a.b");
    let found = ok(p.find_in(&tree, MatchKind::Exact));
    assert_eq!(found.name().as_str(), "b");
    assert!(found.is_group());
}

#[test]
fn empty_path_resolves_to_the_root() {
    let tree = nested_tree();
    let p = RecordPath::from_str("");
    let found = ok(p.find_in(&tree, MatchKind::Exact));
    assert_eq!(found.name().as_str(), "root");
}

#[test]
fn missing_segment_reports_its_group() {
    let tree = nested_tree();
    let p = RecordPath::from_str("a.zzz");
    match p.find_in(&tree, MatchKind::Exact) {
        Err(Error::NotFound { pat, in_group, .. }) => {
            assert_eq!(pat.as_str(), "zzz");
            assert_eq!(in_group.as_str(), "a");
        },
        _ => panic!("unexpected resolution"),
    }
}

#[test]
fn walking_through_an_item_is_refused() {
    let tree = nested_tree();
    let p = RecordPath::from_str("a.note.deeper");
    match p.find_in(&tree, MatchKind::Exact) {
        Err(Error::NotAGroup { name, pat }) => {
            assert_eq!(name.as_str(), "note");
            assert!(pat.is_none());
        },
        _ => panic!("unexpected resolution"),
    }
}

#[test]
fn fuzzy_resolution_picks_the_best_scoring_child() {
    let mut root = Group::new("root".to_owned());
    ok(root.insert(Record::new_item("abc".to_owned(), "x".to_owned())));
    ok(root.insert(Record::new_item("xyz".to_owned(), "y".to_owned())));
    let tree = root.into_record();
    let p = RecordPath::from_str("ab");
    let found = ok(p.find_in(&tree, MatchKind::Fuzzy));
    assert_eq!(found.name().as_str(), "abc");
}

#[test]
fn fuzzy_resolution_reports_ties() {
    let mut root = Group::new("root".to_owned());
    ok(root.insert(Record::new_item("ab1".to_owned(), "x".to_owned())));
    ok(root.insert(Record::new_item("ab2".to_owned(), "y".to_owned())));
    let tree = root.into_record();
    let p = RecordPath::from_str("ab");
    match p.find_in(&tree, MatchKind::Fuzzy) {
        Err(Error::NotFound { e, .. }) => {
            assert!(matches!(e, passfile::record::Error::MultipleMatches));
        },
        _ => panic!("unexpected resolution"),
    }
}

#[test]
fn find_group_refuses_an_item() {
    let tree = nested_tree();
    let p = RecordPath::from_str("a.note");
    assert!(matches!(
        p.find_group_in(&tree, MatchKind::Exact),
        Err(Error::NotAGroup { .. })
    ));
    assert!(p.find_group_in(&tree, MatchKind::Exact).is_err());
    let p = RecordPath::from_str("a.b");
    assert_eq!(ok(p.find_group_in(&tree, MatchKind::Exact)).name().as_str(), "b");
}

#[test]
fn find_item_refuses_a_group() {
    let tree = nested_tree();
    let p = RecordPath::from_str("a.b");
    assert!(matches!(
        p.find_item_in(&tree, MatchKind::Exact),
        Err(Error::NotAnItem { .. })
    ));
    let p = RecordPath::from_str("a.note");
    assert_eq!(ok(p.find_item_in(&tree, MatchKind::Exact)).value().as_str(), "text");
}

#[test]
fn a_group_stands_for_its_default_item() {
    let tree = nested_tree();
    let p = RecordPath::from_str("a.b");
    let item = ok(p.find_item_or_default_in(&tree, MatchKind::Exact));
    assert_eq!(item.name().as_str(), "password");
    assert_eq!(item.value().as_str(), "s3cret");
    // an item resolves to itself
    let p = RecordPath::from_str("a.note");
    let item = ok(p.find_item_or_default_in(&tree, MatchKind::Exact));
    assert_eq!(item.value().as_str(), "text");
    // a group without the default item fails
    let p = RecordPath::from_str("a");
    assert!(p.find_item_or_default_in(&tree, MatchKind::Exact).is_err());
}

#[test]
fn match_kind_reads_prefixes() {
    assert_eq!(MatchKind::from_str("e"), Some(MatchKind::Exact));
    assert_eq!(MatchKind::from_str("exact"), Some(MatchKind::Exact));
    assert_eq!(MatchKind::from_str("f"), Some(MatchKind::Fuzzy));
    assert_eq!(MatchKind::from_str("fuzzy"), Some(MatchKind::Fuzzy));
    // the empty string is a prefix of both; exact is tried first
    assert_eq!(MatchKind::from_str(""), Some(MatchKind::Exact));
    assert_eq!(MatchKind::from_str("exactly"), None);
    assert_eq!(MatchKind::from_str("x"), None);
}
