use passfile::find::{MatchKind, RecordPath};
use passfile::output::{ClipTarget, PrintTarget};
use passfile::record::{Group, Record};

fn ok_ref<T, E>(r: &Result<T, E>) -> &T {
    match r {
        Ok(v) => v,
        Err(_) => panic!("unexpected error"),
    }
}

fn ok<T, E>(r: Result<T, E>) -> T {
    match r {
        Ok(v) => v,
        Err(_) => panic!("unexpected error"),
    }
}

fn sample_tree() -> Record {
    let mut site = Group::new("site".to_owned());
    ok(site.insert(Record::new_item("password".to_owned(), "p@ss".to_owned())));
    ok(site.insert(Record::new_item("user".to_owned(), "me".to_owned())));
    let mut root = Group::new("root".to_owned());
    ok(root.insert(site.into_record()));
    root.into_record()
}

fn paths(parts: &[&str]) -> Vec<RecordPath> {
    parts.iter().map(|p| RecordPath::from_str(p)).collect()
}

#[test]
fn print_values_resolves_each_target() {
    let tree = sample_tree();
    let t = PrintTarget::new(paths(&["site.user", "site", "site.absent"]), MatchKind::Exact);
    let vals = t.print_values(&tree);
    assert_eq!(vals.len(), 3);
    assert_eq!(ok_ref(&vals[0]).as_str(), "me");
    // a group target stands for its default item
    assert_eq!(ok_ref(&vals[1]).as_str(), "p@ss");
    assert!(vals[2].is_err());
}

#[test]
fn print_lists_renders_each_target() {
    let tree = sample_tree();
    let t = PrintTarget::new(paths(&["site", ""]), MatchKind::Exact);
    let lists = t.print_lists(&tree);
    assert_eq!(ok_ref(&lists[0]).as_str(), "password\nuser");
    assert_eq!(ok_ref(&lists[1]).as_str(), "site");
}

#[test]
fn print_trees_renders_each_target() {
    let tree = sample_tree();
    let t = PrintTarget::new(paths(&["site"]), MatchKind::Exact);
    let trees = t.print_trees(&tree);
    let expected = "site\n\u{251C}\u{2500}\u{2500} password\n\u{2514}\u{2500}\u{2500} user";
    assert_eq!(ok_ref(&trees[0]).as_str(), expected);
}

#[test]
fn clip_target_looks_up_the_value_to_hold() {
    let tree = sample_tree();
    let t = ClipTarget::new(RecordPath::from_str("site"), MatchKind::Exact, 10);
    assert_eq!(t.time(), 10);
    assert_eq!(ok(t.lookup_value(&tree)).as_str(), "p@ss");
    let missing = ClipTarget::new(RecordPath::from_str("absent"), MatchKind::Exact, 10);
    assert!(missing.lookup_value(&tree).is_err());
}
