use passfile::display::{display_list, display_tree};
use passfile::record::{Error, Group, Record};
use passfile::secret::{Erase, Secret};

fn ok<T, E>(r: Result<T, E>) -> T {
    match r {
        Ok(v) => v,
        Err(_) => panic!("unexpected error"),
    }
}

fn err<T, E>(r: Result<T, E>) -> E {
    match r {
        Ok(_) => panic!("unexpected success"),
        Err(e) => e,
    }
}


fn sample_group() -> Group {
    let mut g = Group::new("root".to_owned());
    ok(g.insert(Record::new_item("alpha".to_owned(), "1".to_owned())));
    ok(g.insert(Record::new_group("beta".to_owned())));
    ok(g.insert(Record::new_item("gamma".to_owned(), "3".to_owned())));
    g
}

#[test]
fn insert_and_get_exact() {
    let g = sample_group();
    assert_eq!(g.len(), 3);
    let rec = ok(g.get("alpha"));
    assert_eq!(rec.name().as_str(), "alpha");
    assert!(!rec.is_group());
    assert!(ok(g.get("beta")).is_group());
    assert!(matches!(g.get("delta"), Err(Error::NotFound)));
}

#[test]
fn duplicate_insert_fails_and_changes_nothing() {
    let mut g = sample_group();
    let dup = Record::new_item("alpha".to_owned(), "other".to_owned());
    let (e, back) = err(g.insert(dup));
    assert!(matches!(e, Error::AlreadyExists));
    // the rejected record is handed back unchanged
    assert_eq!(back.name().as_str(), "alpha");
    assert_eq!(back.as_item().unwrap().value().as_str(), "other");
    // and the group is untouched
    assert_eq!(g.len(), 3);
    let alpha = ok(g.get("alpha"));
    assert_eq!(alpha.as_item().unwrap().value().as_str(), "1");
}

#[test]
fn remove_unlinks_and_returns_the_child() {
    let mut g = sample_group();
    let removed = ok(g.remove("beta"));
    assert!(removed.is_group());
    assert_eq!(g.len(), 2);
    assert!(matches!(g.get("beta"), Err(Error::NotFound)));
    // the removed record is owned by the caller alone and can be relinked
    ok(g.insert(removed));
    assert_eq!(g.len(), 3);
    assert!(matches!(g.remove("nope"), Err(Error::NotFound)));
}

#[test]
fn fuzzy_lookup_prefers_the_best_match() {
    let mut g = Group::new("root".to_owned());
    ok(g.insert(Record::new_item("abc".to_owned(), "x".to_owned())));
    ok(g.insert(Record::new_item("xyz".to_owned(), "y".to_owned())));
    let found = ok(g.get_fuzzy("ab"));
    assert_eq!(found.name().as_str(), "abc");
}

#[test]
fn fuzzy_lookup_reports_ties_as_ambiguous() {
    let mut g = Group::new("root".to_owned());
    ok(g.insert(Record::new_item("ab1".to_owned(), "x".to_owned())));
    ok(g.insert(Record::new_item("ab2".to_owned(), "y".to_owned())));
    assert!(matches!(g.get_fuzzy("ab"), Err(Error::MultipleMatches)));
}

#[test]
fn fuzzy_lookup_without_any_match_is_not_found() {
    let g = sample_group();
    assert!(matches!(g.get_fuzzy("qqq"), Err(Error::NotFound)));
}

#[test]
fn list_rendering_shows_one_level_of_names() {
    let g = sample_group();
    let rec = g.into_record();
    assert_eq!(display_list(&rec).as_str(), "alpha\nbeta\ngamma");
    let lone = Record::new_item("single".to_owned(), "v".to_owned());
    assert_eq!(display_list(&lone).as_str(), "single");
}

#[test]
fn tree_rendering_draws_connectors() {
    let mut root = Group::new("root".to_owned());
    let mut sub = Group::new("sub".to_owned());
    ok(sub.insert(Record::new_item("inner".to_owned(), "v".to_owned())));
    ok(root.insert(sub.into_record()));
    ok(root.insert(Record::new_item("last".to_owned(), "w".to_owned())));
    let rec = root.into_record();
    let expected = "root\n\u{251C}\u{2500}\u{2500} sub\n\u{2502}   \u{2514}\u{2500}\u{2500} inner\n\u{2514}\u{2500}\u{2500} last";
    assert_eq!(display_tree(&rec).as_str(), expected);
}

#[test]
fn renderings_never_contain_values() {
    let g = sample_group();
    let rec = g.into_record();
    assert!(!display_list(&rec).contains('1'));
    assert!(!display_tree(&rec).contains('3'));
}

#[test]
fn erasing_bytes_zeroes_them_in_place() {
    let mut buf: Vec<u8> = b"hunter2".to_vec();
    buf.erase();
    assert_eq!(buf.len(), 7);
    assert!(buf.iter().all(|&b| b == 0));
}

#[test]
fn scrubbed_secret_no_longer_holds_its_payload() {
    let mut secret = Secret::new(b"hunter2".to_vec());
    assert_eq!(secret.expose().as_slice(), b"hunter2");
    secret.scrub();
    let exposed = secret.expose();
    assert_eq!(exposed.len(), 7);
    assert!(exposed.iter().all(|&b| b == 0));
}

#[test]
fn erasing_a_tree_scrubs_names_values_and_members() {
    let g = sample_group();
    let mut rec = g.into_record();
    rec.erase();
    // the name's backing buffer is overwritten in place with zero characters
    assert_eq!(rec.name().len(), "root".len());
    assert!(rec.name().chars().all(|c| c == '\0'));
    let g = rec.as_group().unwrap();
    assert_eq!(g.len(), 0);
}

#[test]
fn erasing_a_string_zeroes_its_buffer_in_place() {
    let mut s = "hunter2".to_owned();
    s.erase();
    assert_eq!(s.len(), 7);
    assert!(s.chars().all(|c| c == '\0'));
}

#[test]
fn scrubbed_string_secret_no_longer_holds_its_payload() {
    let mut secret = Secret::new("hunter2".to_owned());
    secret.scrub();
    let exposed = secret.expose();
    assert_eq!(exposed.len(), 7);
    assert!(exposed.chars().all(|c| c == '\0'));
}

#[test]
fn secret_into_inner_hands_the_value_back() {
    let secret = Secret::new("hunter2".to_owned());
    let value = secret.into_inner();
    assert_eq!(value.as_str(), "hunter2");
}
