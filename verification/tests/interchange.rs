use passfile::ir::{new_empty, validate, Ir};
use passfile::record::{Group, Record};
use passfile::secret::Erase;

fn ok<T, E>(r: Result<T, E>) -> T {
    match r {
        Ok(v) => v,
        Err(_) => panic!("unexpected error"),
    }
}

fn sample_tree() -> Record {
    let mut sub = Group::new("sub".to_owned());
    ok(sub.insert(Record::new_item("key".to_owned(), "v1".to_owned())));
    let mut root = Group::new("root".to_owned());
    ok(root.insert(sub.into_record()));
    ok(root.insert(Record::new_item("top".to_owned(), "v2".to_owned())));
    root.into_record()
}

#[test]
fn a_tree_survives_the_interchange_round_trip() {
    let tree = sample_tree();
    let ir = Ir::clone_from(&tree);
    let again = Record::from(ir);

    let root = again.as_group().unwrap();
    assert_eq!(root.name().as_str(), "root");
    assert_eq!(root.len(), 2);
    let sub = ok(root.get("sub")).as_group().unwrap();
    assert_eq!(ok(sub.get("key")).as_item().unwrap().value().as_str(), "v1");
    assert_eq!(ok(root.get("top")).as_item().unwrap().value().as_str(), "v2");
}

#[test]
fn consuming_conversion_preserves_the_tree_too() {
    let tree = sample_tree();
    let ir = Ir::from(tree);
    assert_eq!(ir.name().as_str(), "root");
    let again = Record::from(ir);
    let root = again.as_group().unwrap();
    assert_eq!(ok(root.get("top")).as_item().unwrap().value().as_str(), "v2");
}

#[test]
fn only_a_group_root_is_valid() {
    let good = Ir::Group { name: "root".to_owned(), members: Vec::new() };
    assert!(validate(&good).is_ok());
    let bad = Ir::Item { name: "lone".to_owned(), value: "v".to_owned() };
    match validate(&bad) {
        Err(passfile::ir::Error::NotAGroup { name }) => {
            assert_eq!(name.as_str(), "lone");
        },
        _ => panic!("an item root must be refused"),
    }
}

#[test]
fn duplicate_sibling_names_are_refused() {
    let dup = Ir::Group {
        name: "root".to_owned(),
        members: vec![
            Ir::Item { name: "a".to_owned(), value: "1".to_owned() },
            Ir::Item { name: "a".to_owned(), value: "2".to_owned() },
        ],
    };
    assert!(matches!(validate(&dup), Err(passfile::ir::Error::DuplicateName)));
    // duplicates deeper down are found too
    let nested = Ir::Group {
        name: "root".to_owned(),
        members: vec![Ir::Group {
            name: "sub".to_owned(),
            members: vec![
                Ir::Group { name: "x".to_owned(), members: Vec::new() },
                Ir::Item { name: "x".to_owned(), value: "v".to_owned() },
            ],
        }],
    };
    assert!(matches!(validate(&nested), Err(passfile::ir::Error::DuplicateName)));
    // distinct names pass, at every level
    let fine = Ir::Group {
        name: "root".to_owned(),
        members: vec![
            Ir::Item { name: "a".to_owned(), value: "1".to_owned() },
            Ir::Item { name: "b".to_owned(), value: "2".to_owned() },
        ],
    };
    assert!(validate(&fine).is_ok());
}

#[test]
fn new_empty_builds_a_named_empty_group() {
    let ir = new_empty("vault".to_owned());
    assert_eq!(ir.name().as_str(), "vault");
    assert!(validate(&ir).is_ok());
    let rec = Record::from(ir);
    let g = rec.as_group().unwrap();
    assert_eq!(g.name().as_str(), "vault");
    assert_eq!(g.len(), 0);
}

#[test]
fn erasing_an_interchange_value_scrubs_it() {
    let tree = sample_tree();
    let mut ir = Ir::clone_from(&tree);
    ir.erase();
    assert_eq!(ir.name().len(), "root".len());
    assert!(ir.name().chars().all(|c| c == '\0'));
    match ir {
        Ir::Group { members, .. } => assert!(members.is_empty()),
        Ir::Item { .. } => panic!("a group stays a group"),
    }
}
