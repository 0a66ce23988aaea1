use passfile::cli::{self, FileCmdOpts, FileCmdVerb};
use passfile::edit::{change_value_at, insert_at, remove_at, Error as EditError};
use passfile::find::MatchKind;
use passfile::record::{Group, Record};
use passfile::tui::{parse_u64, unescape, Cmd, CmdVerb, EditCmd, Error, MetaCmd, OptVal, ReadCmd, Status, Tui};

fn ok<T, E>(r: Result<T, E>) -> T {
    match r {
        Ok(v) => v,
        Err(_) => panic!("unexpected error"),
    }
}

fn err<T, E>(r: Result<T, E>) -> E {
    match r {
        Ok(_) => panic!("unexpected success"),
        Err(e) => e,
    }
}


fn segs(parts: &[&str]) -> Vec<String> {
    parts.iter().map(|s| s.to_string()).collect()
}

fn sample_tree() -> Record {
    let mut sub = Group::new("sub".to_owned());
    ok(sub.insert(Record::new_item("key".to_owned(), "old".to_owned())));
    let mut root = Group::new("root".to_owned());
    ok(root.insert(sub.into_record()));
    root.into_record()
}

#[test]
fn insert_at_links_a_new_item() {
    let mut tree = sample_tree();
    let child = Record::new_item("fresh".to_owned(), "v".to_owned());
    ok(insert_at(&mut tree, &segs(&["sub"]), 0, MatchKind::Exact, child));
    let g = ok(tree.as_group().unwrap().get("sub")).as_group().unwrap();
    assert_eq!(g.get("fresh").unwrap().as_item().unwrap().value().as_str(), "v");
}

#[test]
fn insert_at_rejects_a_duplicate_name_unchanged() {
    let mut tree = sample_tree();
    let child = Record::new_item("key".to_owned(), "v".to_owned());
    let (e, back) = err(insert_at(&mut tree, &segs(&["sub"]), 0, MatchKind::Exact, child));
    assert!(matches!(e, EditError::AlreadyExists));
    assert_eq!(back.name().as_str(), "key");
    let g = ok(tree.as_group().unwrap().get("sub")).as_group().unwrap();
    assert_eq!(g.get("key").unwrap().as_item().unwrap().value().as_str(), "old");
}

#[test]
fn remove_at_unlinks_and_hands_back() {
    let mut tree = sample_tree();
    let removed = ok(remove_at(&mut tree, &segs(&["sub", "key"]), 0, MatchKind::Exact));
    assert_eq!(removed.name().as_str(), "key");
    let g = ok(tree.as_group().unwrap().get("sub")).as_group().unwrap();
    assert_eq!(g.len(), 0);
}

#[test]
fn remove_at_refuses_the_root() {
    let mut tree = sample_tree();
    let e = err(remove_at(&mut tree, &segs(&[]), 0, MatchKind::Exact));
    assert!(matches!(e, EditError::CannotRemoveRoot));
}

#[test]
fn change_value_at_replaces_an_item_value() {
    let mut tree = sample_tree();
    ok(change_value_at(&mut tree, &segs(&["sub", "key"]), 0, MatchKind::Exact, "new".to_owned()));
    let g = ok(tree.as_group().unwrap().get("sub")).as_group().unwrap();
    assert_eq!(g.get("key").unwrap().as_item().unwrap().value().as_str(), "new");
}

#[test]
fn change_value_at_refuses_a_group() {
    let mut tree = sample_tree();
    let (e, back) = err(change_value_at(&mut tree, &segs(&["sub"]), 0, MatchKind::Exact, "new".to_owned()));
    assert!(matches!(e, EditError::NotAnItem));
    assert_eq!(back.as_str(), "new");
}

#[test]
fn verbs_parse_from_both_spellings() {
    assert!(matches!(CmdVerb::from_str("sh"), Ok(CmdVerb::Show)));
    assert!(matches!(CmdVerb::from_str("show"), Ok(CmdVerb::Show)));
    assert!(matches!(CmdVerb::from_str("mkitm"), Ok(CmdVerb::CreateItem)));
    assert!(matches!(CmdVerb::from_str("at"), Ok(CmdVerb::Abort)));
    assert!(matches!(CmdVerb::from_str("bogus"), Err(Error::InvalidCmd(_))));
}

#[test]
fn command_lines_parse_into_commands() {
    match Cmd::from_str("mi foo.bar").unwrap().unwrap() {
        Cmd::Edit(EditCmd::CreateItem { paths }) => {
            assert_eq!(paths.len(), 1);
            assert_eq!(paths[0].name.as_str(), "bar");
            assert_eq!(paths[0].group.iter(), vec!["foo".to_owned()]);
        },
        other => panic!("unexpected command: {other:?}", other = match other {
            Cmd::Read(_) => "read",
            Cmd::Edit(_) => "edit",
            Cmd::Meta(_) => "meta",
        }),
    }
    assert!(matches!(
        Cmd::from_str("export").unwrap().unwrap(),
        Cmd::Read(ReadCmd::Export)
    ));
    assert!(matches!(
        Cmd::from_str("et").unwrap().unwrap(),
        Cmd::Meta(MetaCmd::Exit)
    ));
    assert!(Cmd::from_str("").unwrap().is_none());
    assert!(Cmd::from_str("   ").unwrap().is_none());
}

#[test]
fn quoted_words_stay_one_argument() {
    match Cmd::from_str("cl \"a b\"").unwrap().unwrap() {
        Cmd::Read(ReadCmd::Clip(p)) => assert_eq!(p.into_inner().as_str(), "a b"),
        _ => panic!("expected a clip command"),
    }
    assert!(matches!(
        Cmd::from_str("cl \"unterminated"),
        Err(Error::InvalidInput)
    ));
}

#[test]
fn arity_violations_are_reported() {
    assert!(matches!(Cmd::from_str("cl"), Err(Error::MissingArg)));
    assert!(matches!(Cmd::from_str("cl a b"), Err(Error::ExtraArg(_))));
    assert!(matches!(Cmd::from_str("export extra"), Err(Error::ExtraArg(_))));
    assert!(matches!(Cmd::from_str("rm"), Err(Error::MissingArg)));
}

#[test]
fn set_option_parses_values() {
    match Cmd::from_str("so ct 5").unwrap().unwrap() {
        Cmd::Meta(MetaCmd::SetOpt(OptVal::ClipTime(t))) => assert_eq!(t, 5),
        _ => panic!("expected a clip-time setting"),
    }
    match Cmd::from_str("so mk exact").unwrap().unwrap() {
        Cmd::Meta(MetaCmd::SetOpt(OptVal::MatchKind(k))) => assert_eq!(k, MatchKind::Exact),
        _ => panic!("expected a match-kind setting"),
    }
    assert!(matches!(Cmd::from_str("so ct abc"), Err(Error::InvalidIntArg(_))));
    assert!(matches!(Cmd::from_str("so nope 1"), Err(Error::InvalidArg(_))));
}

#[test]
fn create_commands_need_a_nameable_path() {
    assert!(matches!(Cmd::from_str("mg .."), Err(Error::InvalidName(_))));
}

#[test]
fn parse_u64_reads_decimal_numbers() {
    assert_eq!(parse_u64("0"), Some(0));
    assert_eq!(parse_u64("12345"), Some(12345));
    assert_eq!(parse_u64("18446744073709551615"), Some(u64::MAX));
    assert_eq!(parse_u64("18446744073709551616"), None);
    assert_eq!(parse_u64(""), None);
    assert_eq!(parse_u64("12a"), None);
    assert_eq!(parse_u64("-1"), None);
}

#[test]
fn unescape_converts_whitespace_escapes() {
    assert_eq!(unescape("a\\nb").as_str(), "a\nb");
    assert_eq!(unescape("a\\tb\\rc").as_str(), "a\tb\rc");
    assert_eq!(unescape("a\\\\b").as_str(), "a\\b");
    assert_eq!(unescape("a\\xb").as_str(), "axb");
    assert_eq!(unescape("trailing\\").as_str(), "trailing\\");
    assert_eq!(unescape("plain").as_str(), "plain");
}

#[test]
fn session_saves_only_after_a_clean_exit_with_changes() {
    let conf = passfile::tui::Config { match_kind: MatchKind::Fuzzy, clip_time: 10 };
    let mut tui = Tui::new(conf);
    assert!(!tui.should_save_data());
    tui.start();
    tui.mark_changed();
    assert!(!tui.should_save_data());
    tui.set_status(Status::Stopped);
    assert!(tui.should_save_data());
    tui.set_status(Status::Aborted);
    assert!(!tui.should_save_data());
    tui.set_status(Status::Clipped);
    assert!(!tui.should_save_data());
}

#[test]
fn session_options_apply_to_the_configuration() {
    let conf = passfile::tui::Config { match_kind: MatchKind::Fuzzy, clip_time: 10 };
    let mut tui = Tui::new(conf);
    tui.set_opt(OptVal::ClipTime(3));
    assert_eq!(tui.config().clip_time, 3);
    assert_eq!(tui.config().match_kind, MatchKind::Fuzzy);
    tui.set_opt(OptVal::MatchKind(MatchKind::Exact));
    assert_eq!(tui.config().match_kind, MatchKind::Exact);
    assert_eq!(tui.config().clip_time, 3);
}

#[test]
fn file_command_arity_is_checked() {
    let opts = |paths: &[&str]| FileCmdOpts {
        record_paths_raw: segs(paths),
        match_kind: MatchKind::Fuzzy,
        clip_time: 10,
        root_name: String::new(),
    };
    assert!(matches!(
        cli::FileCmd::from_parts(FileCmdVerb::Show, opts(&[])),
        Err(cli::Error::MissingValue)
    ));
    assert!(matches!(
        cli::FileCmd::from_parts(FileCmdVerb::Clip, opts(&["a", "b"])),
        Err(cli::Error::UnexpectedArgument(_))
    ));
    assert!(matches!(
        cli::FileCmd::from_parts(FileCmdVerb::Export, opts(&["a"])),
        Err(cli::Error::UnexpectedArgument(_))
    ));
    assert!(cli::FileCmd::from_parts(FileCmdVerb::Clip, opts(&["a"])).is_ok());
    assert!(cli::FileCmd::from_parts(FileCmdVerb::List, opts(&[])).is_ok());
    assert!(cli::FileCmd::from_parts(FileCmdVerb::Edit, opts(&[])).is_ok());
}

#[test]
fn conflicting_options_are_detected() {
    assert!(!FileCmdVerb::Show.conflicts_with(FileCmdVerb::Clip));
    assert!(!FileCmdVerb::Clip.conflicts_with(FileCmdVerb::Clip));
    assert!(FileCmdVerb::Clip.conflicts_with(FileCmdVerb::List));
    assert!(FileCmdVerb::Export.conflicts_with(FileCmdVerb::Import));
}

#[test]
fn fuzzy_editing_selects_the_best_match() {
    let mut tree = sample_tree();
    // "su" fuzzily names the only group "sub"
    let child = Record::new_item("extra".to_owned(), "x".to_owned());
    ok(insert_at(&mut tree, &segs(&["su"]), 0, MatchKind::Fuzzy, child));
    let g = ok(tree.as_group().unwrap().get("sub")).as_group().unwrap();
    assert!(g.get("extra").is_ok());
}

#[test]
fn edit_errors_name_the_failure() {
    let mut tree = sample_tree();
    let e = err(remove_at(&mut tree, &segs(&["absent"]), 0, MatchKind::Exact));
    assert!(matches!(e, EditError::NotFound));
    let child = Record::new_item("x".to_owned(), "y".to_owned());
    let (e, _) = err(insert_at(&mut tree, &segs(&["sub", "key"]), 0, MatchKind::Exact, child));
    assert!(matches!(e, EditError::NotAGroup));
}

#[test]
fn split_each_produces_delimiter_free_names() {
    match Cmd::from_str("mg a.b.c x").unwrap().unwrap() {
        Cmd::Edit(EditCmd::CreateGroup { paths }) => {
            assert_eq!(paths.len(), 2);
            assert_eq!(paths[0].name.as_str(), "c");
            assert_eq!(paths[0].group.iter(), vec!["a".to_owned(), "b".to_owned()]);
            assert_eq!(paths[1].name.as_str(), "x");
            assert!(paths[1].group.iter().is_empty());
        },
        _ => panic!("expected a create-group command"),
    }
}
