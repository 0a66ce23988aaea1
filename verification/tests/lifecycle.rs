use passfile::crypt::CryptCtx;
use passfile::filepath::{backup_name_from, backup_path_from, SafePath};
use passfile::header::{Header, HEADER_LEN};
use passfile::key::Key;
use passfile::protocol::{
    backup_disposition, maybe_recover, BackupAction, FileState, RecoverAction, RewriteOutcome,
};

fn ok<T, E>(r: Result<T, E>) -> T {
    match r {
        Ok(v) => v,
        Err(_) => panic!("unexpected error"),
    }
}

#[test]
fn backup_names_escape_separators() {
    assert_eq!(backup_name_from("/home/me/data.pass").as_str(), "%-home%-me%-data.pass.bak");
    assert_eq!(backup_name_from("/odd%name").as_str(), "%-odd%%name.bak");
    assert_eq!(
        backup_path_from("/home/me/data.pass", "/home/me/backup").as_str(),
        "/home/me/backup/%-home%-me%-data.pass.bak"
    );
}

#[test]
fn distinct_paths_get_distinct_backup_names() {
    // these two collide under a naive separator-for-escape substitution
    let a = backup_name_from("/a/%b");
    let b = backup_name_from("/a%/b");
    assert_ne!(a.as_str(), b.as_str());
}

#[test]
fn safe_path_holds_both_paths() {
    let p = SafePath::new("/tmp/data.pass".to_owned(), "/tmp/backup/x.bak".to_owned());
    assert_eq!(p.display(), "/tmp/data.pass");
    assert_eq!(p.main.as_str(), "/tmp/data.pass");
    assert_eq!(p.backup.as_str(), "/tmp/backup/x.bak");
}

#[test]
fn startup_decision_on_a_found_backup() {
    assert!(matches!(maybe_recover(false, false, false), RecoverAction::Proceed));
    assert!(matches!(maybe_recover(true, true, false), RecoverAction::Recover));
    assert!(matches!(maybe_recover(true, false, true), RecoverAction::RemoveBackup));
    assert!(matches!(maybe_recover(true, false, false), RecoverAction::Refuse));
}

#[test]
fn backup_disposition_after_a_rewrite() {
    assert!(matches!(
        backup_disposition(&RewriteOutcome::Succeeded),
        BackupAction::RemoveBackup
    ));
    assert!(matches!(backup_disposition(&RewriteOutcome::Clipped), BackupAction::LeaveAlone));
    assert!(matches!(backup_disposition(&RewriteOutcome::Failed), BackupAction::Recover));
}

#[test]
fn file_model_backs_up_and_recovers() {
    let mut fs = FileState::with_primary(b"original".to_vec());
    assert!(!fs.is_backed_up());
    ok(fs.make_backup());
    assert!(fs.is_backed_up());
    fs.write_primary(b"half-writ".to_vec());
    ok(fs.recover());
    assert!(!fs.is_backed_up());
    assert_eq!(fs.read_primary().unwrap().as_slice(), b"original");
}

/// An interrupted rewrite of an encrypted pass file holding the group
/// `root` with the item `a = "1"`: the write stops right after the header,
/// and the backup protocol restores the original file byte for byte.
#[test]
fn interrupted_rewrite_restores_the_original_file() {
    // the stored interchange text for root { a = "1" }
    let serial = br#"Group(name:"root",members:[Item(name:"a",value:"1",metadata:{})],metadata:{})"#;

    // the original on-disk file: header followed by the sealed stream
    let mut head_bytes = Vec::new();
    for i in 0..HEADER_LEN {
        head_bytes.push(0x30 + i as u8);
    }
    let head = Header::read_from(head_bytes.as_slice()).unwrap();
    let key = Key::from_password(b"hunter2", &head).unwrap();
    let ctx = CryptCtx::new(&key, &head);
    let mut file = Vec::new();
    head.write_to(&mut file);
    file.extend_from_slice(ctx.encrypt(serial).unwrap().as_slice());
    let original = file.clone();

    let mut fs = FileState::with_primary(file);

    // the bracketed rewrite: back up, then fail partway through
    ok(fs.make_backup());
    let new_head = Header::generate().unwrap();
    let mut truncated = Vec::new();
    new_head.write_to(&mut truncated);
    // interruption: only the new header reached the disk
    fs.write_primary(truncated);
    assert_ne!(fs.read_primary().unwrap().as_slice(), original.as_slice());

    // the failure disposition says to recover the backup
    assert!(matches!(backup_disposition(&RewriteOutcome::Failed), BackupAction::Recover));
    ok(fs.recover());

    // the original file is back, byte for byte, and decrypts again
    assert_eq!(fs.read_primary().unwrap().as_slice(), original.as_slice());
    let restored = fs.read_primary().unwrap();
    let body = &restored.as_slice()[HEADER_LEN..];
    let reread_head = Header::read_from(restored.as_slice()).unwrap();
    let reread_key = Key::from_password(b"hunter2", &reread_head).unwrap();
    let reread_ctx = CryptCtx::new(&reread_key, &reread_head);
    let plain = reread_ctx.decrypt(body).unwrap();
    assert_eq!(plain.expose().as_slice(), serial.as_slice());
}
