use confect::metadata::{name_or_id, plan_apply, should_apply, ApplyAction, FileMetadata, MetadataStore};

fn meta(mode: u32, uid: u32, gid: u32) -> FileMetadata {
    FileMetadata {
        mode,
        uid,
        gid,
        owner: uid.to_string(),
        group: gid.to_string(),
        mtime: None,
        symlink_target: None,
    }
}

#[test]
fn mode_string_renders_four_octal_digits() {
    assert_eq!(meta(0o640, 0, 5).mode_string(), "0640");
    assert_eq!(meta(0o644, 0, 0).mode_string(), "0644");
    assert_eq!(meta(0o7777, 0, 0).mode_string(), "7777");
    assert_eq!(meta(0, 0, 0).mode_string(), "0000");
}

#[test]
fn mode_string_drops_file_type_bits() {
    // A regular file's mode carries type bits above the permission bits.
    assert_eq!(meta(0o100644, 0, 0).mode_string(), "0644");
    assert_eq!(meta(0o120777, 0, 0).mode_string(), "0777");
}

#[test]
fn store_update_then_get_returns_the_record() {
    let mut s = MetadataStore::new();
    s.update_from_system("/etc/motd".to_string(), meta(0o640, 0, 5));
    let m = s.get("/etc/motd").unwrap();
    assert_eq!(m.mode, 0o640);
    assert_eq!(m.uid, 0);
    assert_eq!(m.gid, 5);
    assert!(s.get("/etc/other").is_none());
}

#[test]
fn store_update_overwrites_prior_entry() {
    let mut s = MetadataStore::new();
    s.update_from_system("/etc/motd".to_string(), meta(0o644, 0, 0));
    s.update_from_system("/etc/motd".to_string(), meta(0o640, 0, 5));
    assert_eq!(s.entries().len(), 1);
    assert_eq!(s.get("/etc/motd").unwrap().mode, 0o640);
}

#[test]
fn store_remove_drops_the_entry() {
    let mut s = MetadataStore::new();
    s.update_from_system("/etc/motd".to_string(), meta(0o644, 0, 0));
    s.remove("/etc/motd");
    assert!(s.get("/etc/motd").is_none());
    assert_eq!(s.entries().len(), 0);
}

#[test]
fn should_apply_selects_existing_paths_and_symlinks() {
    let plain = meta(0o644, 0, 0);
    assert!(should_apply(&plain, true));
    assert!(!should_apply(&plain, false));
    let mut link = meta(0o777, 0, 0);
    link.symlink_target = Some("/etc/real".to_string());
    assert!(should_apply(&link, true));
    assert!(should_apply(&link, false));
}

#[test]
fn symlink_capture_records_target_beside_copied_content() {
    // Adding a symlink stores the dereferenced target's content in the
    // repository tree while the link's own target string goes to the
    // metadata store.
    let mut repo = confect::tree::TreeSnapshot::new();
    let files = vec![confect::tree::FileEntry {
        path: "/etc/alias".to_string(),
        content: b"target content".to_vec(),
    }];
    confect::reconcile::add("etc", &files, &mut repo);
    assert_eq!(
        repo.lookup("etc/etc/alias").map(|c| c.as_slice()),
        Some(b"target content".as_slice())
    );

    let mut s = MetadataStore::new();
    let mut m = meta(0o777, 0, 0);
    m.symlink_target = Some("/etc/real".to_string());
    s.update_from_system("/etc/alias".to_string(), m);
    let got = s.get("/etc/alias").unwrap();
    assert_eq!(got.symlink_target.as_deref(), Some("/etc/real"));
}

#[test]
fn plan_apply_distinguishes_symlinks() {
    let plain = meta(0o640, 3, 7);
    assert!(matches!(
        plan_apply(&plain),
        ApplyAction::SetAttributes { mode: 0o640, uid: 3, gid: 7 }
    ));
    let mut link = meta(0o777, 0, 0);
    link.symlink_target = Some("/etc/real".to_string());
    assert!(matches!(plan_apply(&link), ApplyAction::RecreateSymlink(t) if t == "/etc/real"));
}

#[test]
fn name_or_id_falls_back_to_the_decimal_id() {
    assert_eq!(name_or_id(Some("postgres".to_string()), 26), "postgres");
    assert_eq!(name_or_id(None, 0), "0");
    assert_eq!(name_or_id(None, 1000), "1000");
}
