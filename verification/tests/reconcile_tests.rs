use confect::category::CategoryManager;
use confect::error::ConfectError;
use confect::reconcile::{classify, FileStatus};
use confect::tree::{FileEntry, TreeSnapshot};

fn entry(path: &str, content: &[u8]) -> FileEntry {
    FileEntry { path: path.to_string(), content: content.to_vec() }
}

fn manager_with(name: &str, pattern: &str) -> CategoryManager {
    let mut m = CategoryManager::new();
    m.create(name, None, vec![pattern.to_string()]).unwrap();
    m
}

#[test]
fn classify_covers_all_pairs() {
    let x = b"x".to_vec();
    let y = b"y".to_vec();
    assert_eq!(classify(Some(&x), Some(&x)), None);
    assert_eq!(classify(Some(&x), Some(&y)), Some(FileStatus::Modified));
    assert_eq!(classify(Some(&x), None), Some(FileStatus::Added));
    assert_eq!(classify(None, Some(&y)), Some(FileStatus::Deleted));
    assert_eq!(classify(None, None), Some(FileStatus::Missing));
}

#[test]
fn status_omits_identical_pairs() {
    let cats = manager_with("etc", "/etc/*");
    let repo = TreeSnapshot { files: vec![entry("etc/etc/motd", b"x")] };
    let system = TreeSnapshot { files: vec![entry("/etc/motd", b"x")] };
    let st = confect::reconcile::status(&cats, &repo, &system, None).unwrap();
    assert!(st.is_empty());
}

#[test]
fn status_reports_modified_pair() {
    let cats = manager_with("etc", "/etc/*");
    let repo = TreeSnapshot { files: vec![entry("etc/etc/motd", b"y")] };
    let system = TreeSnapshot { files: vec![entry("/etc/motd", b"x")] };
    let st = confect::reconcile::status(&cats, &repo, &system, None).unwrap();
    assert_eq!(st, vec![("/etc/motd".to_string(), FileStatus::Modified)]);
}

#[test]
fn status_reports_deleted_system_file() {
    // The repository copy exists; the system file is gone.
    let cats = manager_with("etc", "/etc/*");
    let repo = TreeSnapshot { files: vec![entry("etc/etc/motd", b"x")] };
    let system = TreeSnapshot::new();
    let st = confect::reconcile::status(&cats, &repo, &system, None).unwrap();
    assert_eq!(st, vec![("/etc/motd".to_string(), FileStatus::Deleted)]);
}

#[test]
fn status_skips_other_categories_subtrees() {
    let cats = manager_with("etc", "/etc/*");
    let repo = TreeSnapshot { files: vec![entry("other/etc/motd", b"x")] };
    let system = TreeSnapshot::new();
    let st = confect::reconcile::status(&cats, &repo, &system, None).unwrap();
    assert!(st.is_empty());
}

#[test]
fn status_filter_unknown_category_fails() {
    let cats = manager_with("etc", "/etc/*");
    let repo = TreeSnapshot::new();
    let system = TreeSnapshot::new();
    assert!(matches!(
        confect::reconcile::status(&cats, &repo, &system, Some("nope")),
        Err(ConfectError::CategoryNotFound(n)) if n == "nope"
    ));
}

#[test]
fn status_filter_restricts_to_one_category() {
    let mut cats = manager_with("etc", "/etc/*");
    cats.create("ssh", None, vec!["/etc/ssh/*".to_string()]).unwrap();
    let repo = TreeSnapshot {
        files: vec![entry("etc/etc/motd", b"y"), entry("ssh/etc/ssh/sshd_config", b"z")],
    };
    let system = TreeSnapshot::new();
    let st = confect::reconcile::status(&cats, &repo, &system, Some("ssh")).unwrap();
    assert_eq!(st, vec![("/etc/ssh/sshd_config".to_string(), FileStatus::Deleted)]);
}

#[test]
fn add_copies_files_under_the_category() {
    let mut repo = TreeSnapshot::new();
    let files = vec![entry("/etc/motd", b"hello"), entry("/etc/issue", b"hi")];
    let added = confect::reconcile::add("etc", &files, &mut repo);
    assert_eq!(added, vec!["/etc/motd".to_string(), "/etc/issue".to_string()]);
    assert_eq!(repo.lookup("etc/etc/motd").map(|c| c.as_slice()), Some(b"hello".as_slice()));
    assert_eq!(repo.lookup("etc/etc/issue").map(|c| c.as_slice()), Some(b"hi".as_slice()));
}

#[test]
fn add_overwrites_an_existing_copy() {
    let mut repo = TreeSnapshot { files: vec![entry("etc/etc/motd", b"old")] };
    let files = vec![entry("/etc/motd", b"new")];
    confect::reconcile::add("etc", &files, &mut repo);
    assert_eq!(repo.files.len(), 1);
    assert_eq!(repo.lookup("etc/etc/motd").map(|c| c.as_slice()), Some(b"new".as_slice()));
}

#[test]
fn remove_reports_and_deletes_tracked_copy() {
    let cats = manager_with("etc", "/etc/*");
    let mut repo = TreeSnapshot { files: vec![entry("etc/etc/motd", b"x")] };
    let removed = confect::reconcile::remove(&cats, &mut repo, "/etc/motd", true);
    assert_eq!(removed, vec!["/etc/motd".to_string()]);
    assert!(repo.lookup("etc/etc/motd").is_none());
}

#[test]
fn remove_keeps_copy_unless_deletion_is_asked() {
    let cats = manager_with("etc", "/etc/*");
    let mut repo = TreeSnapshot { files: vec![entry("etc/etc/motd", b"x")] };
    let removed = confect::reconcile::remove(&cats, &mut repo, "/etc/motd", false);
    assert_eq!(removed, vec!["/etc/motd".to_string()]);
    assert!(repo.lookup("etc/etc/motd").is_some());
}

#[test]
fn remove_of_untracked_path_reports_nothing() {
    let cats = manager_with("etc", "/etc/*");
    let mut repo = TreeSnapshot { files: vec![entry("etc/etc/motd", b"x")] };
    let removed = confect::reconcile::remove(&cats, &mut repo, "/opt/other", true);
    assert!(removed.is_empty());
    assert_eq!(repo.files.len(), 1);
}

#[test]
fn restore_file_returns_repository_content() {
    let cats = manager_with("etc", "/etc/*");
    let repo = TreeSnapshot { files: vec![entry("etc/etc/motd", b"x")] };
    let content = confect::reconcile::restore_file(&cats, &repo, "/etc/motd").unwrap();
    assert_eq!(content, b"x".to_vec());
}

#[test]
fn restore_file_errors() {
    let cats = manager_with("etc", "/etc/*");
    let repo = TreeSnapshot::new();
    assert!(matches!(
        confect::reconcile::restore_file(&cats, &repo, "/etc/motd"),
        Err(ConfectError::FileNotFound(p)) if p == "etc/etc/motd"
    ));
    assert!(matches!(
        confect::reconcile::restore_file(&cats, &repo, "/opt/other"),
        Err(ConfectError::PathNotTracked(p)) if p == "/opt/other"
    ));
}

#[test]
fn restore_batch_reports_successes_beside_failures() {
    let cats = manager_with("etc", "/etc/*");
    let repo = TreeSnapshot { files: vec![entry("etc/etc/motd", b"x")] };
    let paths = vec![
        "/etc/motd".to_string(),
        "/etc/missing".to_string(),
        "/opt/other".to_string(),
    ];
    let (oks, errs) = confect::reconcile::restore_batch(&cats, &repo, &paths);
    assert_eq!(oks, vec![("/etc/motd".to_string(), b"x".to_vec())]);
    assert_eq!(errs.len(), 2);
    assert_eq!(errs[0].0, "/etc/missing");
    assert!(matches!(errs[0].1, ConfectError::FileNotFound(_)));
    assert_eq!(errs[1].0, "/opt/other");
    assert!(matches!(&errs[1].1, ConfectError::PathNotTracked(p) if p == "/opt/other"));
}

#[test]
fn list_files_inverse_maps_the_subtree() {
    let cats = manager_with("etc", "/etc/*");
    let repo = TreeSnapshot {
        files: vec![
            entry("etc/etc/motd", b"x"),
            entry("etc/etc/nginx/nginx.conf", b"y"),
            entry("other/etc/hosts", b"z"),
        ],
    };
    let files = confect::reconcile::list_files_in_category(&cats, &repo, "etc").unwrap();
    assert_eq!(files, vec!["/etc/motd".to_string(), "/etc/nginx/nginx.conf".to_string()]);
    assert!(matches!(
        confect::reconcile::list_files_in_category(&cats, &repo, "nope"),
        Err(ConfectError::CategoryNotFound(_))
    ));
}

#[test]
fn list_all_and_counts_cover_every_category() {
    let mut cats = manager_with("etc", "/etc/*");
    cats.create("ssh", None, vec!["/etc/ssh/*".to_string()]).unwrap();
    let repo = TreeSnapshot {
        files: vec![entry("etc/etc/motd", b"x"), entry("ssh/etc/ssh/sshd_config", b"y")],
    };
    let all = confect::reconcile::list_all_tracked_files(&cats, &repo);
    assert_eq!(all, vec!["/etc/motd".to_string(), "/etc/ssh/sshd_config".to_string()]);
    assert_eq!(confect::reconcile::count_files_in_category(&cats, &repo, "etc").unwrap(), 1);
    assert_eq!(confect::reconcile::count_all_files(&cats, &repo), 2);
}

#[test]
fn get_category_resolves_the_owner() {
    let cats = manager_with("etc", "/etc/*");
    assert_eq!(confect::reconcile::get_category(&cats, "/etc/motd").unwrap(), "etc");
    assert!(matches!(
        confect::reconcile::get_category(&cats, "/opt/other"),
        Err(ConfectError::PathNotTracked(_))
    ));
}

#[test]
fn refresh_copies_missing_and_changed_files() {
    let mut repo = TreeSnapshot { files: vec![entry("etc/etc/motd", b"old")] };
    let groups = vec![confect::reconcile::CategoryFiles {
        category: "etc".to_string(),
        files: vec![entry("/etc/motd", b"new"), entry("/etc/hosts", b"h")],
    }];
    let updated = confect::reconcile::refresh_all(&groups, &mut repo);
    assert_eq!(updated, vec!["/etc/motd".to_string(), "/etc/hosts".to_string()]);
    assert_eq!(repo.lookup("etc/etc/motd").map(|c| c.as_slice()), Some(b"new".as_slice()));
    assert_eq!(repo.lookup("etc/etc/hosts").map(|c| c.as_slice()), Some(b"h".as_slice()));
}

#[test]
fn refresh_twice_updates_nothing_the_second_time() {
    let mut repo = TreeSnapshot { files: vec![entry("etc/etc/motd", b"old")] };
    let groups = vec![
        confect::reconcile::CategoryFiles {
            category: "etc".to_string(),
            files: vec![entry("/etc/motd", b"new"), entry("/etc/hosts", b"h")],
        },
        confect::reconcile::CategoryFiles {
            category: "ssh".to_string(),
            files: vec![entry("/etc/ssh/sshd_config", b"s")],
        },
    ];
    let first = confect::reconcile::refresh_all(&groups, &mut repo);
    assert_eq!(first.len(), 3);
    let before = repo.files.len();
    let second = confect::reconcile::refresh_all(&groups, &mut repo);
    assert!(second.is_empty());
    assert_eq!(repo.files.len(), before);
}

#[test]
fn validate_path_rejects_critical_roots() {
    for p in ["/", "/root", "/home", "/boot", "/dev", "/proc", "/sys", "/run"] {
        assert!(matches!(
            confect::reconcile::validate_path(p),
            Err(ConfectError::ForbiddenPath(q)) if q == p
        ));
    }
    assert!(confect::reconcile::validate_path("/etc/motd").is_ok());
    assert!(confect::reconcile::validate_path("/root/x").is_ok());
}
