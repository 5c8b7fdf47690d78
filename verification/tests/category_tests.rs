use confect::category::{Category, CategoryManager};
use confect::error::ConfectError;

#[test]
fn new_category_is_empty() {
    let c = Category::new("web");
    assert_eq!(c.name, "web");
    assert!(c.description.is_none());
    assert!(c.paths.is_empty());
    assert!(c.encrypt.is_empty());
    assert!(c.exclude.is_empty());
}

#[test]
fn glob_include_matches() {
    let mut c = Category::new("etc");
    c.paths.push("/etc/*".to_string());
    assert!(c.matches("/etc/passwd"));
    assert!(c.matches("/etc/hosts"));
    assert!(!c.matches("/var/log/syslog"));
}

#[test]
fn glob_star_crosses_separators_by_default() {
    // glob's default match options let `*` span path separators.
    let mut c = Category::new("etc");
    c.paths.push("/etc/*".to_string());
    assert!(c.matches("/etc/nginx/nginx.conf"));
}

#[test]
fn exclusion_wins_over_include() {
    let mut c = Category::new("etc");
    c.paths.push("/etc/*".to_string());
    c.exclude.push("/etc/shadow".to_string());
    assert!(!c.matches("/etc/shadow"));
    assert!(c.matches("/etc/passwd"));
}

#[test]
fn exclusion_wins_over_literal_include() {
    let mut c = Category::new("etc");
    c.paths.push("/etc/shadow".to_string());
    c.exclude.push("/etc/*".to_string());
    assert!(!c.matches("/etc/shadow"));
}

#[test]
fn literal_include_matches_invalid_glob() {
    // An include entry that is no well-formed glob still matches by literal
    // string equality.
    let mut c = Category::new("odd");
    c.paths.push("/etc/[x".to_string());
    assert!(c.matches("/etc/[x"));
    assert!(!c.matches("/etc/x"));
}

#[test]
fn should_encrypt_follows_encrypt_patterns() {
    let mut c = Category::new("secret");
    c.paths.push("/etc/*".to_string());
    c.encrypt.push("/etc/secrets/*".to_string());
    assert!(c.should_encrypt("/etc/secrets/api_key"));
    assert!(!c.should_encrypt("/etc/hostname"));
}

#[test]
fn repo_path_for_prepends_category() {
    let c = Category::new("web");
    let rp = c.repo_path_for("/etc/nginx/nginx.conf");
    assert_eq!(rp, "web/etc/nginx/nginx.conf");
}

#[test]
fn repo_path_for_strips_every_leading_separator() {
    let c = Category::new("web");
    assert_eq!(c.repo_path_for("//etc/x"), "web/etc/x");
}

#[test]
fn system_path_for_inverts_repo_path_for() {
    let c = Category::new("web");
    let rp = c.repo_path_for("/etc/nginx/nginx.conf");
    let sp = c.system_path_for(&rp);
    assert_eq!(sp.as_deref(), Some("/etc/nginx/nginx.conf"));
}

#[test]
fn system_path_for_bare_category_root_is_none() {
    let c = Category::new("web");
    assert!(c.system_path_for("web").is_none());
    assert!(c.system_path_for("web/").is_none());
    assert!(c.system_path_for("").is_none());
}

#[test]
fn manager_create_and_get() {
    let mut m = CategoryManager::new();
    assert!(m.create("web", Some("web servers".to_string()), vec!["/etc/nginx/*".to_string()]).is_ok());
    assert!(m.contains_category("web"));
    assert!(!m.contains_category("db"));
    let c = m.get("web").unwrap();
    assert_eq!(c.name, "web");
    assert_eq!(c.description.as_deref(), Some("web servers"));
    assert_eq!(c.paths, vec!["/etc/nginx/*".to_string()]);
    assert!(matches!(m.get("db"), Err(ConfectError::CategoryNotFound(n)) if n == "db"));
}

#[test]
fn manager_rejects_duplicate_names() {
    let mut m = CategoryManager::new();
    m.add(Category::new("web")).unwrap();
    assert!(matches!(
        m.add(Category::new("web")),
        Err(ConfectError::CategoryAlreadyExists(n)) if n == "web"
    ));
    assert_eq!(m.list().len(), 1);
}

#[test]
fn manager_remove() {
    let mut m = CategoryManager::new();
    m.add(Category::new("web")).unwrap();
    assert!(m.remove("web").is_ok());
    assert!(!m.contains_category("web"));
    assert!(matches!(m.remove("web"), Err(ConfectError::CategoryNotFound(_))));
}

#[test]
fn manager_find_for_path() {
    let mut m = CategoryManager::new();
    m.create("web", None, vec!["/etc/nginx/*".to_string()]).unwrap();
    m.create("ssh", None, vec!["/etc/ssh/*".to_string()]).unwrap();
    let c = m.find_for_path("/etc/ssh/sshd_config").unwrap();
    assert_eq!(c.name, "ssh");
    assert!(m.find_for_path("/opt/other").is_none());
}

#[test]
fn manager_contains_path() {
    let mut m = CategoryManager::new();
    m.create("web", None, vec!["/etc/nginx/*".to_string()]).unwrap();
    assert!(m.contains_path("web", "/etc/nginx/nginx.conf"));
    assert!(!m.contains_path("web", "/etc/ssh/sshd_config"));
    assert!(!m.contains_path("db", "/etc/nginx/nginx.conf"));
}

#[test]
fn add_path_is_idempotent() {
    let mut m = CategoryManager::new();
    m.create("web", None, Vec::new()).unwrap();
    m.add_path("web", "/etc/nginx/nginx.conf".to_string(), false).unwrap();
    m.add_path("web", "/etc/nginx/nginx.conf".to_string(), false).unwrap();
    let c = m.get("web").unwrap();
    assert_eq!(c.paths, vec!["/etc/nginx/nginx.conf".to_string()]);
    assert!(c.encrypt.is_empty());
}

#[test]
fn add_path_with_encrypt_flag_appends_to_both_lists() {
    let mut m = CategoryManager::new();
    m.create("secret", None, Vec::new()).unwrap();
    m.add_path("secret", "/etc/secrets/key".to_string(), true).unwrap();
    let c = m.get("secret").unwrap();
    assert_eq!(c.paths, vec!["/etc/secrets/key".to_string()]);
    assert_eq!(c.encrypt, vec!["/etc/secrets/key".to_string()]);
}

#[test]
fn add_path_to_missing_category_fails() {
    let mut m = CategoryManager::new();
    assert!(matches!(
        m.add_path("nope", "/etc/x".to_string(), false),
        Err(ConfectError::CategoryNotFound(_))
    ));
}

#[test]
fn remove_path_drops_from_both_lists() {
    let mut m = CategoryManager::new();
    m.create("secret", None, Vec::new()).unwrap();
    m.add_path("secret", "/etc/secrets/key".to_string(), true).unwrap();
    m.add_path("secret", "/etc/other".to_string(), false).unwrap();
    m.remove_path("secret", "/etc/secrets/key").unwrap();
    let c = m.get("secret").unwrap();
    assert_eq!(c.paths, vec!["/etc/other".to_string()]);
    assert!(c.encrypt.is_empty());
}
