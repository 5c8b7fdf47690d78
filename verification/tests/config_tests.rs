use confect::config::{Config, EncryptionConfig, GlobalConfig, HostsConfig, RepoConfig};

#[test]
fn global_defaults() {
    let g = GlobalConfig::default();
    assert_eq!(g.default_remote, "origin");
    assert!(g.auto_push);
    assert!(g.editor.is_none());
    assert!(g.repo_path.is_none());
}

#[test]
fn encryption_defaults_off() {
    let e = EncryptionConfig::default();
    assert!(!e.enabled);
    assert!(e.public_key.is_none());
    assert!(e.recipients_file.is_none());
}

#[test]
fn hosts_default_strategy_is_branch() {
    let h = HostsConfig::default();
    assert_eq!(h.strategy, "branch");
    assert!(h.current.is_none());
}

#[test]
fn init_global_sets_current_host() {
    let c = Config::init_global("workstation");
    assert_eq!(c.hosts.current.as_deref(), Some("workstation"));
    assert_eq!(c.global.default_remote, "origin");
    assert!(!c.encryption.enabled);
    assert!(c.encryption.public_key.is_none());
    assert!(c.encryption.recipients_file.is_none());
}

#[test]
fn repo_path_prefers_the_configured_path() {
    let mut c = Config::default();
    assert_eq!(c.repo_path("/fallback"), "/fallback");
    c.global.repo_path = Some("/custom/repo".to_string());
    assert_eq!(c.repo_path("/fallback"), "/custom/repo");
}

#[test]
fn system_repo_path_is_fixed() {
    assert_eq!(Config::system_repo_path(), "/var/lib/confect");
}

#[test]
fn repo_config_defaults() {
    let r = RepoConfig::default();
    assert_eq!(r.repository.version, 1);
    assert!(r.repository.created.is_none());
    assert_eq!(r.hosts.strategy, "branch");
    assert!(r.hosts.list.is_empty());
}
