//! Configuration values: the global per-user configuration and the
//! repository-local configuration.
//!
//! Each is an explicit value constructed once and passed into the components
//! that need it; reading and writing the underlying files is the caller's
//! work.

use vstd::prelude::*;

verus! {

/// The default remote name.
pub fn default_remote() -> (r: String)
    ensures
        r@ == "origin"@,
{
    String::from_str("origin")
}

/// The default for switches that are on unless turned off.
pub fn default_true() -> (r: bool)
    ensures
        r,
{
    true
}

/// The default host strategy.
pub fn default_strategy() -> (r: String)
    ensures
        r@ == "branch"@,
{
    String::from_str("branch")
}

/// The current repository layout version.
pub fn default_version() -> (r: u32)
    ensures
        r == 1,
{
    1
}

/// General settings of the global configuration.
pub struct GlobalConfig {
    /// The remote pushed to and pulled from by default.
    pub default_remote: String,
    /// Whether a sync pushes to the remote when one is configured.
    pub auto_push: bool,
    /// The editor to open files with, where set.
    pub editor: Option<String>,
    /// The repository root path, where set; the caller's platform default
    /// applies otherwise.
    pub repo_path: Option<String>,
}

/// Encryption settings of the global configuration.
pub struct EncryptionConfig {
    /// Whether encryption is applied to matching files.
    pub enabled: bool,
    /// This host's recipient key, where set.
    pub public_key: Option<String>,
    /// The path of a recipients file, where set.
    pub recipients_file: Option<String>,
}

/// Host settings of the global configuration.
pub struct HostsConfig {
    /// How hosts share the repository.
    pub strategy: String,
    /// This host's name, where set.
    pub current: Option<String>,
}

/// The global configuration, read once per invocation.
pub struct Config {
    /// General settings.
    pub global: GlobalConfig,
    /// Encryption settings.
    pub encryption: EncryptionConfig,
    /// Host settings.
    pub hosts: HostsConfig,
}

impl Default for GlobalConfig {
    /// The default general settings: remote `origin`, pushing on, no editor
    /// and no repository path set.
    fn default() -> (r: Self)
        ensures
            r.default_remote@ == "origin"@,
            r.auto_push,
            r.editor is None,
            r.repo_path is None,
    {
        GlobalConfig {
            default_remote: default_remote(),
            auto_push: default_true(),
            editor: None,
            repo_path: None,
        }
    }
}

impl Default for EncryptionConfig {
    /// The default encryption settings: off, with no key and no recipients
    /// file.
    fn default() -> (r: Self)
        ensures
            !r.enabled,
            r.public_key is None,
            r.recipients_file is None,
    {
        EncryptionConfig { enabled: false, public_key: None, recipients_file: None }
    }
}

impl Default for HostsConfig {
    /// The default host settings: the `branch` strategy and no current host.
    fn default() -> (r: Self)
        ensures
            r.strategy@ == "branch"@,
            r.current is None,
    {
        HostsConfig { strategy: default_strategy(), current: None }
    }
}

impl Default for Config {
    /// The default global configuration.
    fn default() -> (r: Self)
        ensures
            r.global.default_remote@ == "origin"@,
            r.global.auto_push,
            r.global.editor is None,
            r.global.repo_path is None,
            !r.encryption.enabled,
            r.encryption.public_key is None,
            r.encryption.recipients_file is None,
            r.hosts.strategy@ == "branch"@,
            r.hosts.current is None,
    {
        Config {
            global: GlobalConfig::default(),
            encryption: EncryptionConfig::default(),
            hosts: HostsConfig::default(),
        }
    }
}

impl Config {
    /// The initial global configuration for a host: everything at its
    /// default, with the current host set to `hostname`. The caller persists
    /// it.
    pub fn init_global(hostname: &str) -> (r: Self)
        ensures
            r.global.default_remote@ == "origin"@,
            r.global.auto_push,
            r.global.editor is None,
            r.global.repo_path is None,
            !r.encryption.enabled,
            r.encryption.public_key is None,
            r.encryption.recipients_file is None,
            r.hosts.strategy@ == "branch"@,
            r.hosts.current matches Some(h) && h@ == hostname@,
    {
        let mut config = Self::default();
        config.hosts.current = Some(String::from_str(hostname));
        config
    }

    /// The system-wide repository path.
    pub fn system_repo_path() -> (r: String)
        ensures
            r@ == "/var/lib/confect"@,
    {
        String::from_str("/var/lib/confect")
    }

    /// The configured repository path, or `default_path` where none is set.
    pub fn repo_path(&self, default_path: &str) -> (r: String)
        ensures
            match self.global.repo_path {
                Some(p) => r@ == p@,
                None => r@ == default_path@,
            },
    {
        match &self.global.repo_path {
            Some(p) => p.clone(),
            None => String::from_str(default_path),
        }
    }
}

/// Identity of a repository: its layout version and creation time.
pub struct RepoMeta {
    /// The repository layout version.
    pub version: u32,
    /// When the repository was created, where recorded.
    pub created: Option<String>,
}

/// One host known to a repository.
pub struct HostEntry {
    /// The branch the host works on.
    pub branch: String,
}

/// Host settings of the repository-local configuration.
pub struct RepoHostsConfig {
    /// How hosts share the repository.
    pub strategy: String,
    /// The hosts known to the repository, by name.
    pub list: Vec<(String, HostEntry)>,
}

/// The repository-local configuration.
pub struct RepoConfig {
    /// The repository's identity.
    pub repository: RepoMeta,
    /// The repository's host settings.
    pub hosts: RepoHostsConfig,
}

impl Default for RepoMeta {
    /// The default identity: the current layout version, no creation time.
    fn default() -> (r: Self)
        ensures
            r.version == 1,
            r.created is None,
    {
        RepoMeta { version: default_version(), created: None }
    }
}

impl Default for RepoHostsConfig {
    /// The default host settings: the `branch` strategy and no hosts.
    fn default() -> (r: Self)
        ensures
            r.strategy@ == "branch"@,
            r.list@.len() == 0,
    {
        RepoHostsConfig { strategy: default_strategy(), list: Vec::new() }
    }
}

impl Default for RepoConfig {
    /// The default repository-local configuration.
    fn default() -> (r: Self)
        ensures
            r.repository.version == 1,
            r.repository.created is None,
            r.hosts.strategy@ == "branch"@,
            r.hosts.list@.len() == 0,
    {
        RepoConfig { repository: RepoMeta::default(), hosts: RepoHostsConfig::default() }
    }
}

} // verus!
