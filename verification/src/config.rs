//! The application's configuration and the machine's own state: the
//! settings with their defaults, and the login and device state with the
//! rules for when a login token is valid or due for refresh.

use vstd::prelude::*;

use crate::list::fresh_uuid;
use crate::paths::{join, join_spec};
use crate::places::{config_dir, home_dir};
use crate::text::owned;
use crate::theme::Theme;

verus! {

broadcast use vstd::string::group_string_axioms;

/// Legacy theme settings: variables and their values.
#[derive(Debug, Clone)]
pub struct LegacyThemeConfig {
    pub vars: Vec<(String, String)>,
}

/// User interface settings.
#[derive(Debug, Clone)]
pub struct UiConfig {
    /// The order in which targets are resolved.
    pub resolution_order: Vec<String>,
    /// Vim-like key bindings in the frontend.
    pub vim_mode: bool,
    /// Leader key for command sequences.
    pub leader_key: String,
    /// Ask before deleting lists or notes.
    pub confirm_delete: bool,
    pub theme: LegacyThemeConfig,
}

/// Fuzzy search settings.
#[derive(Debug, Clone)]
pub struct FuzzyConfig {
    pub threshold: i64,
    pub max_suggestions: usize,
}

/// Directories.
#[derive(Debug, Clone)]
pub struct PathsConfig {
    pub content_dir: Option<String>,
    pub media_dir: Option<String>,
    pub kinds: Option<Vec<String>>,
    /// Directory of theme files.
    pub themes_dir: Option<String>,
}

/// Settings of the sync server daemon.
#[derive(Debug, Clone)]
pub struct ServerConfig {
    pub host: Option<String>,
    pub port: Option<u16>,
    pub data_dir: Option<String>,
    pub tokens_db: Option<String>,
    pub content_db: Option<String>,
    pub sync_db: Option<String>,
}

/// Where document state is kept.
#[derive(Debug, Clone)]
pub struct StorageConfig {
    /// Directory of the CRDT state.
    pub crdt_dir: String,
    /// How many CRDT snapshots to keep.
    pub max_snapshots: usize,
}

/// Sync settings.
#[derive(Debug, Clone)]
pub struct SyncSettings {
    /// Server URL; without one, sync stays local.
    pub server_url: Option<String>,
    /// Reference to the encryption key.
    pub encryption_key_ref: Option<String>,
    /// Seconds between syncs.
    pub interval_seconds: u64,
    /// Largest file to sync, in bytes.
    pub max_file_size: u64,
    /// File patterns left out of sync.
    pub exclude_patterns: Vec<String>,
}

/// Settings of the sync daemon.
#[derive(Debug, Clone)]
pub struct SyncdConfig {
    pub url: Option<String>,
    pub auth_token: Option<String>,
    pub device_id: Option<String>,
    pub database_path: Option<String>,
    pub encryption_key_ref: Option<String>,
}

/// The configuration of the application.
#[derive(Debug, Clone)]
pub struct Config {
    pub ui: UiConfig,
    pub fuzzy: FuzzyConfig,
    pub paths: PathsConfig,
    pub server: ServerConfig,
    pub theme: Option<Theme>,
    pub storage: Option<StorageConfig>,
    pub sync: Option<SyncSettings>,
    /// Settings of the sync daemon, once set up.
    pub syncd: Option<SyncdConfig>,
}

/// Login state.
#[derive(Debug, Clone)]
pub struct AuthState {
    pub email: Option<String>,
    /// Token for refreshing the login and deriving the encryption key.
    pub auth_token: Option<String>,
    /// Login token.
    pub jwt_token: Option<String>,
    /// When the login token expires, in seconds since the Unix epoch.
    pub jwt_expires_at: Option<i64>,
}

/// Device state.
#[derive(Debug, Clone)]
pub struct DeviceState {
    pub device_id: Option<String>,
}

/// Sync database state.
#[derive(Debug, Clone)]
pub struct SyncState {
    pub database_path: Option<String>,
}

/// Machine-specific state that is not synced.
#[derive(Debug, Clone)]
pub struct State {
    pub auth: AuthState,
    pub device: DeviceState,
    pub sync: SyncState,
}

/// Seconds between syncs by default.
pub fn default_sync_interval() -> (r: u64)
    ensures
        r == 30,
{
    30
}

/// Largest file synced by default: 10 MiB.
pub fn default_max_file_size() -> (r: u64)
    ensures
        r == 10 * 1024 * 1024,
{
    10 * 1024 * 1024
}

/// Snapshots kept by default.
pub fn default_max_snapshots() -> (r: usize)
    ensures
        r == 100,
{
    100
}

/// The default order of target resolution.
pub open spec fn default_order() -> Seq<Seq<char>> {
    seq!["anchor"@, "exact"@, "fuzzy"@, "index"@, "interactive"@]
}

/// The default order of target resolution: anchor, exact, fuzzy, index,
/// interactive.
pub fn default_resolution_order() -> (r: Vec<String>)
    ensures
        r@.map_values(|s: String| s@) == default_order(),
{
    let mut v: Vec<String> = Vec::new();
    v.push(owned("anchor"));
    v.push(owned("exact"));
    v.push(owned("fuzzy"));
    v.push(owned("index"));
    v.push(owned("interactive"));
    assert(v@.map_values(|s: String| s@) =~= default_order());
    v
}

/// The default fuzzy threshold.
pub fn default_threshold() -> (r: i64)
    ensures
        r == 50,
{
    50
}

/// The default number of suggestions.
pub fn default_max_suggestions() -> (r: usize)
    ensures
        r == 7,
{
    7
}

/// The default leader key: a space.
pub fn default_leader_key() -> (r: String)
    ensures
        r@ == " "@,
{
    owned(" ")
}

/// Whether deletions are confirmed by default.
pub fn default_confirm_delete() -> (r: bool)
    ensures
        r,
{
    true
}

impl Default for LegacyThemeConfig {
    fn default() -> (r: Self)
        ensures
            r.vars@.len() == 0,
    {
        LegacyThemeConfig { vars: Vec::new() }
    }
}

impl Default for UiConfig {
    fn default() -> (r: Self)
        ensures
            r.resolution_order@.map_values(|s: String| s@) == default_order(),
            !r.vim_mode,
            r.leader_key@ == " "@,
            r.confirm_delete,
            r.theme.vars@.len() == 0,
    {
        UiConfig {
            resolution_order: default_resolution_order(),
            vim_mode: false,
            leader_key: default_leader_key(),
            confirm_delete: default_confirm_delete(),
            theme: LegacyThemeConfig::default(),
        }
    }
}

impl Default for FuzzyConfig {
    fn default() -> (r: Self)
        ensures
            r.threshold == 50,
            r.max_suggestions == 7,
    {
        FuzzyConfig { threshold: default_threshold(), max_suggestions: default_max_suggestions() }
    }
}

impl Default for PathsConfig {
    fn default() -> (r: Self)
        ensures
            r.content_dir is None,
            r.media_dir is None,
            r.kinds is None,
            r.themes_dir is None,
    {
        PathsConfig { content_dir: None, media_dir: None, kinds: None, themes_dir: None }
    }
}

impl Default for ServerConfig {
    fn default() -> (r: Self)
        ensures
            r.host is None,
            r.port is None,
            r.data_dir is None,
            r.tokens_db is None,
            r.content_db is None,
            r.sync_db is None,
    {
        ServerConfig { host: None, port: None, data_dir: None, tokens_db: None, content_db: None, sync_db: None }
    }
}

impl Default for Config {
    fn default() -> (r: Self)
        ensures
            r.ui.resolution_order@.map_values(|s: String| s@) == default_order(),
            !r.ui.vim_mode,
            r.ui.leader_key@ == " "@,
            r.ui.confirm_delete,
            r.fuzzy.threshold == 50,
            r.fuzzy.max_suggestions == 7,
            r.paths.content_dir is None,
            r.paths.themes_dir is None,
            r.server.host is None,
            r.theme is None,
            r.storage is None,
            r.sync is None,
            r.syncd is None,
    {
        Config {
            ui: UiConfig::default(),
            fuzzy: FuzzyConfig::default(),
            paths: PathsConfig::default(),
            server: ServerConfig::default(),
            theme: None,
            storage: None,
            sync: None,
            syncd: None,
        }
    }
}

impl Default for AuthState {
    fn default() -> (r: Self)
        ensures
            r.email is None,
            r.auth_token is None,
            r.jwt_token is None,
            r.jwt_expires_at is None,
    {
        AuthState { email: None, auth_token: None, jwt_token: None, jwt_expires_at: None }
    }
}

impl Default for DeviceState {
    fn default() -> (r: Self)
        ensures
            r.device_id is None,
    {
        DeviceState { device_id: None }
    }
}

impl Default for SyncState {
    fn default() -> (r: Self)
        ensures
            r.database_path is None,
    {
        SyncState { database_path: None }
    }
}

impl Default for State {
    fn default() -> (r: Self)
        ensures
            r.auth.email is None,
            r.auth.auth_token is None,
            r.auth.jwt_token is None,
            r.auth.jwt_expires_at is None,
            r.device.device_id is None,
            r.sync.database_path is None,
    {
        State { auth: AuthState::default(), device: DeviceState::default(), sync: SyncState::default() }
    }
}

/// The content directory: the configured one, else `<home>/lst/content`.
pub open spec fn content_dir_of(configured: Option<Seq<char>>, home: Seq<char>) -> Seq<char> {
    match configured {
        Some(d) => d,
        None => join_spec(join_spec(home, "lst"@), "content"@),
    }
}

impl Config {
    /// The content directory, given the home directory.
    pub fn content_dir_with_home(&self, home: &str) -> (r: String)
        ensures
            r@ == content_dir_of(
                match self.paths.content_dir {
                    Some(d) => Some(d@),
                    None => None,
                },
                home@,
            ),
    {
        match &self.paths.content_dir {
            Some(d) => d.clone(),
            None => {
                let lst = join(home, "lst");
                join(lst.as_str(), "content")
            },
        }
    }

    /// The content directory: the configured one, else `~/lst/content`;
    /// `None` when the home directory is needed and unknown.
    pub fn get_content_dir(&self) -> (r: Option<String>)
        ensures
            self.paths.content_dir matches Some(d) ==> (r matches Some(s) && s@ == d@),
            self.paths.content_dir is None ==> (r matches Some(s) ==> exists|h: Seq<char>|
                s@ == content_dir_of(None, h)),
    {
        match &self.paths.content_dir {
            Some(d) => Some(d.clone()),
            None => match home_dir() {
                Some(h) => Some(self.content_dir_with_home(h.as_str())),
                None => None,
            },
        }
    }

    /// Set up sync with its defaults when it is not set up, given the
    /// configuration directory; `false` when that directory is needed and
    /// unknown.
    pub fn init_sync_with(&mut self, config_base: Option<&str>) -> (r: bool)
        ensures
            old(self).sync is Some ==> r && final(self).sync == old(self).sync && final(self).storage == old(self).storage,
            old(self).sync is None && config_base is None ==> !r && final(self).sync is None,
            old(self).sync is None && config_base is Some ==> r && (final(self).sync matches Some(s)
                && s.server_url is None && (s.encryption_key_ref matches Some(k) && k@ == "lst-master-key"@)
                && s.interval_seconds == 30 && s.max_file_size == 10 * 1024 * 1024
                && s.exclude_patterns@.map_values(|p: String| p@) == seq![".*"@, "*.tmp"@, "*.swp"@]) && (
            final(self).storage matches Some(st) && st.crdt_dir@ == join_spec(join_spec(config_base->0@, "lst"@), "crdt"@)
                && st.max_snapshots == 100),
            final(self).ui == old(self).ui,
            final(self).paths == old(self).paths,
    {
        if self.sync.is_some() {
            return true;
        }
        match config_base {
            Some(c) => {
                let lst = join(c, "lst");
                let crdt_dir = join(lst.as_str(), "crdt");
                let mut patterns: Vec<String> = Vec::new();
                patterns.push(owned(".*"));
                patterns.push(owned("*.tmp"));
                patterns.push(owned("*.swp"));
                assert(patterns@.map_values(|p: String| p@) =~= seq![".*"@, "*.tmp"@, "*.swp"@]);
                self.sync = Some(
                    SyncSettings {
                        server_url: None,
                        encryption_key_ref: Some(owned("lst-master-key")),
                        interval_seconds: default_sync_interval(),
                        max_file_size: default_max_file_size(),
                        exclude_patterns: patterns,
                    },
                );
                self.storage = Some(StorageConfig { crdt_dir, max_snapshots: default_max_snapshots() });
                true
            },
            None => false,
        }
    }

    /// Set up the sync daemon with its defaults when it is not set up, given
    /// the configuration directory: a fresh device identifier, the database
    /// `<config>/lst/syncd.db`, the key reference `lst-master-key`, snapshots
    /// under `<config>/lst/crdt` and the default sync settings. `false` when
    /// that directory is needed and unknown.
    pub fn init_syncd_with(&mut self, config_base: Option<&str>) -> (r: bool)
        ensures
            old(self).syncd is Some ==> r && *final(self) == *old(self),
            old(self).syncd is None && config_base is None ==> !r && *final(self) == *old(self),
            old(self).syncd is None && config_base is Some ==> r && ({
                let lst = join_spec(config_base->0@, "lst"@);
                &&& final(self).syncd matches Some(d) && d.url is None && d.auth_token is None
                    && d.device_id is Some
                    && (d.database_path matches Some(p) && p@ == join_spec(lst, "syncd.db"@))
                    && (d.encryption_key_ref matches Some(k) && k@ == "lst-master-key"@)
                &&& final(self).storage matches Some(st) && st.crdt_dir@ == join_spec(lst, "crdt"@)
                    && st.max_snapshots == 100
                &&& final(self).sync matches Some(s) && s.server_url is None && s.encryption_key_ref is None
                    && s.interval_seconds == 30 && s.max_file_size == 10 * 1024 * 1024
                    && s.exclude_patterns@.map_values(|p: String| p@) == seq![".*"@, "*.tmp"@, "*.swp"@]
            }),
            final(self).ui == old(self).ui,
            final(self).paths == old(self).paths,
            final(self).server == old(self).server,
    {
        if self.syncd.is_some() {
            return true;
        }
        match config_base {
            Some(c) => {
                let lst = join(c, "lst");
                let crdt_dir = join(lst.as_str(), "crdt");
                let db_path = join(lst.as_str(), "syncd.db");
                let mut patterns: Vec<String> = Vec::new();
                patterns.push(owned(".*"));
                patterns.push(owned("*.tmp"));
                patterns.push(owned("*.swp"));
                assert(patterns@.map_values(|p: String| p@) =~= seq![".*"@, "*.tmp"@, "*.swp"@]);
                self.syncd = Some(
                    SyncdConfig {
                        url: None,
                        auth_token: None,
                        device_id: Some(fresh_uuid()),
                        database_path: Some(db_path),
                        encryption_key_ref: Some(owned("lst-master-key")),
                    },
                );
                self.storage = Some(StorageConfig { crdt_dir, max_snapshots: default_max_snapshots() });
                self.sync = Some(
                    SyncSettings {
                        server_url: None,
                        encryption_key_ref: None,
                        interval_seconds: default_sync_interval(),
                        max_file_size: default_max_file_size(),
                        exclude_patterns: patterns,
                    },
                );
                true
            },
            None => false,
        }
    }

    /// Set up the sync daemon with its defaults when it is not set up;
    /// `false` when the configuration directory is needed and unknown.
    pub fn init_syncd(&mut self) -> (r: bool)
        ensures
            old(self).syncd is Some ==> r && *final(self) == *old(self),
            r ==> final(self).syncd is Some,
            !r ==> *final(self) == *old(self),
            final(self).ui == old(self).ui,
            final(self).paths == old(self).paths,
    {
        if self.syncd.is_some() {
            return true;
        }
        match config_dir() {
            Some(c) => self.init_syncd_with(Some(c.as_str())),
            None => self.init_syncd_with(None),
        }
    }

    /// Set up sync with its defaults when it is not set up; `false` when the
    /// configuration directory is needed and unknown.
    pub fn init_sync(&mut self) -> (r: bool)
        ensures
            old(self).sync is Some ==> r && final(self).sync == old(self).sync,
            r ==> final(self).sync is Some,
            final(self).ui == old(self).ui,
            final(self).paths == old(self).paths,
    {
        if self.sync.is_some() {
            return true;
        }
        match config_dir() {
            Some(c) => self.init_sync_with(Some(c.as_str())),
            None => self.init_sync_with(None),
        }
    }
}

/// Whether a login token is valid at `now`: present, not empty, and not yet
/// expired.
pub open spec fn jwt_valid_at(auth: AuthState, now: i64) -> bool {
    auth.jwt_token matches Some(t) && auth.jwt_expires_at matches Some(e) && t@.len() > 0 && now < e
}

/// Whether a login token is due for refresh at `now`: less than five whole
/// minutes from expiry, or with no expiry at all.
pub open spec fn jwt_refresh_due_at(auth: AuthState, now: i64) -> bool {
    match auth.jwt_expires_at {
        Some(e) => e - now < 300,
        None => true,
    }
}

/// `chrono::Utc::now().timestamp()`: the current time in seconds since the
/// Unix epoch; nothing is stated of it.
#[verifier::external_body]
fn now_seconds() -> i64 {
    chrono::Utc::now().timestamp()
}

fn copy_opt(s: &Option<String>) -> (r: Option<String>)
    ensures
        r == *s,
{
    match s {
        Some(v) => Some(v.clone()),
        None => None,
    }
}

impl State {
    /// Whether the login token is valid at `now` (seconds since the epoch).
    pub fn is_jwt_valid_at(&self, now: i64) -> (r: bool)
        ensures
            r == jwt_valid_at(self.auth, now),
    {
        match (&self.auth.jwt_token, self.auth.jwt_expires_at) {
            (Some(jwt), Some(expires_at)) => !jwt.as_str().is_empty() && now < expires_at,
            _ => false,
        }
    }

    /// Whether the login token is valid now.
    pub fn is_jwt_valid(&self) -> (r: bool)
        ensures
            r ==> exists|now: i64| jwt_valid_at(self.auth, now),
    {
        self.is_jwt_valid_at(now_seconds())
    }

    /// Store a login token with its expiry.
    pub fn store_jwt(&mut self, jwt: String, expires_at: i64)
        ensures
            final(self).auth.jwt_token == Some(jwt),
            final(self).auth.jwt_expires_at == Some(expires_at),
            final(self).auth.email == old(self).auth.email,
            final(self).auth.auth_token == old(self).auth.auth_token,
            final(self).device == old(self).device,
            final(self).sync == old(self).sync,
    {
        self.auth.jwt_token = Some(jwt);
        self.auth.jwt_expires_at = Some(expires_at);
    }

    /// Forget the login token.
    pub fn clear_jwt(&mut self)
        ensures
            final(self).auth.jwt_token is None,
            final(self).auth.jwt_expires_at is None,
            final(self).auth.email == old(self).auth.email,
            final(self).auth.auth_token == old(self).auth.auth_token,
            final(self).device == old(self).device,
            final(self).sync == old(self).sync,
    {
        self.auth.jwt_token = None;
        self.auth.jwt_expires_at = None;
    }

    /// The login token, if it is valid at `now`.
    pub fn get_jwt_at(&self, now: i64) -> (r: Option<String>)
        ensures
            jwt_valid_at(self.auth, now) ==> r == self.auth.jwt_token,
            !jwt_valid_at(self.auth, now) ==> r is None,
    {
        if self.is_jwt_valid_at(now) {
            copy_opt(&self.auth.jwt_token)
        } else {
            None
        }
    }

    /// Store the email and the auth token.
    pub fn store_auth_credentials(&mut self, email: String, auth_token: String)
        ensures
            final(self).auth.email == Some(email),
            final(self).auth.auth_token == Some(auth_token),
            final(self).auth.jwt_token == old(self).auth.jwt_token,
            final(self).auth.jwt_expires_at == old(self).auth.jwt_expires_at,
    {
        self.auth.email = Some(email);
        self.auth.auth_token = Some(auth_token);
    }

    /// Store the auth token.
    pub fn store_auth_token(&mut self, auth_token: String)
        ensures
            final(self).auth.auth_token == Some(auth_token),
            final(self).auth.email == old(self).auth.email,
    {
        self.auth.auth_token = Some(auth_token);
    }

    /// Whether the login token is due for refresh at `now`.
    pub fn needs_jwt_refresh_at(&self, now: i64) -> (r: bool)
        ensures
            r == jwt_refresh_due_at(self.auth, now),
    {
        match self.auth.jwt_expires_at {
            Some(expires_at) => (expires_at as i128) - (now as i128) < 300,
            None => true,
        }
    }

    /// The device identifier, made and stored when there is none yet.
    pub fn ensure_device_id(&mut self) -> (r: String)
        ensures
            old(self).device.device_id matches Some(d) ==> r == d,
            final(self).device.device_id == Some(r),
            final(self).auth == old(self).auth,
            final(self).sync == old(self).sync,
    {
        match &self.device.device_id {
            Some(d) => d.clone(),
            None => {
                let id = fresh_uuid();
                self.device.device_id = Some(id.clone());
                id
            },
        }
    }

    /// Fill in a missing device identifier and a missing sync database path
    /// (`<home>/.local/share/lst/sync.db`), given the home directory;
    /// `false` when the path is missing and the home directory unknown.
    pub fn init_with_home(&mut self, home: Option<&str>) -> (r: bool)
        ensures
            final(self).device.device_id is Some,
            old(self).device.device_id is Some ==> final(self).device.device_id == old(self).device.device_id,
            old(self).sync.database_path is Some ==> r && final(self).sync.database_path == old(self).sync.database_path,
            old(self).sync.database_path is None && home is None ==> !r,
            old(self).sync.database_path is None && home is Some ==> r && (final(self).sync.database_path matches Some(p)
                && p@ == join_spec(join_spec(join_spec(join_spec(home->0@, ".local"@), "share"@), "lst"@), "sync.db"@)),
            final(self).auth == old(self).auth,
    {
        self.ensure_device_id();
        if self.sync.database_path.is_none() {
            match home {
                Some(h) => {
                    let a = join(h, ".local");
                    let b = join(a.as_str(), "share");
                    let c = join(b.as_str(), "lst");
                    self.sync.database_path = Some(join(c.as_str(), "sync.db"));
                },
                None => {
                    return false;
                },
            }
        }
        true
    }
}

/// A token stored with an expiry in the future is valid until then, and not
/// after; a cleared token is never valid.
pub proof fn lemma_jwt_validity(auth: AuthState, jwt: String, expires_at: i64, now: i64)
    requires
        jwt@.len() > 0,
    ensures
        jwt_valid_at(AuthState { jwt_token: Some(jwt), jwt_expires_at: Some(expires_at), ..auth }, now) <==> now
            < expires_at,
        !jwt_valid_at(AuthState { jwt_token: None, jwt_expires_at: None, ..auth }, now),
{
}

/// A token valid for more than five minutes more is not due for refresh.
pub proof fn lemma_fresh_jwt_not_due(auth: AuthState, now: i64)
    requires
        auth.jwt_expires_at matches Some(e) && e - now >= 300,
    ensures
        !jwt_refresh_due_at(auth, now),
{
}

} // verus!
