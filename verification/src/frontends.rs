//! What the desktop and mobile apps and the assistant tools exchange: notes,
//! theme data, sync settings and status, mobile configuration, and the
//! answers of the assistant tools.

use vstd::prelude::*;

use crate::list::fresh_uuid;
use crate::paths::{join, join_spec};
use crate::text::owned;
use crate::sorted::{string_views, strictly_sorted};
use crate::theme::{
    available_theme_names, builtin_spec, css_variables, default_dirs, is_builtin_theme, listing_views, loads_as,
    lookup_theme, standard_builtins, Theme, ThemeDirListing, ThemeError, ThemeFile, ThemeLoader, ThemeVariant,
};

verus! {

broadcast use vstd::string::group_string_axioms;

/// A note as the apps show it.
#[derive(Debug, Clone)]
pub struct Note {
    pub title: String,
    pub content: String,
    pub created: Option<String>,
    pub file_path: String,
}

/// The theme as the apps apply it: its CSS variables, scheme, name and
/// variant.
#[derive(Debug, Clone)]
pub struct ThemeData {
    pub css_variables: String,
    pub scheme: String,
    pub name: Option<String>,
    pub variant: Option<String>,
}

/// The name of a theme variant as `{:?}` writes it.
pub open spec fn variant_name(v: ThemeVariant) -> Seq<char> {
    match v {
        ThemeVariant::Light => "Light"@,
        ThemeVariant::Dark => "Dark"@,
    }
}

/// The theme data of a theme.
pub open spec fn theme_data_matches(d: ThemeData, t: Theme) -> bool {
    &&& d.css_variables@ == css_variables(t)
    &&& d.scheme@ == t.scheme@
    &&& d.name == t.name
    &&& match t.variant {
        Some(v) => d.variant matches Some(n) && n@ == variant_name(v),
        None => d.variant is None,
    }
}

impl ThemeData {
    /// The theme data of a theme.
    pub fn from_theme(theme: &Theme) -> (r: Self)
        ensures
            theme_data_matches(r, *theme),
    {
        let variant = match theme.variant {
            Some(ThemeVariant::Light) => Some(owned("Light")),
            Some(ThemeVariant::Dark) => Some(owned("Dark")),
            None => None,
        };
        let name = match &theme.name {
            Some(n) => Some(n.clone()),
            None => None,
        };
        ThemeData { css_variables: theme.generate_css_variables(), scheme: theme.scheme.clone(), name, variant }
    }
}

/// In the built-in table, `base16-nord` names the Nord theme.
proof fn lemma_nord_is_built_in(e: Seq<(String, Theme)>)
    requires
        standard_builtins(e),
    ensures
        lookup_theme(e, "base16-nord"@) == Some(e[3].1),
        is_builtin_theme(e[3].1, builtin_spec(3)),
{
    reveal_strlit("base16-nord");
    reveal_strlit("base16-default-dark");
    reveal_strlit("base16-default-light");
    reveal_strlit("base16-catppuccin-mocha");
    assert(e[0].0@ == builtin_spec(0).key);
    assert(e[1].0@ == builtin_spec(1).key);
    assert(e[2].0@ == builtin_spec(2).key);
    assert(e[3].0@ == builtin_spec(3).key);
    assert(e[0].0@[7] != "base16-nord"@[7]);
    assert(e[1].0@[7] != "base16-nord"@[7]);
    assert(e[2].0@[7] != "base16-nord"@[7]);
    let e1 = e.drop_first();
    let e2 = e1.drop_first();
    let e3 = e2.drop_first();
    assert(e1[0] == e[1]);
    assert(e2[0] == e[2]);
    assert(e3[0] == e[3]);
    assert(lookup_theme(e3, "base16-nord"@) == Some(e[3].1));
    assert(lookup_theme(e2, "base16-nord"@) == Some(e[3].1));
    assert(lookup_theme(e1, "base16-nord"@) == Some(e[3].1));
}

/// The mobile app's current theme: the built-in Nord theme.
pub fn get_current_theme() -> (r: ThemeData)
    ensures
        exists|t: Theme| is_builtin_theme(t, builtin_spec(3)) && theme_data_matches(r, t),
{
    let loader = ThemeLoader::new();
    proof {
        lemma_nord_is_built_in(loader.builtins());
    }
    let theme = match loader.load_theme("base16-nord", &Vec::new(), Vec::new()) {
        Ok(t) => t,
        Err(_) => Theme::default(),
    };
    let d = ThemeData::from_theme(&theme);
    assert(is_builtin_theme(theme, builtin_spec(3)) && theme_data_matches(d, theme));
    d
}

/// The theme data of a theme, for the mobile app: the theme loaded as the
/// theme loader loads it, from the built-in themes and the theme files of
/// its directories (listed in `listings`, read into `files`).
pub fn apply_theme(theme_name: &str, listings: &Vec<ThemeDirListing>, files: Vec<ThemeFile>) -> (r: Result<ThemeData, ThemeError>)
    ensures
        exists|e: Seq<(String, Theme)>, ds: Seq<Seq<char>>, lr: Result<Theme, ThemeError>|
            #[trigger] loads_as(e, ds, listing_views(listings@), files@, theme_name@, lr) && standard_builtins(e)
                && (exists|h: Option<Seq<char>>, c: Option<Seq<char>>| ds == default_dirs(h, c)) && match lr {
                Ok(t) => r matches Ok(d) && theme_data_matches(d, t),
                Err(err) => r == Err::<ThemeData, ThemeError>(err),
            },
{
    let loader = ThemeLoader::new();
    let ghost ls = listing_views(listings@);
    let ghost fs = files@;
    let loaded = loader.load_theme(theme_name, listings, files);
    let ghost lr = loaded;
    assert(loads_as(loader.builtins(), loader.dirs(), ls, fs, theme_name@, lr));
    match loaded {
        Ok(t) => {
            let d = ThemeData::from_theme(&t);
            Ok(d)
        },
        Err(err) => Err(err),
    }
}

/// The themes the mobile app offers, sorted, each once: the built-in ones
/// and those of the listed theme directories.
pub fn list_themes(listings: &Vec<ThemeDirListing>) -> (r: Vec<String>)
    ensures
        strictly_sorted(string_views(r@)),
        exists|e: Seq<(String, Theme)>| #[trigger] standard_builtins(e) && forall|t: Seq<char>| #[trigger] string_views(
            r@,
        ).contains(t) <==> available_theme_names(e, listing_views(listings@)).contains(t),
{
    let loader = ThemeLoader::new();
    let r = loader.list_themes(listings);
    assert(standard_builtins(loader.builtins()));
    r
}

/// A response of the app's self test.
#[derive(Debug, Clone)]
pub struct TestResponse {
    pub message: String,
    pub success: bool,
}

/// The app's self test: it reports that commands work.
pub fn test_command() -> (r: TestResponse)
    ensures
        r.message@ == "Test command working"@,
        r.success,
{
    TestResponse { message: owned("Test command working"), success: true }
}

/// Sync settings as the mobile app edits them.
#[derive(Debug, Clone)]
pub struct SyncConfig {
    pub server_url: String,
    pub email: String,
    pub device_id: String,
    pub sync_enabled: bool,
    pub sync_interval: u32,
    pub encryption_enabled: bool,
}

/// Sync status as the apps show it.
#[derive(Debug, Clone)]
pub struct SyncStatus {
    pub connected: bool,
    pub last_sync: Option<String>,
    pub pending_changes: u32,
    pub error: Option<String>,
}

/// An event that makes the mobile app sync.
#[derive(Debug, Clone, Copy, PartialEq, Eq, Structural)]
pub enum MobileTriggerEvent {
    /// The server reported a change made elsewhere.
    RemoteChange,
}

/// An operation on a note for the sync bridge.
#[derive(Debug)]
pub enum NoteOperation<'a> {
    Create { title: String, note: &'a Note },
    Update { title: String, note: &'a Note },
    Delete { title: String },
}

/// The mobile app's sync settings.
#[derive(Debug, Clone)]
pub struct MobileSyncConfig {
    pub server_url: Option<String>,
    pub email: Option<String>,
    pub auth_token: Option<String>,
    pub jwt_token: Option<String>,
    /// When the login token expires, in seconds since the Unix epoch.
    pub jwt_expires_at: Option<i64>,
    pub device_id: Option<String>,
}

/// The mobile app's theme variables.
#[derive(Debug, Clone)]
pub struct MobileThemeConfig {
    pub vars: Option<Vec<(String, String)>>,
}

/// The mobile app's interface settings.
#[derive(Debug, Clone)]
pub struct MobileUiConfig {
    pub resolution_order: Option<Vec<String>>,
    pub keybind_mode: Option<String>,
    pub compact_mode: Option<bool>,
    pub leader_key: Option<String>,
    pub theme: Option<MobileThemeConfig>,
}

/// The mobile app's sync daemon settings.
#[derive(Debug, Clone)]
pub struct MobileSyncdConfig {
    pub url: Option<String>,
    pub device_id: Option<String>,
    pub database_path: Option<String>,
    pub encryption_key_path: Option<String>,
}

/// The mobile app's sync timing and limits.
#[derive(Debug, Clone)]
pub struct MobileSyncSettings {
    pub interval_seconds: u64,
    pub max_file_size: u64,
    pub exclude_patterns: Vec<String>,
}

/// Where the mobile app keeps document state.
#[derive(Debug, Clone)]
pub struct MobileStorageConfig {
    pub crdt_dir: String,
}

/// The mobile app's configuration.
#[derive(Debug, Clone)]
pub struct MobileConfig {
    pub sync: MobileSyncConfig,
    pub ui: MobileUiConfig,
    pub syncd: Option<MobileSyncdConfig>,
    pub sync_settings: Option<MobileSyncSettings>,
}

impl MobileSyncConfig {
    /// Settings with nothing set but a fresh device identifier.
    pub fn new() -> (r: Self)
        ensures
            r.server_url is None,
            r.email is None,
            r.auth_token is None,
            r.jwt_token is None,
            r.jwt_expires_at is None,
            r.device_id is Some,
    {
        MobileSyncConfig {
            server_url: None,
            email: None,
            auth_token: None,
            jwt_token: None,
            jwt_expires_at: None,
            device_id: Some(fresh_uuid()),
        }
    }

    /// Whether the login token is valid at `now` (seconds since the epoch):
    /// present, not empty, not yet expired.
    pub fn is_jwt_valid_at(&self, now: i64) -> (r: bool)
        ensures
            r == (self.jwt_token matches Some(t) && self.jwt_expires_at matches Some(e) && t@.len() > 0 && now < e),
    {
        match (&self.jwt_token, self.jwt_expires_at) {
            (Some(jwt), Some(expires_at)) => !jwt.as_str().is_empty() && now < expires_at,
            _ => false,
        }
    }

    /// Whether sync is set up: a server and a device identifier.
    pub fn is_sync_configured(&self) -> (r: bool)
        ensures
            r == (self.server_url is Some && self.device_id is Some),
    {
        self.server_url.is_some() && self.device_id.is_some()
    }

    /// Store a login token with its expiry.
    pub fn store_jwt(&mut self, token: String, expires_at: i64)
        ensures
            final(self).jwt_token == Some(token),
            final(self).jwt_expires_at == Some(expires_at),
            final(self).server_url == old(self).server_url,
            final(self).email == old(self).email,
            final(self).auth_token == old(self).auth_token,
            final(self).device_id == old(self).device_id,
    {
        self.jwt_token = Some(token);
        self.jwt_expires_at = Some(expires_at);
    }

    /// Store the email and the auth token.
    pub fn store_auth_credentials(&mut self, email: String, auth_token: String)
        ensures
            final(self).email == Some(email),
            final(self).auth_token == Some(auth_token),
            final(self).jwt_token == old(self).jwt_token,
            final(self).server_url == old(self).server_url,
            final(self).device_id == old(self).device_id,
    {
        self.email = Some(email);
        self.auth_token = Some(auth_token);
    }

    /// The stored email and auth token, for deriving the encryption key.
    pub fn get_credentials(&self) -> (r: (Option<&str>, Option<&str>))
        ensures
            opt_text(r.0) == opt_string_text(self.email),
            opt_text(r.1) == opt_string_text(self.auth_token),
    {
        (self.get_email(), self.get_auth_token())
    }

    /// The stored email address.
    pub fn get_email(&self) -> (r: Option<&str>)
        ensures
            opt_text(r) == opt_string_text(self.email),
    {
        match &self.email {
            Some(e) => Some(e.as_str()),
            None => None,
        }
    }

    /// The stored auth token.
    pub fn get_auth_token(&self) -> (r: Option<&str>)
        ensures
            opt_text(r) == opt_string_text(self.auth_token),
    {
        match &self.auth_token {
            Some(t) => Some(t.as_str()),
            None => None,
        }
    }
}

/// The text of an optional string slice.
pub open spec fn opt_text(s: Option<&str>) -> Option<Seq<char>> {
    match s {
        Some(v) => Some(v@),
        None => None,
    }
}

/// The text of an optional string.
pub open spec fn opt_string_text(s: Option<String>) -> Option<Seq<char>> {
    match s {
        Some(v) => Some(v@),
        None => None,
    }
}

impl Default for MobileConfig {
    fn default() -> (r: Self)
        ensures
            r.sync.server_url is None,
            r.sync.jwt_token is None,
            r.sync.device_id is Some,
            r.syncd is None,
            r.sync_settings matches Some(s) && s.interval_seconds == 30 && s.max_file_size == 10 * 1024 * 1024
                && s.exclude_patterns@.len() == 0,
    {
        MobileConfig {
            sync: MobileSyncConfig::new(),
            ui: MobileUiConfig::default(),
            syncd: None,
            sync_settings: Some(MobileSyncSettings::default()),
        }
    }
}

impl Default for MobileThemeConfig {
    fn default() -> (r: Self)
        ensures
            r.vars matches Some(v) && v@.len() == 0,
    {
        MobileThemeConfig { vars: Some(Vec::new()) }
    }
}

impl Default for MobileUiConfig {
    fn default() -> (r: Self)
        ensures
            r.resolution_order matches Some(o) && o@.map_values(|s: String| s@) == seq!["mobile"@, "default"@],
            r.keybind_mode matches Some(k) && k@ == "mobile"@,
            r.compact_mode == Some(true),
            r.leader_key matches Some(l) && l@ == "Escape"@,
            r.theme matches Some(t) && (t.vars matches Some(v) && v@.len() == 0),
    {
        let mut order: Vec<String> = Vec::new();
        order.push(owned("mobile"));
        order.push(owned("default"));
        assert(order@.map_values(|s: String| s@) =~= seq!["mobile"@, "default"@]);
        MobileUiConfig {
            resolution_order: Some(order),
            keybind_mode: Some(owned("mobile")),
            compact_mode: Some(true),
            leader_key: Some(owned("Escape")),
            theme: Some(MobileThemeConfig::default()),
        }
    }
}

impl Default for MobileSyncSettings {
    fn default() -> (r: Self)
        ensures
            r.interval_seconds == 30,
            r.max_file_size == 10 * 1024 * 1024,
            r.exclude_patterns@.len() == 0,
    {
        MobileSyncSettings { interval_seconds: 30, max_file_size: 10 * 1024 * 1024, exclude_patterns: Vec::new() }
    }
}

impl MobileSyncdConfig {
    /// Sync daemon settings for a server and device, with the database in
    /// the app's data directory and the given encryption key file.
    pub fn new(server_url: String, device_id: String, app_data_dir: &str, encryption_key_path: String) -> (r: Self)
        ensures
            r.url == Some(server_url),
            r.device_id == Some(device_id),
            r.database_path matches Some(p) && p@ == join_spec(app_data_dir@, "sync.db"@),
            r.encryption_key_path == Some(encryption_key_path),
    {
        MobileSyncdConfig {
            url: Some(server_url),
            device_id: Some(device_id),
            database_path: Some(join(app_data_dir, "sync.db")),
            encryption_key_path: Some(encryption_key_path),
        }
    }
}

impl MobileStorageConfig {
    /// Document state in the `crdt` directory of the app's data directory.
    pub fn in_app_dir(app_data_dir: &str) -> (r: Self)
        ensures
            r.crdt_dir@ == join_spec(app_data_dir@, "crdt"@),
    {
        MobileStorageConfig { crdt_dir: join(app_data_dir, "crdt") }
    }
}

impl MobileConfig {
    /// Whether the login token is valid at `now` (seconds since the epoch).
    pub fn is_jwt_valid_at(&self, now: i64) -> (r: bool)
        ensures
            r == (self.sync.jwt_token matches Some(t) && self.sync.jwt_expires_at matches Some(e) && t@.len() > 0
                && now < e),
    {
        self.sync.is_jwt_valid_at(now)
    }

    /// Store a login token with its expiry.
    pub fn store_jwt(&mut self, token: String, expires_at: i64)
        ensures
            final(self).sync.jwt_token == Some(token),
            final(self).sync.jwt_expires_at == Some(expires_at),
            final(self).sync.server_url == old(self).sync.server_url,
            final(self).sync.device_id == old(self).sync.device_id,
            final(self).syncd == old(self).syncd,
    {
        self.sync.store_jwt(token, expires_at)
    }

    /// The login token.
    pub fn get_jwt(&self) -> (r: Option<&String>)
        ensures
            match self.sync.jwt_token {
                Some(t) => r == Some(&t),
                None => r is None,
            },
    {
        self.sync.jwt_token.as_ref()
    }

    /// Set up sync with a server: new daemon settings, and default sync
    /// settings unless there are some.
    pub fn setup_sync(&mut self, syncd: MobileSyncdConfig)
        ensures
            final(self).syncd == Some(syncd),
            old(self).sync_settings is Some ==> final(self).sync_settings == old(self).sync_settings,
            old(self).sync_settings is None ==> (final(self).sync_settings matches Some(s) && s.interval_seconds == 30
                && s.max_file_size == 10 * 1024 * 1024 && s.exclude_patterns@.len() == 0),
            final(self).sync == old(self).sync,
            final(self).ui == old(self).ui,
    {
        self.syncd = Some(syncd);
        if self.sync_settings.is_none() {
            self.sync_settings = Some(MobileSyncSettings::default());
        }
    }

    /// Whether sync daemon settings exist.
    pub fn has_syncd(&self) -> (r: bool)
        ensures
            r == self.syncd is Some,
    {
        self.syncd.is_some()
    }
}

/// The assistant tool that lists the lists.
#[derive(Debug, Clone)]
pub struct ListListsTool {}

/// The assistant tool that adds items to a list.
#[derive(Debug, Clone)]
pub struct AddToListTool {
    /// The list to add to.
    pub list: String,
    /// The item, or several separated by commas.
    pub item: String,
}

/// The assistant tool that marks items done.
#[derive(Debug, Clone)]
pub struct MarkDoneTool {
    pub list: String,
    /// Anchor, text, `#N` index, or several separated by commas.
    pub target: String,
}

/// The assistant tool that marks items not done.
#[derive(Debug, Clone)]
pub struct MarkUndoneTool {
    pub list: String,
    /// Anchor, text, `#N` index, or several separated by commas.
    pub target: String,
}

/// The handler of the assistant protocol.
#[derive(Debug, Clone)]
pub struct MyServerHandler {}

impl MyServerHandler {
    /// The names of the tools the handler offers, in order.
    pub fn tool_names(&self) -> (r: Vec<&'static str>)
        ensures
            r@.len() == 4,
            r@[0]@ == "list_lists"@,
            r@[1]@ == "add_to_list"@,
            r@[2]@ == "mark_done"@,
            r@[3]@ == "mark_undone"@,
    {
        let mut v: Vec<&'static str> = Vec::new();
        v.push("list_lists");
        v.push("add_to_list");
        v.push("mark_done");
        v.push("mark_undone");
        v
    }
}

/// `'<a>' to list '<b>'` after a verb.
pub open spec fn quoted_pair(verb: Seq<char>, a: Seq<char>, middle: Seq<char>, b: Seq<char>) -> Seq<char> {
    verb + "'"@ + a + "'"@ + middle + "'"@ + b + "'"@
}

fn quote_pair(verb: &str, a: &str, middle: &str, b: &str) -> (r: String)
    ensures
        r@ == quoted_pair(verb@, a@, middle@, b@),
{
    let mut s = owned(verb);
    s.append("'");
    s.append(a);
    s.append("'");
    s.append(middle);
    s.append("'");
    s.append(b);
    s.append("'");
    s
}

impl AddToListTool {
    /// The answer after adding: `Added '<item>' to list '<list>'`.
    pub fn success_text(&self) -> (r: String)
        ensures
            r@ == quoted_pair("Added "@, self.item@, " to list "@, self.list@),
    {
        quote_pair("Added ", self.item.as_str(), " to list ", self.list.as_str())
    }
}

impl MarkDoneTool {
    /// The answer after marking: `Marked '<target>' as done in list '<list>'`.
    pub fn success_text(&self) -> (r: String)
        ensures
            r@ == quoted_pair("Marked "@, self.target@, " as done in list "@, self.list@),
    {
        quote_pair("Marked ", self.target.as_str(), " as done in list ", self.list.as_str())
    }
}

impl MarkUndoneTool {
    /// The answer after marking: `Marked '<target>' as undone in list
    /// '<list>'`.
    pub fn success_text(&self) -> (r: String)
        ensures
            r@ == quoted_pair("Marked "@, self.target@, " as undone in list "@, self.list@),
    {
        quote_pair("Marked ", self.target.as_str(), " as undone in list ", self.list.as_str())
    }
}

/// `serde_json::to_string` of a list of strings.
pub uninterp spec fn json_string_array(items: Seq<Seq<char>>) -> Seq<char>;

/// `serde_json::to_string(items)`: the strings as a JSON array. Writing
/// strings into a string does not fail.
#[verifier::external_body]
fn to_json_array(items: &Vec<String>) -> (r: Option<String>)
    ensures
        r is Some,
        r matches Some(s) ==> s@ == json_string_array(items@.map_values(|i: String| i@)),
{
    serde_json::to_string(items).ok()
}

impl ListListsTool {
    /// The answer for the names of the lists: `No lists found.` when there
    /// are none, else the names as a JSON array.
    pub fn answer(&self, lists: &Vec<String>) -> (r: Option<String>)
        ensures
            lists@.len() == 0 ==> (r matches Some(s) && s@ == "No lists found."@),
            lists@.len() > 0 ==> (r matches Some(s) && s@ == json_string_array(lists@.map_values(|i: String| i@))),
    {
        if lists.len() == 0 {
            return Some(owned("No lists found."));
        }
        to_json_array(lists)
    }
}

} // verus!
