//! The sync server's settings: where it listens, how it mails login links,
//! and where its databases live.

use vstd::prelude::*;

use crate::paths::{is_absolute, is_absolute_spec, join, join_spec};
use crate::places::home_dir;
use crate::text::{chars_of, owned, slice_chars, string_of};

verus! {

broadcast use vstd::string::group_string_axioms;

/// Server configuration.
#[derive(Debug, Clone)]
pub struct Settings {
    pub server: ServerSettings,
    /// SMTP settings; without them, login links are printed.
    pub email: Option<EmailSettings>,
    pub paths: PathsSettings,
    pub database: DatabaseSettings,
}

/// Network settings for the HTTP server.
#[derive(Debug, Clone)]
pub struct ServerSettings {
    /// Host or interface to bind to, such as `127.0.0.1`.
    pub host: String,
    /// Port to listen on.
    pub port: u16,
}

/// SMTP relay settings for sending login emails.
#[derive(Debug, Clone)]
pub struct EmailSettings {
    pub smtp_host: String,
    pub smtp_user: String,
    pub smtp_pass: String,
    pub sender: String,
}

/// Path settings shared with the command line tool.
#[derive(Debug, Clone)]
pub struct PathsSettings {
    /// Root path for content files.
    pub content_dir: Option<String>,
    /// Document kinds, such as `lists` and `notes`.
    pub kinds: Option<Vec<String>>,
    /// Subdirectory for media files under the content root.
    pub media_dir: Option<String>,
}

/// Where the server's databases are stored.
#[derive(Debug, Clone)]
pub struct DatabaseSettings {
    /// Directory of the databases (`~/` stands for the home directory).
    pub data_dir: String,
    /// Tokens database file, relative to `data_dir` unless absolute.
    pub tokens_db: String,
    /// Content database file, relative to `data_dir` unless absolute.
    pub content_db: String,
    /// Sync database file, relative to `data_dir` unless absolute.
    pub sync_db: String,
}

/// The default host: `127.0.0.1`.
pub fn default_host() -> (r: String)
    ensures
        r@ == "127.0.0.1"@,
{
    owned("127.0.0.1")
}

/// The default port.
pub fn default_port() -> (r: u16)
    ensures
        r == 5673,
{
    5673
}

/// The default database directory.
pub fn default_database_dir() -> (r: String)
    ensures
        r@ == "~/.local/share/lst/lst_server_data"@,
{
    owned("~/.local/share/lst/lst_server_data")
}

/// The default tokens database file.
pub fn default_tokens_db() -> (r: String)
    ensures
        r@ == "tokens.db"@,
{
    owned("tokens.db")
}

/// The default content database file.
pub fn default_content_db() -> (r: String)
    ensures
        r@ == "content.db"@,
{
    owned("content.db")
}

/// The default sync database file.
pub fn default_sync_db() -> (r: String)
    ensures
        r@ == "sync.db"@,
{
    owned("sync.db")
}

impl Default for ServerSettings {
    fn default() -> (r: Self)
        ensures
            r.host@ == "127.0.0.1"@,
            r.port == 5673,
    {
        ServerSettings { host: default_host(), port: default_port() }
    }
}

impl Default for PathsSettings {
    fn default() -> (r: Self)
        ensures
            r.content_dir is None,
            r.kinds is None,
            r.media_dir is None,
    {
        PathsSettings { content_dir: None, kinds: None, media_dir: None }
    }
}

impl Default for DatabaseSettings {
    fn default() -> (r: Self)
        ensures
            r.data_dir@ == "~/.local/share/lst/lst_server_data"@,
            r.tokens_db@ == "tokens.db"@,
            r.content_db@ == "content.db"@,
            r.sync_db@ == "sync.db"@,
    {
        DatabaseSettings {
            data_dir: default_database_dir(),
            tokens_db: default_tokens_db(),
            content_db: default_content_db(),
            sync_db: default_sync_db(),
        }
    }
}

impl Default for Settings {
    fn default() -> (r: Self)
        ensures
            r.server.host@ == "127.0.0.1"@,
            r.server.port == 5673,
            r.email is None,
            r.paths.content_dir is None,
            r.paths.kinds is None,
            r.paths.media_dir is None,
            r.database.data_dir@ == "~/.local/share/lst/lst_server_data"@,
            r.database.tokens_db@ == "tokens.db"@,
            r.database.content_db@ == "content.db"@,
            r.database.sync_db@ == "sync.db"@,
    {
        Settings {
            server: ServerSettings::default(),
            email: None,
            paths: PathsSettings::default(),
            database: DatabaseSettings::default(),
        }
    }
}

/// The environment variable that an SMTP password of the form `${VAR}`
/// names.
pub open spec fn password_variable(pass: Seq<char>) -> Option<Seq<char>> {
    if pass.len() >= 2 && pass[0] == '$' && pass[1] == '{' && pass.len() >= 1 && pass.last() == '}'
        && pass.len() >= 3 {
        Some(pass.subrange(2, pass.len() - 1))
    } else {
        None
    }
}

/// The environment variable that an SMTP password of the form `${VAR}`
/// names, if it has that form.
pub fn smtp_pass_variable(pass: &str) -> (r: Option<String>)
    ensures
        match password_variable(pass@) {
            Some(v) => r matches Some(s) && s@ == v,
            None => r is None,
        },
{
    let cs = chars_of(pass);
    if cs.len() >= 3 && cs[0] == '$' && cs[1] == '{' && cs[cs.len() - 1] == '}' {
        let inner = slice_chars(&cs, 2, cs.len() - 1);
        Some(string_of(&inner))
    } else {
        None
    }
}

/// Why a database path could not be found.
#[derive(Debug, Clone, Copy, PartialEq, Eq, Structural)]
pub enum PathError {
    /// The home directory could not be determined.
    NoHomeDirectory,
}

/// The data directory for a home directory: `~/` at its start stands for
/// `home`; `None` when it would be needed but is unknown.
pub open spec fn data_dir_in(data_dir: Seq<char>, home: Option<Seq<char>>) -> Option<Seq<char>> {
    if data_dir.len() >= 2 && data_dir[0] == '~' && data_dir[1] == '/' {
        match home {
            Some(h) => Some(join_spec(h, data_dir.subrange(2, data_dir.len() as int))),
            None => None,
        }
    } else {
        Some(data_dir)
    }
}

/// A database file's path: itself when absolute, else under the data
/// directory.
pub open spec fn db_path_in(data_dir: Seq<char>, file: Seq<char>, home: Option<Seq<char>>) -> Option<Seq<char>> {
    match data_dir_in(data_dir, home) {
        Some(base) => if is_absolute_spec(file) {
            Some(file)
        } else {
            Some(join_spec(base, file))
        },
        None => None,
    }
}

impl DatabaseSettings {
    /// Whether the data directory starts with `~/`.
    pub open spec fn needs_home(&self) -> bool {
        self.data_dir@.len() >= 2 && self.data_dir@[0] == '~' && self.data_dir@[1] == '/'
    }

    /// The data directory, given the home directory.
    pub fn data_dir_with_home(&self, home: Option<&str>) -> (r: Result<String, PathError>)
        ensures
            match data_dir_in(self.data_dir@, match home { Some(h) => Some(h@), None => None }) {
                Some(p) => r matches Ok(s) && s@ == p,
                None => r == Err::<String, PathError>(PathError::NoHomeDirectory),
            },
    {
        let cs = chars_of(self.data_dir.as_str());
        if cs.len() >= 2 && cs[0] == '~' && cs[1] == '/' {
            match home {
                Some(h) => {
                    let rest = slice_chars(&cs, 2, cs.len());
                    let rs = string_of(&rest);
                    Ok(join(h, rs.as_str()))
                },
                None => Err(PathError::NoHomeDirectory),
            }
        } else {
            Ok(self.data_dir.clone())
        }
    }

    /// The path of a database file, given the home directory.
    pub fn db_path_with_home(&self, file: &str, home: Option<&str>) -> (r: Result<String, PathError>)
        ensures
            match db_path_in(self.data_dir@, file@, match home { Some(h) => Some(h@), None => None }) {
                Some(p) => r matches Ok(s) && s@ == p,
                None => r == Err::<String, PathError>(PathError::NoHomeDirectory),
            },
    {
        let base = self.data_dir_with_home(home)?;
        if is_absolute(file) {
            Ok(owned(file))
        } else {
            Ok(join(base.as_str(), file))
        }
    }

    /// Resolve the data directory, expanding `~/` to the home directory.
    pub fn resolve_data_dir(&self) -> (r: Result<String, PathError>)
        ensures
            !self.needs_home() ==> (r matches Ok(s) && s@ == self.data_dir@),
            self.needs_home() ==> match r {
                Ok(s) => exists|h: Seq<char>| s@ == join_spec(h, self.data_dir@.subrange(2, self.data_dir@.len() as int)),
                Err(e) => e == PathError::NoHomeDirectory,
            },
    {
        let home = home_dir();
        let r = match &home {
            Some(h) => self.data_dir_with_home(Some(h.as_str())),
            None => self.data_dir_with_home(None),
        };
        proof {
            if self.needs_home() && r is Ok {
                let h = home->0@;
                assert(r->Ok_0@ == join_spec(h, self.data_dir@.subrange(2, self.data_dir@.len() as int)));
            }
        }
        r
    }

    fn db_path(&self, file: &str) -> (r: Result<String, PathError>)
        ensures
            r matches Ok(s) ==> exists|h: Option<Seq<char>>| db_path_in(self.data_dir@, file@, h) == Some(s@),
            !self.needs_home() ==> match db_path_in(self.data_dir@, file@, None) {
                Some(p) => r matches Ok(s) && s@ == p,
                None => false,
            },
            r is Err ==> self.needs_home(),
    {
        let home = home_dir();
        let r = match &home {
            Some(h) => self.db_path_with_home(file, Some(h.as_str())),
            None => self.db_path_with_home(file, None),
        };
        proof {
            let hv = match home {
                Some(h) => Some(h@),
                None => None,
            };
            if r is Ok {
                assert(db_path_in(self.data_dir@, file@, hv) == Some(r->Ok_0@));
            }
        }
        r
    }

    /// The full path of the tokens database.
    pub fn tokens_db_path(&self) -> (r: Result<String, PathError>)
        ensures
            r matches Ok(s) ==> exists|h: Option<Seq<char>>| db_path_in(self.data_dir@, self.tokens_db@, h) == Some(s@),
            !self.needs_home() ==> (r matches Ok(s) && Some(s@) == db_path_in(self.data_dir@, self.tokens_db@, None)),
            r is Err ==> self.needs_home(),
    {
        self.db_path(self.tokens_db.as_str())
    }

    /// The full path of the content database.
    pub fn content_db_path(&self) -> (r: Result<String, PathError>)
        ensures
            r matches Ok(s) ==> exists|h: Option<Seq<char>>| db_path_in(self.data_dir@, self.content_db@, h) == Some(s@),
            !self.needs_home() ==> (r matches Ok(s) && Some(s@) == db_path_in(self.data_dir@, self.content_db@, None)),
            r is Err ==> self.needs_home(),
    {
        self.db_path(self.content_db.as_str())
    }

    /// The full path of the sync database.
    pub fn sync_db_path(&self) -> (r: Result<String, PathError>)
        ensures
            r matches Ok(s) ==> exists|h: Option<Seq<char>>| db_path_in(self.data_dir@, self.sync_db@, h) == Some(s@),
            !self.needs_home() ==> (r matches Ok(s) && Some(s@) == db_path_in(self.data_dir@, self.sync_db@, None)),
            r is Err ==> self.needs_home(),
    {
        self.db_path(self.sync_db.as_str())
    }
}

} // verus!
