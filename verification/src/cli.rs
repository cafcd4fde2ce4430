//! The commands of the command line tool, as plain values, and the rule for
//! the server address given to `sync setup`.

use vstd::prelude::*;

use crate::edit::parse_usize;
use crate::list::occurs_in;
use crate::syncd::parsed_u16;
use crate::text::{chars_of, contains_char, owned, split_at_char, split_chars, string_of};

verus! {

broadcast use vstd::string::group_string_axioms;

/// The command line: a command, and whether output is JSON.
#[derive(Debug, Clone)]
pub struct Cli {
    pub command: Commands,
    pub json: bool,
}

/// The commands of the command line tool.
#[derive(Debug, Clone)]
pub enum Commands {
    /// `ls`: list the lists, or show one.
    ListLists { list: Option<String> },
    /// `new`: create a list and open it.
    New { list: String },
    /// `add`: add items to a list.
    Add { list: String, text: String },
    /// `open`: open a list in the editor.
    Open { list: String },
    /// `done`: mark items done.
    Done { list: String, target: String },
    /// `undone`: mark items not done.
    Undone { list: String, target: String },
    /// `rm`: remove items.
    Rm { list: String, target: String },
    /// `pipe`: add the lines of standard input.
    Pipe { list: String },
    /// `note`: note commands.
    Note(NoteCommands),
    /// `img`: image commands.
    Image(ImageCommands),
    /// `dl`: the daily list.
    Dl { cmd: Option<DlCmd> },
    /// `dn`: the daily note.
    Dn,
    /// `sync`: sync daemon commands.
    Sync(SyncCommands),
    /// `share`: set who may write and read a document.
    Share { document: String, writers: Option<String>, readers: Option<String> },
    /// `unshare`: remove sharing from a document.
    Unshare { document: String },
    /// `themes`: theme commands.
    Themes(ThemeCommands),
}

/// Theme commands.
#[derive(Debug, Clone)]
pub enum ThemeCommands {
    /// List the available themes.
    List { verbose: bool },
    /// Show a theme.
    Info { theme: String },
}

/// Note commands.
#[derive(Debug, Clone)]
pub enum NoteCommands {
    New { title: String },
    Add { title: String, text: String },
    Open { title: String },
    Remove { title: String },
    ListNotes {},
}

/// Image commands.
#[derive(Debug, Clone)]
pub enum ImageCommands {
    Add { file: String, to: String, caption: Option<String> },
    Paste { to: Option<String>, caption: Option<String>, clipboard: bool },
    List { document: String },
    Remove { document: String, hash: String },
}

/// Daily list commands.
#[derive(Debug, Clone)]
pub enum DlCmd {
    Add { item: String },
    Done { item: String },
    Undone { item: String },
    List,
    Remove { item: String },
}

/// Sync daemon commands.
#[derive(Debug, Clone)]
pub enum SyncCommands {
    Start { foreground: bool },
    Stop,
    Status,
    Setup { server: Option<String>, token: Option<String> },
    Logs { follow: bool, lines: usize },
    Ping,
}

/// The server URL that `sync setup` stores for what the user typed:
/// nothing for empty input (local only), a full URL as it is, `host:port`
/// as `ws://host:port/api/sync`, and anything else as it is.
pub open spec fn setup_server_url(input: Seq<char>) -> Option<Seq<char>> {
    if input.len() == 0 {
        None
    } else if occurs_in(input, "://"@) {
        Some(input)
    } else {
        let parts = split_at_char(input, ':');
        if parts.len() == 2 {
            Some("ws://"@ + parts[0] + ":"@ + parts[1] + "/api/sync"@)
        } else {
            Some(input)
        }
    }
}

/// The server URL that `sync setup` stores for what the user typed.
pub fn sync_server_url(input: &str) -> (r: Option<String>)
    ensures
        match setup_server_url(input@) {
            Some(u) => r matches Some(s) && s@ == u,
            None => r is None,
        },
{
    let cs = chars_of(input);
    if cs.len() == 0 {
        return None;
    }
    if crate::list::contains_chars(&cs, &chars_of("://")) {
        return Some(owned(input));
    }
    let parts = split_chars(&cs, ':');
    assert(parts@.map_values(|p: Vec<char>| p@).len() == parts@.len());
    if parts.len() == 2 {
        assert(parts@.map_values(|p: Vec<char>| p@)[0] == parts@[0]@);
        assert(parts@.map_values(|p: Vec<char>| p@)[1] == parts@[1]@);
        let mut s = owned("ws://");
        s.append(string_of(&parts[0]).as_str());
        s.append(":");
        s.append(string_of(&parts[1]).as_str());
        s.append("/api/sync");
        Some(s)
    } else {
        Some(owned(input))
    }
}


/// `url`'s `Url::parse` of `s`: its scheme, host and port, when it parses.
pub uninterp spec fn parsed_url(s: Seq<char>) -> Option<(Seq<char>, Option<Seq<char>>, Option<u16>)>;

/// `Url::parse(s)`, as its scheme, `host_str()` and `port()`.
#[verifier::external_body]
fn parse_url(s: &str) -> (r: Option<(String, Option<String>, Option<u16>)>)
    ensures
        match parsed_url(s@) {
            Some((scheme, host, port)) => r matches Some((a, b, c)) && a@ == scheme && c == port && match host {
                Some(h) => b matches Some(x) && x@ == h,
                None => b is None,
            },
            None => r is None,
        },
{
    let u = url::Url::parse(s).ok()?;
    Some((u.scheme().to_owned(), u.host_str().map(|h| h.to_owned()), u.port()))
}

/// Why a server address could not be read.
#[derive(Debug, Clone, Copy, PartialEq, Eq, Structural)]
pub enum ServerAddressError {
    /// The URL has no host.
    InvalidHost,
    /// The port of `host:port` is not a number from 0 to 65535.
    InvalidPort,
    /// Neither a URL nor `host:port`.
    InvalidFormat,
}

/// The host and port of an address written `host:port`, the port a number
/// from 0 to 65535.
pub open spec fn host_port_address(s: Seq<char>) -> Result<(Seq<char>, u16), ServerAddressError> {
    if exists|i: int| 0 <= i < s.len() && s[i] == ':' {
        let parts = split_at_char(s, ':');
        if parts.len() == 2 {
            match parsed_u16(parts[1]) {
                Some(p) => Ok((parts[0], p as u16)),
                None => Err(ServerAddressError::InvalidPort),
            }
        } else {
            Err(ServerAddressError::InvalidFormat)
        }
    } else {
        Err(ServerAddressError::InvalidFormat)
    }
}

/// The host and port a server address names: from a URL with a host (port
/// 443 for `https` and 80 otherwise when it has none), else from
/// `host:port`. A `host:port` address such as `localhost:5673` also reads
/// as a URL whose scheme is the host and which has no host; it is taken as
/// `host:port` where that reading succeeds, and refused for its missing
/// host otherwise.
pub open spec fn server_address(s: Seq<char>) -> Result<(Seq<char>, u16), ServerAddressError> {
    match parsed_url(s) {
        Some((scheme, host, port)) => match host {
            Some(h) => Ok((
                h,
                match port {
                    Some(p) => p,
                    None => if scheme == "https"@ {
                        443u16
                    } else {
                        80u16
                    },
                },
            )),
            None => match host_port_address(s) {
                Ok(a) => Ok(a),
                Err(_) => Err(ServerAddressError::InvalidHost),
            },
        },
        None => host_port_address(s),
    }
}

/// Read a `host:port` address.
fn parse_host_port(server_url: &str) -> (r: Result<(String, u16), ServerAddressError>)
    ensures
        match host_port_address(server_url@) {
            Ok((h, p)) => r matches Ok((a, b)) && a@ == h && b == p,
            Err(e) => r == Err::<(String, u16), ServerAddressError>(e),
        },
{
    let cs = chars_of(server_url);
    if !contains_char(&cs, ':') {
        return Err(ServerAddressError::InvalidFormat);
    }
    let parts = split_chars(&cs, ':');
    assert(parts@.map_values(|p: Vec<char>| p@).len() == parts@.len());
    if parts.len() != 2 {
        return Err(ServerAddressError::InvalidFormat);
    }
    assert(parts@.map_values(|p: Vec<char>| p@)[0] == parts@[0]@);
    assert(parts@.map_values(|p: Vec<char>| p@)[1] == parts@[1]@);
    match parse_usize(&parts[1]) {
        Some(n) => if n <= 65535 {
            Ok((string_of(&parts[0]), n as u16))
        } else {
            Err(ServerAddressError::InvalidPort)
        },
        None => Err(ServerAddressError::InvalidPort),
    }
}

/// Read the host and port of a server address, for authentication.
pub fn parse_server_config(server_url: &str) -> (r: Result<(String, u16), ServerAddressError>)
    ensures
        match server_address(server_url@) {
            Ok((h, p)) => r matches Ok((a, b)) && a@ == h && b == p,
            Err(e) => r == Err::<(String, u16), ServerAddressError>(e),
        },
{
    proof {
        reveal_strlit("https");
    }
    match parse_url(server_url) {
        Some((scheme, host, port)) => match host {
            Some(h) => {
                let p = match port {
                    Some(p) => p,
                    None => if crate::text::str_eq(scheme.as_str(), "https") {
                        443
                    } else {
                        80
                    },
                };
                Ok((h, p))
            },
            None => match parse_host_port(server_url) {
                Ok(a) => Ok(a),
                Err(_) => Err(ServerAddressError::InvalidHost),
            },
        },
        None => parse_host_port(server_url),
    }
}

} // verus!
