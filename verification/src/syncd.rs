//! The decisions of the sync daemons: which file events to act on, which
//! document a file is, when a file's content needs syncing, how a session
//! with the server proceeds, and when to sync again. The daemons perform the
//! file, database and network work that these decisions call for.

use vstd::prelude::*;

use crate::crypto::{decrypt, decryption, sha256, sha256_of};
use crate::edit::parsed_usize;
use crate::list::{contains_chars, occurs_in};
use crate::lines::{lines_of, split_lines};
use crate::paths::{join, join_spec};
use crate::sync::{kind_of_path, path_from_relative, CanonicalDocPath, DocumentKind};
use crate::text::byte_len;
use crate::text::{
    chars_of, decimal, decimal_chars, find_from, has_suffix, next_occurrence, owned,
    slice_chars, split_at_char, split_chars, str_eq, string_of, trim_char, trim_chars, trim_matching, trim_spec,
};

verus! {

broadcast use vstd::string::group_string_axioms;

/// Why a file event is left alone.
#[derive(Debug, Clone, Copy, PartialEq, Eq, Structural)]
pub enum SkipReason {
    /// The daemon itself just wrote the file.
    RecentlySynced,
    /// The file lies in a cloud storage folder.
    CloudStorage,
    /// The path is a directory.
    Directory,
    /// A hidden, temporary or swap file.
    IgnoredFile,
}

/// What to do with one path of a file event.
#[derive(Debug, Clone, Copy, PartialEq, Eq, Structural)]
pub enum PathDecision {
    Skip(SkipReason),
    /// The file was removed: forget its document.
    Delete,
    /// Read the file and update its document.
    Process,
}

/// Whether a path lies in a cloud storage folder.
pub open spec fn cloud_path(p: Seq<char>) -> bool {
    ||| occurs_in(p, "OneDrive"@)
    ||| occurs_in(p, "GoogleDrive"@)
    ||| occurs_in(p, "Dropbox"@)
    ||| occurs_in(p, "iCloud"@)
    ||| occurs_in(p, ".cloud"@)
}

/// Whether a file name is hidden, temporary or a swap file.
pub open spec fn ignored_name(name: Seq<char>) -> bool {
    (name.len() > 0 && name[0] == '.') || has_suffix(name, ".tmp"@) || has_suffix(name, ".swp"@)
}

/// `std::path::Path::file_name` on the path `p`.
pub uninterp spec fn path_file_name(p: Seq<char>) -> Option<Seq<char>>;

/// `Path::new(p).file_name()`, as text: the last component, if the path
/// has one.
#[verifier::external_body]
pub(crate) fn file_name_of(p: &str) -> (r: Option<String>)
    ensures
        match path_file_name(p@) {
            Some(n) => r matches Some(v) && v@ == n,
            None => r is None,
        },
{
    std::path::Path::new(p).file_name().map(|n| n.to_string_lossy().into_owned())
}

/// The decision for one path of a file event.
pub open spec fn path_decision(full_path: Seq<char>, recently_synced: bool, is_dir: bool, is_remove: bool) -> PathDecision {
    if recently_synced {
        PathDecision::Skip(SkipReason::RecentlySynced)
    } else if cloud_path(full_path) {
        PathDecision::Skip(SkipReason::CloudStorage)
    } else if is_dir {
        PathDecision::Skip(SkipReason::Directory)
    } else if path_file_name(full_path) matches Some(n) && ignored_name(n) {
        PathDecision::Skip(SkipReason::IgnoredFile)
    } else if is_remove {
        PathDecision::Delete
    } else {
        PathDecision::Process
    }
}

/// Which paths the daemon syncs. Its own recent writes are skipped; so is
/// anything whose path names a OneDrive, GoogleDrive, Dropbox or iCloud
/// folder or holds `.cloud`; then directories; then hidden files (a name
/// starting with `.`) and `.tmp` and `.swp` files; any other path is deleted
/// on a removal and processed otherwise.
pub proof fn lemma_path_decisions(p: Seq<char>, recently_synced: bool, is_dir: bool, is_remove: bool)
    ensures
        recently_synced ==> path_decision(p, recently_synced, is_dir, is_remove) == PathDecision::Skip(
            SkipReason::RecentlySynced,
        ),
        !recently_synced && (occurs_in(p, "OneDrive"@) || occurs_in(p, "GoogleDrive"@) || occurs_in(p, "Dropbox"@)
            || occurs_in(p, "iCloud"@) || occurs_in(p, ".cloud"@)) ==> path_decision(p, recently_synced, is_dir, is_remove)
            == PathDecision::Skip(SkipReason::CloudStorage),
        !recently_synced && !occurs_in(p, "OneDrive"@) && !occurs_in(p, "GoogleDrive"@) && !occurs_in(p, "Dropbox"@)
            && !occurs_in(p, "iCloud"@) && !occurs_in(p, ".cloud"@) ==> {
            let d = path_decision(p, recently_synced, is_dir, is_remove);
            &&& is_dir ==> d == PathDecision::Skip(SkipReason::Directory)
            &&& !is_dir && (path_file_name(p) matches Some(n) && ((n.len() > 0 && n[0] == '.') || has_suffix(
                n,
                ".tmp"@,
            ) || has_suffix(n, ".swp"@))) ==> d == PathDecision::Skip(SkipReason::IgnoredFile)
            &&& !is_dir && !(path_file_name(p) matches Some(n) && ((n.len() > 0 && n[0] == '.') || has_suffix(
                n,
                ".tmp"@,
            ) || has_suffix(n, ".swp"@))) ==> d == (if is_remove {
                PathDecision::Delete
            } else {
                PathDecision::Process
            })
        },
{
}

fn contains_text(hay: &Vec<char>, needle: &str) -> (r: bool)
    ensures
        r == occurs_in(hay@, needle@),
{
    let n = chars_of(needle);
    contains_chars(hay, &n)
}

/// Whether a file name is hidden, temporary or a swap file.
pub fn is_ignored_name(name: &str) -> (r: bool)
    ensures
        r == ignored_name(name@),
{
    let cs = chars_of(name);
    (cs.len() > 0 && cs[0] == '.') || crate::text::ends_with(&cs, &chars_of(".tmp")) || crate::text::ends_with(
        &cs,
        &chars_of(".swp"),
    )
}

/// Decide what to do with one path of a file event: the daemon's own
/// writes, cloud folders, directories and hidden or temporary files are
/// skipped; a removal deletes the document; anything else is processed.
pub fn file_event_decision(full_path: &str, recently_synced: bool, is_dir: bool, is_remove: bool) -> (r: PathDecision)
    ensures
        r == path_decision(full_path@, recently_synced, is_dir, is_remove),
{
    if recently_synced {
        return PathDecision::Skip(SkipReason::RecentlySynced);
    }
    let cs = chars_of(full_path);
    if contains_text(&cs, "OneDrive") || contains_text(&cs, "GoogleDrive") || contains_text(&cs, "Dropbox")
        || contains_text(&cs, "iCloud") || contains_text(&cs, ".cloud") {
        return PathDecision::Skip(SkipReason::CloudStorage);
    }
    if is_dir {
        return PathDecision::Skip(SkipReason::Directory);
    }
    if let Some(name) = file_name_of(full_path) {
        if is_ignored_name(name.as_str()) {
            return PathDecision::Skip(SkipReason::IgnoredFile);
        }
    }
    if is_remove {
        PathDecision::Delete
    } else {
        PathDecision::Process
    }
}

/// The document a file is: the one stored for its full path, else the one
/// stored for its relative path, else the identifier derived from its path.
pub fn choose_doc_id(by_full_path: Option<String>, by_relative_path: Option<String>, derived: String) -> (r: String)
    ensures
        match by_full_path {
            Some(d) => r == d,
            None => match by_relative_path {
                Some(d) => r == d,
                None => r == derived,
            },
        },
{
    match by_full_path {
        Some(d) => d,
        None => match by_relative_path {
            Some(d) => d,
            None => derived,
        },
    }
}

/// The owner of a new document: the device, or `local` without one.
pub fn document_owner(device_id: Option<&str>) -> (r: String)
    ensures
        match device_id {
            Some(d) => r@ == d@,
            None => r@ == "local"@,
        },
{
    match device_id {
        Some(d) => owned(d),
        None => owned("local"),
    }
}

/// What to do with a file's new content.
#[derive(Debug, Clone, Copy, PartialEq, Eq, Structural)]
pub enum ChangeDecision {
    /// Larger than the sync limit: left alone.
    TooLarge,
    /// The same content as stored: nothing to do.
    Unchanged,
    /// Update the stored document.
    UpdateExisting,
    /// Create a new document.
    CreateNew,
}

/// The decision for a file's content of `len` bytes with hash `hash`.
pub open spec fn change_decision_spec(len: u64, max_file_size: Option<u64>, stored_hash: Option<Seq<char>>, hash: Seq<char>) -> ChangeDecision {
    if max_file_size matches Some(m) && len > m {
        ChangeDecision::TooLarge
    } else {
        match stored_hash {
            Some(h) => if h == hash {
                ChangeDecision::Unchanged
            } else {
                ChangeDecision::UpdateExisting
            },
            None => ChangeDecision::CreateNew,
        }
    }
}

/// What the daemon does with a file's content: a file over the size limit
/// is too large; otherwise it is unchanged exactly when the stored hash is
/// its hash, an update of the stored document when a different hash is
/// stored, and a new document when none is.
pub proof fn lemma_change_decisions(len: u64, max_file_size: Option<u64>, stored_hash: Option<Seq<char>>, hash: Seq<char>)
    ensures
        (max_file_size matches Some(m) && len > m) ==> change_decision_spec(len, max_file_size, stored_hash, hash)
            == ChangeDecision::TooLarge,
        !(max_file_size matches Some(m) && len > m) ==> {
            let d = change_decision_spec(len, max_file_size, stored_hash, hash);
            &&& d == ChangeDecision::Unchanged <==> stored_hash == Some(hash)
            &&& stored_hash is None ==> d == ChangeDecision::CreateNew
            &&& (stored_hash matches Some(h) && h != hash) ==> d == ChangeDecision::UpdateExisting
        },
{
}

/// Decide what to do with a file's content: too large for sync, the same
/// as stored, a change to a stored document, or a new document.
pub fn change_decision(len: u64, max_file_size: Option<u64>, stored_hash: Option<&str>, hash: &str) -> (r: ChangeDecision)
    ensures
        r == change_decision_spec(
            len,
            max_file_size,
            match stored_hash {
                Some(h) => Some(h@),
                None => None,
            },
            hash@,
        ),
{
    if let Some(m) = max_file_size {
        if len > m {
            return ChangeDecision::TooLarge;
        }
    }
    match stored_hash {
        Some(h) => if str_eq(h, hash) {
            ChangeDecision::Unchanged
        } else {
            ChangeDecision::UpdateExisting
        },
        None => ChangeDecision::CreateNew,
    }
}

/// The lower-case hexadecimal digit of a number below sixteen.
pub open spec fn lower_hex_digit(d: int) -> char {
    if d < 10 {
        (48 + d) as char
    } else {
        (87 + d) as char
    }
}

/// Bytes as text: each byte as two lower-case hexadecimal digits.
pub open spec fn hex_text(bytes: Seq<u8>) -> Seq<char>
    decreases bytes.len(),
{
    if bytes.len() == 0 {
        Seq::empty()
    } else {
        hex_text(bytes.drop_last()) + seq![lower_hex_digit(bytes.last() as int / 16), lower_hex_digit(bytes.last() as int % 16)]
    }
}

/// The hexadecimal digits are `0` .. `9` then `a` .. `f`.
pub proof fn lemma_lower_hex_digits()
    ensures
        forall|d: int| 0 <= d < 16 ==> #[trigger] lower_hex_digit(d) == "0123456789abcdef"@[d],
{
    reveal_strlit("0123456789abcdef");
}

/// Bytes as hexadecimal text take two digits per byte, in order: the high
/// half of byte `i` at position `2 i` and its low half at `2 i + 1`.
pub proof fn lemma_hex_text(bytes: Seq<u8>)
    ensures
        hex_text(bytes).len() == 2 * bytes.len(),
        forall|i: int|
            0 <= i < bytes.len() ==> #[trigger] hex_text(bytes)[2 * i] == lower_hex_digit(bytes[i] as int / 16)
                && hex_text(bytes)[2 * i + 1] == lower_hex_digit(bytes[i] as int % 16),
    decreases bytes.len(),
{
    if bytes.len() > 0 {
        let front = bytes.drop_last();
        lemma_hex_text(front);
        assert forall|i: int| 0 <= i < bytes.len() implies #[trigger] hex_text(bytes)[2 * i] == lower_hex_digit(
            bytes[i] as int / 16,
        ) && hex_text(bytes)[2 * i + 1] == lower_hex_digit(bytes[i] as int % 16) by {
            if i < front.len() {
                assert(bytes[i] == front[i]);
                assert(hex_text(front)[2 * i] == lower_hex_digit(front[i] as int / 16));
            }
        }
    }
}

/// `hex::encode(data)`: each byte as two lower-case hexadecimal digits.
#[verifier::external_body]
fn hex_encode(data: &[u8]) -> (r: String)
    ensures
        r@ == hex_text(data@),
{
    hex::encode(data)
}

/// The hash by which the daemon tells whether a file changed: the SHA-256
/// digest of its bytes in hexadecimal.
pub fn content_hash(data: &[u8]) -> (r: String)
    ensures
        r@ == hex_text(sha256_of(data@)),
{
    let digest = sha256(data);
    hex_encode(digest.as_slice())
}

/// Decide what to do with a file's bytes: too large for sync, or else, by
/// their hash, the same as stored, a change to a stored document, or a new
/// document. With the decision comes the hash, empty for a file too large
/// to be hashed.
pub fn data_change_decision(data: &[u8], max_file_size: Option<u64>, stored_hash: Option<&str>) -> (r: (ChangeDecision, String))
    ensures
        max_file_size matches Some(m) && data@.len() > m ==> r.0 == ChangeDecision::TooLarge && r.1@.len() == 0,
        !(max_file_size matches Some(m) && data@.len() > m) ==> r.1@ == hex_text(sha256_of(data@)) && r.0
            == change_decision_spec(
            data@.len() as u64,
            max_file_size,
            match stored_hash {
                Some(h) => Some(h@),
                None => None,
            },
            r.1@,
        ),
{
    let len = data.len() as u64;
    if let Some(m) = max_file_size {
        if len > m {
            return (ChangeDecision::TooLarge, String::new());
        }
    }
    let hash = content_hash(data);
    let d = change_decision(len, max_file_size, stored_hash, hash.as_str());
    (d, hash)
}

/// What to do about the login token before a sync.
#[derive(Debug, Clone, Copy, PartialEq, Eq, Structural)]
pub enum JwtAction {
    /// The token is good.
    UseCurrent,
    /// Refresh it with the stored auth token.
    Refresh,
    /// No way to get a valid token.
    Fail,
}

/// What to do about the login token: a valid token that is not due for
/// refresh is used; otherwise it is refreshed when an auth token is stored.
pub fn jwt_action(valid: bool, refresh_due: bool, has_auth_token: bool) -> (r: JwtAction)
    ensures
        valid && !refresh_due ==> r == JwtAction::UseCurrent,
        !(valid && !refresh_due) && has_auth_token ==> r == JwtAction::Refresh,
        !(valid && !refresh_due) && !has_auth_token ==> r == JwtAction::Fail,
{
    if valid && !refresh_due {
        JwtAction::UseCurrent
    } else if has_auth_token {
        JwtAction::Refresh
    } else {
        JwtAction::Fail
    }
}

/// What `str::parse::<u16>` gives.
pub open spec fn parsed_u16(s: Seq<char>) -> Option<nat> {
    match parsed_usize(s) {
        Some(n) => if n <= 65535 {
            Some(n)
        } else {
            None
        },
        None => None,
    }
}

/// The host and port part of a server URL: what follows the first `://`
/// up to the next one, or the whole URL without a scheme.
pub open spec fn host_port_part(url: Seq<char>) -> Seq<char> {
    match next_occurrence(url, "://"@, 0) {
        Some(a) => match next_occurrence(url, "://"@, a + 3) {
            Some(b) => url.subrange(a + 3, b),
            None => url.subrange(a + 3, url.len() as int),
        },
        None => url,
    }
}

/// The port of a `host:port` part: the second piece when it parses, else
/// 5673.
pub open spec fn port_of(host_port: Seq<char>) -> nat {
    let parts = split_at_char(host_port, ':');
    if parts.len() > 1 {
        match parsed_u16(parts[1]) {
            Some(p) => p,
            None => 5673,
        }
    } else {
        5673
    }
}

/// The HTTP base URL used to refresh the login token for a server URL.
pub open spec fn refresh_base_url_spec(url: Seq<char>) -> Seq<char> {
    let hp = host_port_part(url);
    "http://"@ + split_at_char(hp, ':')[0] + ":"@ + decimal(port_of(hp))
}

/// The HTTP base URL used to refresh the login token: the host of the
/// server URL and its port (5673 when missing or invalid).
pub fn refresh_base_url(server_url: &str) -> (r: String)
    ensures
        r@ == refresh_base_url_spec(server_url@),
{
    proof {
        reveal_strlit("://");
    }
    let cs = chars_of(server_url);
    let n = cs.len();
    let sep = chars_of("://");
    let hp: Vec<char> = match find_from(&cs, &sep, 0) {
        Some(a) => {
            proof {
                crate::text::lemma_next_occurrence_bounds(cs@, sep@, 0);
                assert(sep@.len() == 3);
                assert(a + 3 <= cs@.len());
                assert(a + 3 <= n);
            }
            match find_from(&cs, &sep, a + 3) {
                Some(b) => {
                    proof {
                        crate::text::lemma_next_occurrence_bounds(cs@, sep@, a + 3);
                    }
                    slice_chars(&cs, a + 3, b)
                },
                None => slice_chars(&cs, a + 3, cs.len()),
            }
        },
        None => cs.clone(),
    };
    let parts = split_chars(&hp, ':');
    proof {
        lemma_split_nonempty(hp@, ':');
        assert(parts@.map_values(|p: Vec<char>| p@).len() == parts@.len());
        assert(parts@.map_values(|p: Vec<char>| p@)[0] == parts@[0]@);
    }
    let port: u16 = if parts.len() > 1 {
        assert(parts@.map_values(|p: Vec<char>| p@)[1] == parts@[1]@);
        match crate::edit::parse_usize(&parts[1]) {
            Some(n) => if n <= 65535 {
                n as u16
            } else {
                5673
            },
            None => 5673,
        }
    } else {
        5673
    };
    let mut s = owned("http://");
    s.append(string_of(&parts[0]).as_str());
    s.append(":");
    s.append(string_of(&decimal_chars(port as u64)).as_str());
    s
}

proof fn lemma_split_nonempty(s: Seq<char>, c: char)
    ensures
        split_at_char(s, c).len() >= 1,
    decreases s.len(),
{
    crate::text::lemma_char_index_bounds(s, c);
}

/// The file name given to a snapshot whose name cannot be decrypted: the
/// first eight characters of its document id, then `.md`.
pub fn fallback_snapshot_filename(doc_id: &str) -> (r: String)
    requires
        doc_id@.len() >= 8,
    ensures
        r@ == doc_id@.subrange(0, 8) + ".md"@,
{
    let cs = chars_of(doc_id);
    let head = slice_chars(&cs, 0, 8);
    let mut s = string_of(&head);
    s.append(".md");
    s
}

/// The messages of one sync session with the server, as the daemon sees
/// them.
#[derive(Debug, Clone)]
pub enum ServerEvent {
    /// Changes to a document made on some device.
    NewChanges { doc_id: String, from_device_id: String },
    /// The documents the server has, with the documents known here.
    DocumentList { server_ids: Vec<String>, local_ids: Vec<String> },
    /// A snapshot of a document; whether the document is known here.
    Snapshot { doc_id: String, known_locally: bool },
    /// Any other text message.
    Other,
    /// The server closed the connection.
    Closed,
    /// The connection failed or the stream ended.
    Failed,
    /// Nothing arrived in time.
    TimedOut,
}

/// What the daemon does for a message.
#[derive(Debug, Clone)]
pub enum SessionAction {
    /// Apply the changes to the document.
    ApplyChanges { doc_id: String },
    /// Changes made by this device: ignore them.
    IgnoreOwnChanges,
    /// Request snapshots of documents missing here, and push snapshots of
    /// documents missing on the server.
    Exchange { request: Vec<String>, push: Vec<String> },
    /// Store the snapshot (as a new document unless known); `close` when it
    /// was the last one expected.
    StoreSnapshot { doc_id: String, known_locally: bool, close: bool },
    /// Wait for the next message.
    Continue,
    /// End the session.
    Close,
}

/// The state of a sync session.
#[derive(Debug, Clone)]
pub struct SyncSession {
    pub device_id: String,
    pub expected_snapshots: u64,
    pub received_snapshots: u64,
    pub received_document_list: bool,
}

/// The items of `a` that do not occur in `b`, in order.
pub open spec fn missing_from(a: Seq<Seq<char>>, b: Seq<Seq<char>>) -> Seq<Seq<char>>
    decreases a.len(),
{
    if a.len() == 0 {
        Seq::empty()
    } else {
        let rest = missing_from(a.drop_last(), b);
        if b.contains(a.last()) {
            rest
        } else {
            rest.push(a.last())
        }
    }
}

fn contains_string(v: &Vec<String>, s: &String) -> (r: bool)
    ensures
        r == v@.map_values(|x: String| x@).contains(s@),
{
    let ghost vs = v@.map_values(|x: String| x@);
    let mut i: usize = 0;
    while i < v.len()
        invariant
            i <= v@.len(),
            vs == v@.map_values(|x: String| x@),
            forall|j: int| 0 <= j < i ==> vs[j] != s@,
        decreases v@.len() - i,
    {
        assert(vs[i as int] == v@[i as int]@);
        if str_eq(v[i].as_str(), s.as_str()) {
            return true;
        }
        i = i + 1;
    }
    false
}

/// The strings of `a` that do not occur in `b`, in order.
pub fn strings_missing_from(a: &Vec<String>, b: &Vec<String>) -> (r: Vec<String>)
    ensures
        r@.map_values(|x: String| x@) == missing_from(a@.map_values(|x: String| x@), b@.map_values(|x: String| x@)),
{
    let ghost av = a@.map_values(|x: String| x@);
    let ghost bv = b@.map_values(|x: String| x@);
    let mut r: Vec<String> = Vec::new();
    let mut i: usize = 0;
    assert(av.take(0) =~= Seq::<Seq<char>>::empty());
    while i < a.len()
        invariant
            i <= a@.len(),
            av == a@.map_values(|x: String| x@),
            bv == b@.map_values(|x: String| x@),
            r@.map_values(|x: String| x@) == missing_from(av.take(i as int), bv),
        decreases a@.len() - i,
    {
        assert(av.take(i + 1).drop_last() =~= av.take(i as int));
        assert(av.take(i + 1).last() == a@[i as int]@);
        if !contains_string(b, &a[i]) {
            let ghost old_r = r@;
            r.push(a[i].clone());
            assert(r@.map_values(|x: String| x@) =~= old_r.map_values(|x: String| x@).push(a@[i as int]@));
        }
        i = i + 1;
    }
    assert(av.take(i as int) =~= av);
    r
}

impl SyncSession {
    /// A session for this device, before any message.
    pub fn new(device_id: String) -> (r: Self)
        ensures
            r.device_id == device_id,
            r.expected_snapshots == 0,
            r.received_snapshots == 0,
            !r.received_document_list,
    {
        SyncSession { device_id, expected_snapshots: 0, received_snapshots: 0, received_document_list: false }
    }

    /// React to a message of the server: apply other devices' changes,
    /// exchange snapshots when the document list arrives, store snapshots
    /// until all expected ones arrived, and end on close, failure or
    /// silence.
    pub fn on_event(&mut self, event: ServerEvent) -> (r: SessionAction)
        ensures
            final(self).device_id == old(self).device_id,
            match event {
                ServerEvent::NewChanges { doc_id, from_device_id } => *final(self) == *old(self) && (if from_device_id@
                    != old(self).device_id@ {
                    r matches SessionAction::ApplyChanges { doc_id: d } && d == doc_id
                } else {
                    r is IgnoreOwnChanges
                }),
                ServerEvent::DocumentList { server_ids, local_ids } => {
                    let request = missing_from(server_ids@.map_values(|x: String| x@), local_ids@.map_values(|x: String| x@));
                    let push = missing_from(local_ids@.map_values(|x: String| x@), server_ids@.map_values(|x: String| x@));
                    &&& r matches SessionAction::Exchange { request: rq, push: ps }
                        && rq@.map_values(|x: String| x@) == request && ps@.map_values(|x: String| x@) == push
                    &&& final(self).received_document_list
                    &&& final(self).expected_snapshots == if old(self).expected_snapshots + request.len() <= u64::MAX {
                        old(self).expected_snapshots + request.len()
                    } else {
                        u64::MAX as int
                    }
                    &&& final(self).received_snapshots == old(self).received_snapshots
                },
                ServerEvent::Snapshot { doc_id, known_locally } => {
                    let received = if old(self).received_snapshots < u64::MAX {
                        old(self).received_snapshots + 1
                    } else {
                        u64::MAX as int
                    };
                    &&& final(self).received_snapshots == received
                    &&& final(self).expected_snapshots == old(self).expected_snapshots
                    &&& final(self).received_document_list == old(self).received_document_list
                    &&& r matches SessionAction::StoreSnapshot { doc_id: d, known_locally: k, close: c } && d == doc_id
                        && k == known_locally && c == (old(self).expected_snapshots > 0 && received
                        >= old(self).expected_snapshots)
                },
                ServerEvent::Other => r is Continue && *final(self) == *old(self),
                _ => r is Close && *final(self) == *old(self),
            },
    {
        match event {
            ServerEvent::NewChanges { doc_id, from_device_id } => {
                if !str_eq(from_device_id.as_str(), self.device_id.as_str()) {
                    SessionAction::ApplyChanges { doc_id }
                } else {
                    SessionAction::IgnoreOwnChanges
                }
            },
            ServerEvent::DocumentList { server_ids, local_ids } => {
                self.received_document_list = true;
                let request = strings_missing_from(&server_ids, &local_ids);
                let push = strings_missing_from(&local_ids, &server_ids);
                let n = request.len() as u64;
                self.expected_snapshots = self.expected_snapshots.saturating_add(n);
                SessionAction::Exchange { request, push }
            },
            ServerEvent::Snapshot { doc_id, known_locally } => {
                self.received_snapshots = self.received_snapshots.saturating_add(1);
                let close = self.expected_snapshots > 0 && self.received_snapshots >= self.expected_snapshots;
                SessionAction::StoreSnapshot { doc_id, known_locally, close }
            },
            ServerEvent::Other => SessionAction::Continue,
            _ => SessionAction::Close,
        }
    }
}

/// Whether a periodic sync is due: at least the interval (30 seconds when
/// not set) has passed since the last one.
pub fn sync_due(elapsed_secs: u64, interval_seconds: Option<u64>) -> (r: bool)
    ensures
        r == (elapsed_secs >= match interval_seconds {
            Some(i) => i,
            None => 30,
        }),
{
    let interval = match interval_seconds {
        Some(i) => i,
        None => 30,
    };
    elapsed_secs >= interval
}

/// Whether pending changes are kept for the next sync after a sync
/// attempt: kept unless the sync succeeded.
pub fn keep_pending_after(sync_succeeded: bool) -> (r: bool)
    ensures
        r == !sync_succeeded,
{
    !sync_succeeded
}

/// The changes that decrypt with the key, decrypted, in order; the others
/// are skipped.
pub open spec fn decryptable(changes: Seq<Seq<u8>>, key: Seq<u8>) -> Seq<Seq<u8>>
    decreases changes.len(),
{
    if changes.len() == 0 {
        Seq::empty()
    } else {
        let rest = decryptable(changes.drop_last(), key);
        match decryption(key, changes.last()) {
            Ok(p) => rest.push(p),
            Err(_) => rest,
        }
    }
}

/// Decrypt received changes, skipping those that do not decrypt with the
/// key (such as changes from a device with another key).
pub fn decrypt_changes(changes: &Vec<Vec<u8>>, key: &[u8; 32]) -> (r: Vec<Vec<u8>>)
    ensures
        r@.map_values(|c: Vec<u8>| c@) == decryptable(changes@.map_values(|c: Vec<u8>| c@), key@),
{
    let ghost cv = changes@.map_values(|c: Vec<u8>| c@);
    let mut r: Vec<Vec<u8>> = Vec::new();
    let mut i: usize = 0;
    assert(cv.take(0) =~= Seq::<Seq<u8>>::empty());
    while i < changes.len()
        invariant
            i <= changes@.len(),
            cv == changes@.map_values(|c: Vec<u8>| c@),
            r@.map_values(|c: Vec<u8>| c@) == decryptable(cv.take(i as int), key@),
        decreases changes@.len() - i,
    {
        assert(cv.take(i + 1).drop_last() =~= cv.take(i as int));
        assert(cv.take(i + 1).last() == changes@[i as int]@);
        match decrypt(changes[i].as_slice(), key) {
            Ok(p) => {
                let ghost old_r = r@;
                r.push(p);
                assert(r@.map_values(|c: Vec<u8>| c@) =~= old_r.map_values(|c: Vec<u8>| c@).push(p@));
            },
            Err(_) => {},
        }
        i = i + 1;
    }
    assert(cv.take(i as int) =~= cv);
    r
}

/// How the mobile app's manual sync starts.
#[derive(Debug, Clone, Copy, PartialEq, Eq, Structural)]
pub enum SyncStart {
    /// No server is set up.
    NotConfigured,
    /// A sync runs; a forced one is queued after it.
    Queued,
    /// A sync runs; this request is dropped.
    Skipped,
    /// Start syncing.
    Run,
}

/// The mobile app's manual sync: whether one runs, and whether a forced one
/// waits for it to end.
#[derive(Debug, Clone, Copy, PartialEq, Eq, Structural)]
pub struct SyncRunner {
    pub in_progress: bool,
    pub force_after_current: bool,
}

/// The runner after a successful round, and whether a forced follow-up
/// round runs.
pub open spec fn success_step(s: SyncRunner) -> (SyncRunner, bool) {
    if s.force_after_current {
        (SyncRunner { in_progress: true, force_after_current: false }, true)
    } else {
        (SyncRunner { in_progress: false, ..s }, false)
    }
}

/// The runner after a failed round.
pub open spec fn failure_step(s: SyncRunner) -> SyncRunner {
    SyncRunner { in_progress: false, ..s }
}

/// How a manual sync run ends, from the runner `s` that began it, with
/// `has_changes` whether changes were pending, `force` whether remote
/// changes were asked for, and `outcomes` the results of the rounds sent
/// (success or failure), in order: the runner, whether the changes taken
/// for the last round are put back as pending, the status the run last set
/// (`Some(true)` connected, `Some(false)` disconnected, `None` untouched),
/// and whether the run succeeded; `None` when the outcomes run out first.
/// A first round with nothing to send ends the run at once; a round
/// after a queued forced request always sends, with nothing new pending.
pub open spec fn manual_run(s: SyncRunner, has_changes: bool, force: bool, outcomes: Seq<bool>) -> Option<
    (SyncRunner, bool, Option<bool>, bool),
>
    decreases outcomes.len(),
{
    if !(has_changes || force) {
        Some((SyncRunner { in_progress: false, ..s }, true, None, true))
    } else if outcomes.len() == 0 {
        None
    } else if !outcomes[0] {
        Some((failure_step(s), true, Some(false), false))
    } else {
        let (t, again) = success_step(s);
        if again {
            manual_run(t, false, true, outcomes.drop_first())
        } else {
            Some((t, false, Some(true), true))
        }
    }
}

/// Whenever a manual sync run ends, no sync is in progress, and it
/// succeeded exactly when it did not leave the status disconnected. A run
/// with nothing to send keeps the pending changes and leaves the status
/// alone; a run whose first round fails fails, puts the pending changes
/// back and leaves the status disconnected; a run whose rounds all
/// succeed succeeds, leaves the status connected and keeps nothing.
pub proof fn lemma_manual_run(s: SyncRunner, has_changes: bool, force: bool, outcomes: Seq<bool>)
    ensures
        manual_run(s, has_changes, force, outcomes) matches Some((e, kept, status, ok)) ==> {
            &&& !e.in_progress
            &&& ok <==> status != Some(false)
            &&& !(has_changes || force) ==> kept && status is None && ok
            &&& (has_changes || force) && outcomes.len() > 0 && !outcomes[0] ==> kept && status == Some(false) && !ok
            &&& (has_changes || force) && (forall|i: int| 0 <= i < outcomes.len() ==> outcomes[i]) ==> !kept
                && status == Some(true) && ok
        },
    decreases outcomes.len(),
{
    if (has_changes || force) && outcomes.len() > 0 && outcomes[0] {
        let (t, again) = success_step(s);
        if again {
            let rest = outcomes.drop_first();
            lemma_manual_run(t, false, true, rest);
            if forall|i: int| 0 <= i < outcomes.len() ==> outcomes[i] {
                assert forall|i: int| 0 <= i < rest.len() implies rest[i] by {
                    assert(rest[i] == outcomes[i + 1]);
                }
            }
        }
    }
}

impl SyncRunner {
    /// Begin a sync request.
    pub fn begin(&mut self, has_client: bool, force_remote: bool) -> (r: SyncStart)
        ensures
            !has_client ==> r == SyncStart::NotConfigured && *final(self) == *old(self),
            has_client && old(self).in_progress && force_remote ==> r == SyncStart::Queued
                && final(self).in_progress && final(self).force_after_current,
            has_client && old(self).in_progress && !force_remote ==> r == SyncStart::Skipped && *final(self) == *old(self),
            has_client && !old(self).in_progress ==> r == SyncStart::Run && final(self).in_progress
                && final(self).force_after_current == old(self).force_after_current,
    {
        if !has_client {
            return SyncStart::NotConfigured;
        }
        if self.in_progress {
            if force_remote {
                self.force_after_current = true;
                return SyncStart::Queued;
            }
            return SyncStart::Skipped;
        }
        self.in_progress = true;
        SyncStart::Run
    }

    /// Whether a round sends anything: changes to push, or a forced request
    /// for remote changes. A round that sends nothing ends the run.
    pub fn round_sends(&mut self, has_changes: bool, force: bool) -> (r: bool)
        ensures
            r == (has_changes || force),
            !r ==> !final(self).in_progress && final(self).force_after_current == old(self).force_after_current,
            r ==> *final(self) == *old(self),
    {
        if !has_changes && !force {
            self.in_progress = false;
            return false;
        }
        true
    }

    /// After a successful round: run a forced follow-up round when one was
    /// queued (clearing the request), else end the run.
    pub fn after_success(&mut self) -> (again: bool)
        ensures
            again == old(self).force_after_current,
            !final(self).force_after_current,
            final(self).in_progress == again,
            (*final(self), again) == success_step(*old(self)),
    {
        if self.force_after_current {
            self.force_after_current = false;
            self.in_progress = true;
            return true;
        }
        self.in_progress = false;
        false
    }

    /// After a failed round: the run ends.
    pub fn after_failure(&mut self)
        ensures
            !final(self).in_progress,
            final(self).force_after_current == old(self).force_after_current,
            *final(self) == failure_step(*old(self)),
    {
        self.in_progress = false;
    }
}


/// The first line of `content` that is not blank, trimmed; empty when there
/// is none.
pub open spec fn first_text_line(lines: Seq<Seq<char>>) -> Seq<char>
    decreases lines.len(),
{
    if lines.len() == 0 {
        Seq::empty()
    } else if trim_spec(lines[0]).len() > 0 {
        trim_spec(lines[0])
    } else {
        first_text_line(lines.drop_first())
    }
}

/// The character that a title character becomes in a file name: ASCII
/// letters (lower-cased) and digits stay, space, `-` and `_` become `-`,
/// anything else `_`.
pub open spec fn filename_char(c: char) -> char {
    if ('a' <= c && c <= 'z') || ('0' <= c && c <= '9') {
        c
    } else if 'A' <= c && c <= 'Z' {
        (((c as u32) + 32) as u8) as char
    } else if c == ' ' || c == '-' || c == '_' {
        '-'
    } else {
        '_'
    }
}

/// `s` without each `c` that directly follows another `c`: every run of
/// `c` shortened to one.
pub open spec fn collapse_runs(s: Seq<char>, c: char) -> Seq<char>
    decreases s.len(),
{
    if s.len() == 0 {
        Seq::empty()
    } else {
        let r = collapse_runs(s.drop_last(), c);
        if s.len() >= 2 && s.last() == c && s[s.len() - 2] == c {
            r
        } else {
            r.push(s.last())
        }
    }
}

/// The file name stem that a document's content suggests: its first
/// non-blank line, at most fifty characters of it, made file-name safe,
/// without `-` and then `_` at either end, with runs of `-` and of `_`
/// shortened to one.
pub open spec fn content_filename_stem(content: Seq<char>) -> Seq<char> {
    let line = first_text_line(lines_of(content));
    let head = if line.len() > 50 { line.subrange(0, 50) } else { line };
    let safe = trim_matching(trim_matching(head.map_values(|c: char| filename_char(c)), '-'), '_');
    collapse_runs(collapse_runs(safe, '-'), '_')
}

/// The file name for a document: the stem its content suggests and `.md`,
/// or, without one, the first eight characters of its id and `.md`.
pub open spec fn content_filename(content: Seq<char>, doc_id: Seq<char>) -> Seq<char> {
    let stem = content_filename_stem(content);
    if stem.len() > 0 {
        stem + ".md"@
    } else {
        doc_id.subrange(0, 8) + ".md"@
    }
}

fn safe_filename_char(c: char) -> (r: char)
    ensures
        r == filename_char(c),
{
    if ('a' <= c && c <= 'z') || ('0' <= c && c <= '9') {
        c
    } else if 'A' <= c && c <= 'Z' {
        (((c as u32) + 32) as u8) as char
    } else if c == ' ' || c == '-' || c == '_' {
        '-'
    } else {
        '_'
    }
}

fn collapse_char_runs(s: &Vec<char>, c: char) -> (r: Vec<char>)
    ensures
        r@ == collapse_runs(s@, c),
{
    let mut out: Vec<char> = Vec::new();
    let mut i: usize = 0;
    assert(s@.take(0) =~= Seq::<char>::empty());
    while i < s.len()
        invariant
            i <= s@.len(),
            out@ == collapse_runs(s@.take(i as int), c),
        decreases s@.len() - i,
    {
        let ghost t = s@.take(i + 1);
        assert(t.drop_last() =~= s@.take(i as int));
        assert(t.last() == s@[i as int]);
        if i >= 1 {
            assert(t[t.len() - 2] == s@[i - 1]);
        }
        if !(i >= 1 && s[i] == c && s[i - 1] == c) {
            out.push(s[i]);
        }
        i = i + 1;
    }
    assert(s@.take(i as int) =~= s@);
    out
}

fn first_nonblank_line(lines: &Vec<Vec<char>>) -> (r: Vec<char>)
    ensures
        r@ == first_text_line(lines@.map_values(|l: Vec<char>| l@)),
{
    let ghost ls = lines@.map_values(|l: Vec<char>| l@);
    let mut i: usize = 0;
    assert(ls.skip(0) =~= ls);
    while i < lines.len()
        invariant
            i <= lines@.len(),
            ls == lines@.map_values(|l: Vec<char>| l@),
            first_text_line(ls) == first_text_line(ls.skip(i as int)),
        decreases lines@.len() - i,
    {
        let t = trim_chars(&lines[i]);
        assert(ls.skip(i as int)[0] == lines@[i as int]@);
        if t.len() > 0 {
            return t;
        }
        assert(ls.skip(i as int).drop_first() =~= ls.skip(i + 1));
        i = i + 1;
    }
    Vec::new()
}

/// The file name stem that a document's content suggests.
pub fn filename_stem_from_content(content: &str) -> (r: String)
    ensures
        r@ == content_filename_stem(content@),
{
    let cs = chars_of(content);
    let lines = split_lines(&cs);
    let line = first_nonblank_line(&lines);
    let n = if line.len() > 50 { 50 } else { line.len() };
    let mut mapped: Vec<char> = Vec::new();
    let mut i: usize = 0;
    let ghost head = if line@.len() > 50 { line@.subrange(0, 50) } else { line@ };
    assert(head.len() == n);
    while i < n
        invariant
            i <= n,
            n == head.len(),
            n <= line@.len(),
            head == if line@.len() > 50 { line@.subrange(0, 50) } else { line@ },
            mapped@ == head.take(i as int).map_values(|c: char| filename_char(c)),
        decreases n - i,
    {
        assert(head[i as int] == line@[i as int]);
        mapped.push(safe_filename_char(line[i]));
        assert(mapped@ =~= head.take(i + 1).map_values(|c: char| filename_char(c)));
        i = i + 1;
    }
    assert(head.take(n as int) =~= head);
    let a = trim_char(&mapped, '-');
    let b = trim_char(&a, '_');
    let c = collapse_char_runs(&b, '-');
    let d = collapse_char_runs(&c, '_');
    string_of(&d)
}

/// The file name for a document from its content, or from its id when the
/// content suggests none.
pub fn extract_filename_from_content(content: &str, fallback_doc_id: &str) -> (r: String)
    requires
        content_filename_stem(content@).len() == 0 ==> fallback_doc_id@.len() >= 8,
    ensures
        r@ == content_filename(content@, fallback_doc_id@),
{
    let stem = filename_stem_from_content(content);
    if stem.as_str().is_empty() {
        return fallback_snapshot_filename(fallback_doc_id);
    }
    let mut s = stem;
    s.append(".md");
    s
}


/// The directory of a kind of document under the content directory.
pub open spec fn kind_dir(kind: DocumentKind) -> Seq<char> {
    match kind {
        DocumentKind::List => "lists"@,
        DocumentKind::Note => "notes"@,
    }
}

/// The relative path for a document of a kind: its kind's directory and the
/// file name its content suggests.
pub open spec fn document_relative_path(kind: DocumentKind, content: Seq<char>, doc_id: Seq<char>) -> Seq<char> {
    kind_dir(kind) + "/"@ + content_filename(content, doc_id)
}

/// Where a document received from the server is written: under its kind's
/// directory, named after its content.
pub fn generate_file_path_for_document(doc_id: &str, kind: DocumentKind, content: &str, content_dir: &str) -> (r: CanonicalDocPath)
    requires
        content_filename_stem(content@).len() == 0 ==> doc_id@.len() >= 8,
    ensures
        r.relative_path@ == document_relative_path(kind, content@, doc_id@),
        r.full_path@ == join_spec(content_dir@, document_relative_path(kind, content@, doc_id@)),
        r.kind == kind_of_path(document_relative_path(kind, content@, doc_id@)),
{
    let filename = extract_filename_from_content(content, doc_id);
    let mut relative = match kind {
        DocumentKind::List => owned("lists"),
        DocumentKind::Note => owned("notes"),
    };
    relative.append("/");
    relative.append(filename.as_str());
    path_from_relative(relative.as_str(), content_dir)
}

/// Whether content looks like a list: it has a non-blank line and every
/// line is shorter than 200 bytes.
pub open spec fn looks_like_list(lines: Seq<Seq<char>>) -> bool {
    &&& exists|i: int| 0 <= i < lines.len() && trim_spec(lines[i]).len() > 0
    &&& forall|i: int| 0 <= i < lines.len() ==> byte_len(#[trigger] lines[i]) < 200
}

/// Whether `std::path::Path` takes two paths as equal.
pub uninterp spec fn paths_equal(a: Seq<char>, b: Seq<char>) -> bool;

/// `Path::new(a) == Path::new(b)`: paths compare by their components, so
/// the same text gives equal paths; which other texts are equal is not
/// stated.
#[verifier::external_body]
fn same_path(a: &str, b: &str) -> (r: bool)
    ensures
        r == paths_equal(a@, b@),
        a@ == b@ ==> r,
{
    std::path::Path::new(a) == std::path::Path::new(b)
}

/// The key files that mobile sync loads the encryption key from, in the
/// order it tries them: the configured one, then the default one where it
/// is known and is another path.
pub open spec fn key_paths_tried(primary: Seq<char>, fallback: Option<Seq<char>>) -> Seq<Seq<char>> {
    match fallback {
        Some(f) => if paths_equal(f, primary) {
            seq![primary]
        } else {
            seq![primary, f]
        },
        None => seq![primary],
    }
}

/// The key files to try for the encryption key, in order: the configured
/// one, then the default one where it is known and is another path.
pub fn key_paths_to_try(primary: &str, fallback: Option<&str>) -> (r: Vec<String>)
    ensures
        r@.map_values(|s: String| s@) == key_paths_tried(
            primary@,
            match fallback {
                Some(f) => Some(f@),
                None => None,
            },
        ),
{
    let mut r: Vec<String> = Vec::new();
    r.push(owned(primary));
    match fallback {
        Some(f) => {
            if !same_path(f, primary) {
                r.push(owned(f));
            }
        },
        None => {},
    }
    assert(r@.map_values(|s: String| s@) =~= key_paths_tried(
        primary@,
        match fallback {
            Some(f) => Some(f@),
            None => None,
        },
    ));
    r
}

/// The kind and file of a document that the mobile app receives: a list
/// when it looks like one, else a note; the file lies in `lists` or `notes`
/// under the content directory and is named after the content.
pub fn mobile_document_placement(doc_id: &str, content: &str, content_dir: &str) -> (r: (String, String))
    requires
        content_filename_stem(content@).len() == 0 ==> doc_id@.len() >= 8,
    ensures
        looks_like_list(lines_of(content@)) ==> r.0@ == "list"@ && r.1@ == join_spec(
            join_spec(content_dir@, "lists"@),
            content_filename(content@, doc_id@),
        ),
        !looks_like_list(lines_of(content@)) ==> r.0@ == "note"@ && r.1@ == join_spec(
            join_spec(content_dir@, "notes"@),
            content_filename(content@, doc_id@),
        ),
{
    let cs = chars_of(content);
    let lines = split_lines(&cs);
    let ghost ls = lines@.map_values(|l: Vec<char>| l@);
    let mut any_text = false;
    let mut all_short = true;
    let mut i: usize = 0;
    while i < lines.len()
        invariant
            i <= lines@.len(),
            ls == lines@.map_values(|l: Vec<char>| l@),
            any_text == exists|k: int| 0 <= k < i && trim_spec(ls[k]).len() > 0,
            all_short == forall|k: int| 0 <= k < i ==> byte_len(#[trigger] ls[k]) < 200,
        decreases lines@.len() - i,
    {
        assert(ls[i as int] == lines@[i as int]@);
        let t = trim_chars(&lines[i]);
        if t.len() > 0 {
            any_text = true;
        }
        let line = string_of(&lines[i]);
        if line.as_str().len() >= 200 {
            all_short = false;
        }
        proof {
            assert(byte_len(ls[i as int]) == vstd::utf8::encode_utf8(ls[i as int]).len() as usize);
            if all_short {
                assert forall|k: int| 0 <= k < i + 1 implies byte_len(#[trigger] ls[k]) < 200 by {
                    if k == i {
                    }
                }
            }
        }
        i = i + 1;
    }
    let filename = extract_filename_from_content(content, doc_id);
    if any_text && all_short {
        let dir = join(content_dir, "lists");
        (owned("list"), join(dir.as_str(), filename.as_str()))
    } else {
        let dir = join(content_dir, "notes");
        (owned("note"), join(dir.as_str(), filename.as_str()))
    }
}


/// Whether no two `c` stand next to each other in `s`.
pub open spec fn no_double(s: Seq<char>, c: char) -> bool {
    forall|i: int| 0 <= i < s.len() - 1 ==> !(#[trigger] s[i] == c && s[i + 1] == c)
}

proof fn lemma_collapse_last(s: Seq<char>, c: char)
    requires
        s.len() > 0,
    ensures
        collapse_runs(s, c).len() > 0,
        collapse_runs(s, c).last() == s.last(),
    decreases s.len(),
{
    if s.len() >= 2 && s.last() == c && s[s.len() - 2] == c {
        lemma_collapse_last(s.drop_last(), c);
    }
}

proof fn lemma_collapse_no_double(s: Seq<char>, c: char, d: char)
    requires
        c == d || no_double(s, d),
    ensures
        no_double(collapse_runs(s, c), d),
    decreases s.len(),
{
    if s.len() > 0 {
        let p = s.drop_last();
        if c != d {
            assert forall|i: int| 0 <= i < p.len() - 1 implies !(#[trigger] p[i] == d && p[i + 1] == d) by {
                assert(p[i] == s[i] && p[i + 1] == s[i + 1]);
            }
        }
        lemma_collapse_no_double(p, c, d);
        let r = collapse_runs(p, c);
        if !(s.len() >= 2 && s.last() == c && s[s.len() - 2] == c) {
            let q = r.push(s.last());
            if s.len() >= 2 {
                lemma_collapse_last(p, c);
                assert(r.last() == s[s.len() - 2]);
                if c != d {
                    assert(!(s[s.len() - 2] == d && s[s.len() - 1] == d));
                }
            }
            assert forall|i: int| 0 <= i < q.len() - 1 implies !(#[trigger] q[i] == d && q[i + 1] == d) by {
                if i < r.len() - 1 {
                    assert(q[i] == r[i] && q[i + 1] == r[i + 1]);
                } else {
                    assert(q[i] == r.last());
                }
            }
        }
    }
}

/// The file name that content suggests never holds two `-` or two `_` in a
/// row.
pub proof fn lemma_filename_stem_clean(content: Seq<char>)
    ensures
        no_double(content_filename_stem(content), '-'),
        no_double(content_filename_stem(content), '_'),
{
    let line = first_text_line(lines_of(content));
    let head = if line.len() > 50 { line.subrange(0, 50) } else { line };
    let safe = trim_matching(trim_matching(head.map_values(|c: char| filename_char(c)), '-'), '_');
    let once = collapse_runs(safe, '-');
    lemma_collapse_no_double(safe, '-', '-');
    lemma_collapse_no_double(once, '_', '-');
    lemma_collapse_no_double(once, '_', '_');
}

} // verus!
