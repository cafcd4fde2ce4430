//! Documents as the sync layer sees them: their kind, their canonical path
//! relative to the content directory, and their deterministic identifier.

use vstd::prelude::*;

use crate::lines::{lines_of, split_lines};
use crate::paths::{is_absolute, is_absolute_spec, join, join_spec};
use crate::storage::{path_relative_to, strip_prefix};
use crate::text::{chars_of, owned, str_eq, string_of, trim_chars, trim_spec};

verus! {

broadcast use vstd::string::group_string_axioms;

/// Categories supported by the sync layer.
#[derive(Debug, Clone, Copy, PartialEq, Eq, Structural)]
pub enum DocumentKind {
    List,
    Note,
}

/// The name under which a kind is stored.
pub open spec fn kind_name(k: DocumentKind) -> Seq<char> {
    match k {
        DocumentKind::List => "list"@,
        DocumentKind::Note => "note"@,
    }
}

/// The kind a stored name stands for: `list`, and a note for anything else.
pub open spec fn kind_from_name(s: Seq<char>) -> DocumentKind {
    if s == "list"@ {
        DocumentKind::List
    } else {
        DocumentKind::Note
    }
}

impl DocumentKind {
    /// The name under which this kind is stored.
    pub fn as_str(self) -> (r: &'static str)
        ensures
            r@ == kind_name(self),
    {
        match self {
            DocumentKind::List => "list",
            DocumentKind::Note => "note",
        }
    }

    /// The kind a stored name stands for; unknown names are notes.
    pub fn from_str(value: &str) -> (r: Self)
        ensures
            r == kind_from_name(value@),
    {
        if str_eq(value, "list") {
            DocumentKind::List
        } else {
            DocumentKind::Note
        }
    }
}

/// A kind survives being stored under its name and read back.
pub proof fn lemma_kind_name_roundtrip(k: DocumentKind)
    ensures
        kind_from_name(kind_name(k)) == k,
{
    reveal_strlit("list");
    reveal_strlit("note");
    if k == DocumentKind::Note {
        assert("note"@[0] != "list"@[0]);
    }
}

/// Canonical representation of a document path.
#[derive(Debug, Clone)]
pub struct CanonicalDocPath {
    /// The path on disk.
    pub full_path: String,
    /// The path relative to the content directory, with `/` separators.
    pub relative_path: String,
    pub kind: DocumentKind,
}

/// `s` with every `\` turned into `/`.
pub open spec fn forward_slashes(s: Seq<char>) -> Seq<char> {
    s.map_values(|c: char| if c == '\\' { '/' } else { c })
}

/// `s` without its leading `/` characters.
pub open spec fn without_leading_slashes(s: Seq<char>) -> Seq<char>
    decreases s.len(),
{
    if s.len() > 0 && s[0] == '/' {
        without_leading_slashes(s.drop_first())
    } else {
        s
    }
}

/// A relative path in the form used for identifiers: `/` separators and no
/// leading separator.
pub open spec fn normalized_path(s: Seq<char>) -> Seq<char> {
    without_leading_slashes(forward_slashes(s))
}

/// The kind of a document, from its relative path: lists live under
/// `lists/`, everything else is a note.
pub open spec fn kind_of_path(relative: Seq<char>) -> DocumentKind {
    if relative == "lists"@ || (relative.len() >= 6 && relative.subrange(0, 6) == "lists/"@) {
        DocumentKind::List
    } else {
        DocumentKind::Note
    }
}

/// `uuid`'s `Uuid::new_v5(&Uuid::NAMESPACE_OID, name)` in hyphenated lower
/// hexadecimal form, for the UTF-8 bytes of `name`.
pub uninterp spec fn oid_uuid_v5(name: Seq<char>) -> Seq<char>;

/// `Uuid::new_v5(&Uuid::NAMESPACE_OID, name.as_bytes()).to_string()`: a
/// name-based identifier, the same for the same name, written as 36
/// characters.
#[verifier::external_body]
fn uuid_v5_oid(name: &str) -> (r: String)
    ensures
        r@ == oid_uuid_v5(name@),
        r@.len() == 36,
{
    uuid::Uuid::new_v5(&uuid::Uuid::NAMESPACE_OID, name.as_bytes()).to_string()
}

/// The deterministic identifier of the document at a relative path.
pub open spec fn document_id_of(relative: Seq<char>) -> Seq<char> {
    oid_uuid_v5(forward_slashes(relative))
}

fn forward_slash_chars(s: &Vec<char>) -> (r: Vec<char>)
    ensures
        r@ == forward_slashes(s@),
{
    let mut r: Vec<char> = Vec::new();
    let mut i: usize = 0;
    while i < s.len()
        invariant
            i <= s@.len(),
            r@ == forward_slashes(s@.take(i as int)),
        decreases s@.len() - i,
    {
        let c = s[i];
        r.push(if c == '\\' { '/' } else { c });
        assert(forward_slashes(s@.take(i + 1)) =~= forward_slashes(s@.take(i as int)).push(
            if c == '\\' { '/' } else { c },
        ));
        i = i + 1;
    }
    assert(s@.take(i as int) =~= s@);
    r
}

impl CanonicalDocPath {
    /// Generate a deterministic document id from this path.
    pub fn document_id(&self) -> (r: String)
        ensures
            r@ == document_id_of(self.relative_path@),
    {
        uuid_from_relative_path(self.relative_path.as_str())
    }
}

/// The identifier of the document at a relative path.
pub fn uuid_from_relative_path(relative: &str) -> (r: String)
    ensures
        r@ == document_id_of(relative@),
        r@.len() == 36,
{
    let cs = chars_of(relative);
    let fs = forward_slash_chars(&cs);
    let normalized = string_of(&fs);
    uuid_v5_oid(normalized.as_str())
}

/// A relative path with `/` separators and no leading separator.
pub fn normalize_relative_path(path: &str) -> (r: String)
    ensures
        r@ == normalized_path(path@),
{
    let cs = chars_of(path);
    let fs = forward_slash_chars(&cs);
    let mut i: usize = 0;
    assert(fs@.subrange(0, fs@.len() as int) =~= fs@);
    while i < fs.len() && fs[i] == '/'
        invariant
            i <= fs@.len(),
            without_leading_slashes(fs@) == without_leading_slashes(fs@.subrange(i as int, fs@.len() as int)),
        decreases fs@.len() - i,
    {
        assert(fs@.subrange(i as int, fs@.len() as int).drop_first() =~= fs@.subrange(i + 1, fs@.len() as int));
        i = i + 1;
    }
    let rest = crate::text::slice_chars(&fs, i, fs.len());
    assert(without_leading_slashes(rest@) == rest@);
    string_of(&rest)
}

/// The kind of the document at a relative path.
pub fn detect_kind(relative: &str) -> (r: DocumentKind)
    ensures
        r == kind_of_path(relative@),
{
    proof {
        reveal_strlit("lists");
        reveal_strlit("lists/");
    }
    let cs = chars_of(relative);
    let prefix = chars_of("lists/");
    let whole = chars_of("lists");
    if crate::text::starts_with(&cs, &prefix) || crate::text::chars_eq(&cs, &whole) {
        assert(crate::text::has_prefix(cs@, prefix@) ==> cs@.subrange(0, 6) =~= "lists/"@);
        DocumentKind::List
    } else {
        assert(cs@.len() >= 6 && cs@.subrange(0, 6) == "lists/"@ ==> crate::text::has_prefix(cs@, prefix@));
        DocumentKind::Note
    }
}

/// The canonical form of `path` (absolute, or relative to `content_dir`).
pub open spec fn canonical_of(path: Seq<char>, content_dir: Seq<char>) -> (Seq<char>, Seq<char>) {
    let full = if is_absolute_spec(path) {
        path
    } else {
        join_spec(content_dir, path)
    };
    let relative = match path_relative_to(full, content_dir) {
        Some(rel) => rel,
        None => if !is_absolute_spec(path) {
            path
        } else {
            full
        },
    };
    (full, normalized_path(relative))
}

/// Without its leading `/`, a path does not start with `/`, and keeps the
/// characters it had otherwise.
pub proof fn lemma_without_leading_slashes(s: Seq<char>)
    ensures
        without_leading_slashes(s).len() > 0 ==> without_leading_slashes(s)[0] != '/',
        forall|c: char| without_leading_slashes(s).contains(c) ==> s.contains(c),
    decreases s.len(),
{
    if s.len() > 0 && s[0] == '/' {
        lemma_without_leading_slashes(s.drop_first());
        assert forall|c: char| without_leading_slashes(s).contains(c) implies s.contains(c) by {
            let i = choose|i: int| 0 <= i < without_leading_slashes(s).len() && without_leading_slashes(s)[i] == c;
            assert(s.drop_first().contains(c));
            let j = choose|j: int| 0 <= j < s.drop_first().len() && s.drop_first()[j] == c;
            assert(s[j + 1] == c);
        }
    }
}

/// The relative path of a canonical document path has no `\` and does
/// not start with `/`.
pub proof fn lemma_canonical_relative_path(path: Seq<char>, content_dir: Seq<char>)
    ensures
        !canonical_of(path, content_dir).1.contains('\\'),
        canonical_of(path, content_dir).1.len() > 0 ==> canonical_of(path, content_dir).1[0] != '/',
{
    let full = if is_absolute_spec(path) {
        path
    } else {
        join_spec(content_dir, path)
    };
    let relative = match path_relative_to(full, content_dir) {
        Some(rel) => rel,
        None => if !is_absolute_spec(path) {
            path
        } else {
            full
        },
    };
    let f = forward_slashes(relative);
    lemma_without_leading_slashes(f);
    if f.contains('\\') {
        let i = choose|i: int| 0 <= i < f.len() && f[i] == '\\';
        assert(f[i] == (if relative[i] == '\\' { '/' } else { relative[i] }));
    }
}

/// Resolve a path (absolute or relative) against the content directory and
/// derive its canonical form.
pub fn canonicalize_doc_path(path: &str, content_dir: &str) -> (r: CanonicalDocPath)
    ensures
        (r.full_path@, r.relative_path@) == canonical_of(path@, content_dir@),
        r.kind == kind_of_path(r.relative_path@),
{
    let full_path = if is_absolute(path) {
        owned(path)
    } else {
        join(content_dir, path)
    };
    let relative = match strip_prefix(full_path.as_str(), content_dir) {
        Some(rel) => rel,
        None => if !is_absolute(path) {
            owned(path)
        } else {
            full_path.clone()
        },
    };
    let relative_path = normalize_relative_path(relative.as_str());
    let kind = detect_kind(relative_path.as_str());
    CanonicalDocPath { full_path, relative_path, kind }
}

/// The canonical form of a path together with its document id.
pub fn canonical_path_with_id(path: &str, content_dir: &str) -> (r: (CanonicalDocPath, String))
    ensures
        (r.0.full_path@, r.0.relative_path@) == canonical_of(path@, content_dir@),
        r.0.kind == kind_of_path(r.0.relative_path@),
        r.1@ == document_id_of(r.0.relative_path@),
{
    let canonical = canonicalize_doc_path(path, content_dir);
    let doc_id = canonical.document_id();
    (canonical, doc_id)
}

/// The canonical path of a document stored under a relative path.
pub fn path_from_relative(relative: &str, content_dir: &str) -> (r: CanonicalDocPath)
    ensures
        r.full_path@ == join_spec(content_dir@, relative@),
        r.relative_path@ == relative@,
        r.kind == kind_of_path(relative@),
{
    let full_path = join(content_dir, relative);
    let kind = detect_kind(relative);
    CanonicalDocPath { full_path, relative_path: owned(relative), kind }
}

/// Why a path sent by the server was refused.
#[derive(Debug, Clone, Copy, PartialEq, Eq, Structural)]
pub enum ServerPathError {
    /// The server sent an empty relative path.
    EmptyRelativePath,
}

/// The canonical path for a relative path that the server sent; refused
/// when it is empty.
pub fn path_from_server_filename(encoded_relative: &str, content_dir: &str) -> (r: Result<CanonicalDocPath, ServerPathError>)
    ensures
        encoded_relative@.len() == 0 ==> r == Err::<CanonicalDocPath, ServerPathError>(ServerPathError::EmptyRelativePath),
        encoded_relative@.len() > 0 ==> (r matches Ok(p) && p.full_path@ == join_spec(content_dir@, encoded_relative@)
            && p.relative_path@ == encoded_relative@ && p.kind == kind_of_path(encoded_relative@)),
{
    if encoded_relative.is_empty() {
        return Err(ServerPathError::EmptyRelativePath);
    }
    Ok(path_from_relative(encoded_relative, content_dir))
}

/// The items that a list document holds for a text: its lines, trimmed,
/// without the empty ones.
pub open spec fn list_doc_items(lines: Seq<Seq<char>>) -> Seq<Seq<char>>
    decreases lines.len(),
{
    if lines.len() == 0 {
        Seq::empty()
    } else {
        let rest = list_doc_items(lines.drop_last());
        let t = trim_spec(lines.last());
        if t.len() == 0 {
            rest
        } else {
            rest.push(t)
        }
    }
}

/// The items that a list document stores for `content`: its lines,
/// trimmed, without the empty ones.
pub fn list_items_of(content: &str) -> (r: Vec<String>)
    ensures
        r@.map_values(|s: String| s@) == list_doc_items(lines_of(content@)),
{
    let cs = chars_of(content);
    let lines = split_lines(&cs);
    let ghost ls = lines@.map_values(|l: Vec<char>| l@);
    let mut r: Vec<String> = Vec::new();
    let mut i: usize = 0;
    assert(ls.take(0) =~= Seq::<Seq<char>>::empty());
    while i < lines.len()
        invariant
            i <= lines@.len(),
            ls == lines@.map_values(|l: Vec<char>| l@),
            r@.map_values(|s: String| s@) == list_doc_items(ls.take(i as int)),
        decreases lines@.len() - i,
    {
        let t = trim_chars(&lines[i]);
        assert(ls.take(i + 1).drop_last() =~= ls.take(i as int));
        assert(ls.take(i + 1).last() == lines@[i as int]@);
        if t.len() > 0 {
            let ghost old_r = r@;
            let s = string_of(&t);
            r.push(s);
            assert(r@.map_values(|s: String| s@) =~= old_r.map_values(|s: String| s@).push(s@));
        }
        i = i + 1;
    }
    assert(ls.take(i as int) =~= ls);
    r
}

} // verus!
