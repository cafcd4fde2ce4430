//! Finding lists and notes among the files of the content directory: their
//! names, how a name given by the user resolves to a file, and note file
//! names.

use vstd::prelude::*;

use crate::list::{contains_chars, lowercase, occurs_in};
use crate::paths::{join, join_spec};
use crate::text::{chars_of, contains_char, owned, str_eq, string_of};

verus! {

broadcast use vstd::string::group_string_axioms;

/// A file with its name without extension (such as `pharmacy`), its path
/// relative to the base directory without extension (such as
/// `groceries/pharmacy`) and its full path.
#[derive(Debug, Clone)]
pub struct FileEntry {
    pub name: String,
    pub relative_path: String,
    pub full_path: String,
}

/// A file entry as plain values: name, relative path, full path.
pub open spec fn entry_view(e: FileEntry) -> (Seq<char>, Seq<char>, Seq<char>) {
    (e.name@, e.relative_path@, e.full_path@)
}

/// The views of file entries.
pub open spec fn entries_view(v: Seq<FileEntry>) -> Seq<(Seq<char>, Seq<char>, Seq<char>)> {
    v.map_values(|e: FileEntry| entry_view(e))
}

/// `std::path::Path::strip_prefix` on the paths `path` and `base`.
pub uninterp spec fn path_relative_to(path: Seq<char>, base: Seq<char>) -> Option<Seq<char>>;

/// `Path::new(path).strip_prefix(base)`, as text: what is left of `path`
/// after the components of `base`, if it starts with them.
#[verifier::external_body]
pub(crate) fn strip_prefix(path: &str, base: &str) -> (r: Option<String>)
    ensures
        match path_relative_to(path@, base@) {
            Some(s) => r matches Some(v) && v@ == s,
            None => r is None,
        },
{
    std::path::Path::new(path).strip_prefix(base).ok().map(|p| p.to_string_lossy().into_owned())
}

/// `std::path::Path::with_extension("")` on the path `p`.
pub uninterp spec fn path_without_extension(p: Seq<char>) -> Seq<char>;

/// `Path::new(p).with_extension("")`, as text: the path without the
/// extension of its file name.
#[verifier::external_body]
fn without_extension(p: &str) -> (r: String)
    ensures
        r@ == path_without_extension(p@),
{
    std::path::Path::new(p).with_extension("").to_string_lossy().into_owned()
}

/// `std::path::Path::file_stem` on the path `p`.
pub uninterp spec fn path_file_stem(p: Seq<char>) -> Option<Seq<char>>;

/// `Path::new(p).file_stem()`, as text: the file name without its
/// extension, if the path has a file name.
#[verifier::external_body]
fn file_stem(p: &str) -> (r: Option<String>)
    ensures
        match path_file_stem(p@) {
            Some(s) => r matches Some(v) && v@ == s,
            None => r is None,
        },
{
    std::path::Path::new(p).file_stem().map(|s| s.to_string_lossy().into_owned())
}

/// `std::path::Path::extension` on the path `p`.
pub uninterp spec fn path_extension(p: Seq<char>) -> Option<Seq<char>>;

/// `Path::new(p).extension()`, as text: the extension of the file name, if
/// it has one.
#[verifier::external_body]
fn extension_of(p: &str) -> (r: Option<String>)
    ensures
        match path_extension(p@) {
            Some(s) => r matches Some(v) && v@ == s,
            None => r is None,
        },
{
    std::path::Path::new(p).extension().map(|s| s.to_string_lossy().into_owned())
}

/// Whether a directory walk collects the entry at `path`: a file whose
/// extension is `extension`.
pub fn collects_file(path: &str, is_file: bool, extension: &str) -> (r: bool)
    ensures
        r == (is_file && path_extension(path@) == Some(extension@)),
{
    if !is_file {
        return false;
    }
    match extension_of(path) {
        Some(e) => str_eq(e.as_str(), extension),
        None => false,
    }
}

/// Whether a directory walk descends into a directory of this name: hidden
/// directories (starting with `.`) are skipped.
pub fn descends_into(dir_name: &str) -> (r: bool)
    ensures
        r == !(dir_name@.len() > 0 && dir_name@[0] == '.'),
{
    let cs = chars_of(dir_name);
    !(cs.len() > 0 && cs[0] == '.')
}

/// The document names of `files` under `dir`: each path relative to `dir`
/// without extension; paths outside `dir` are left out.
pub open spec fn document_names(dir: Seq<char>, files: Seq<Seq<char>>) -> Seq<Seq<char>>
    decreases files.len(),
{
    if files.len() == 0 {
        Seq::empty()
    } else {
        let rest = document_names(dir, files.drop_last());
        match path_relative_to(files.last(), dir) {
            Some(rel) => rest.push(path_without_extension(rel)),
            None => rest,
        }
    }
}

/// The entries of `files` under `dir`: file stem, relative path without
/// extension, and full path; paths outside `dir`, or without a file name,
/// are left out.
pub open spec fn document_entries(dir: Seq<char>, files: Seq<Seq<char>>) -> Seq<(Seq<char>, Seq<char>, Seq<char>)>
    decreases files.len(),
{
    if files.len() == 0 {
        Seq::empty()
    } else {
        let rest = document_entries(dir, files.drop_last());
        match path_relative_to(files.last(), dir) {
            Some(rel) => match path_file_stem(rel) {
                Some(stem) => rest.push((stem, path_without_extension(rel), files.last())),
                None => rest,
            },
            None => rest,
        }
    }
}

/// The names of the documents among `files` under `dir`.
fn document_names_in(dir: &str, files: &Vec<String>) -> (r: Vec<String>)
    ensures
        r@.map_values(|s: String| s@) == document_names(dir@, files@.map_values(|s: String| s@)),
{
    let ghost fs = files@.map_values(|s: String| s@);
    let mut r: Vec<String> = Vec::new();
    let mut i: usize = 0;
    assert(fs.take(0) =~= Seq::<Seq<char>>::empty());
    while i < files.len()
        invariant
            i <= files@.len(),
            fs == files@.map_values(|s: String| s@),
            r@.map_values(|s: String| s@) == document_names(dir@, fs.take(i as int)),
        decreases files@.len() - i,
    {
        assert(fs.take(i + 1).drop_last() =~= fs.take(i as int));
        assert(fs.take(i + 1).last() == files@[i as int]@);
        if let Some(rel) = strip_prefix(files[i].as_str(), dir) {
            let ghost old_r = r@;
            let name = without_extension(rel.as_str());
            r.push(name);
            assert(r@.map_values(|s: String| s@) =~= old_r.map_values(|s: String| s@).push(name@));
        }
        i = i + 1;
    }
    assert(fs.take(i as int) =~= fs);
    r
}

/// The entries of the documents among `files` under `dir`.
fn document_entries_in(dir: &str, files: &Vec<String>) -> (r: Vec<FileEntry>)
    ensures
        entries_view(r@) == document_entries(dir@, files@.map_values(|s: String| s@)),
{
    let ghost fs = files@.map_values(|s: String| s@);
    let mut r: Vec<FileEntry> = Vec::new();
    let mut i: usize = 0;
    assert(fs.take(0) =~= Seq::<Seq<char>>::empty());
    assert(entries_view(r@) =~= Seq::<(Seq<char>, Seq<char>, Seq<char>)>::empty());
    while i < files.len()
        invariant
            i <= files@.len(),
            fs == files@.map_values(|s: String| s@),
            entries_view(r@) == document_entries(dir@, fs.take(i as int)),
        decreases files@.len() - i,
    {
        assert(fs.take(i + 1).drop_last() =~= fs.take(i as int));
        assert(fs.take(i + 1).last() == files@[i as int]@);
        if let Some(rel) = strip_prefix(files[i].as_str(), dir) {
            if let Some(name) = file_stem(rel.as_str()) {
                let ghost old_r = r@;
                let relative_path = without_extension(rel.as_str());
                let entry = FileEntry { name, relative_path, full_path: files[i].clone() };
                r.push(entry);
                assert(entries_view(r@) =~= entries_view(old_r).push(entry_view(entry)));
            }
        }
        i = i + 1;
    }
    assert(fs.take(i as int) =~= fs);
    r
}

/// The names of the lists among `files` (the markdown files found under
/// `lists_dir`): relative paths without extension, such as
/// `groceries/pharmacy`.
pub fn list_lists(lists_dir: &str, files: &Vec<String>) -> (r: Vec<String>)
    ensures
        r@.map_values(|s: String| s@) == document_names(lists_dir@, files@.map_values(|s: String| s@)),
{
    document_names_in(lists_dir, files)
}

/// The lists among `files` with their names, relative paths and full paths.
pub fn list_lists_with_info(lists_dir: &str, files: &Vec<String>) -> (r: Vec<FileEntry>)
    ensures
        entries_view(r@) == document_entries(lists_dir@, files@.map_values(|s: String| s@)),
{
    document_entries_in(lists_dir, files)
}

/// The names of the notes among `files` (the markdown files found under
/// `notes_dir`).
pub fn list_notes(notes_dir: &str, files: &Vec<String>) -> (r: Vec<String>)
    ensures
        r@.map_values(|s: String| s@) == document_names(notes_dir@, files@.map_values(|s: String| s@)),
{
    document_names_in(notes_dir, files)
}

/// The notes among `files` with their names, relative paths and full paths.
pub fn list_notes_with_info(notes_dir: &str, files: &Vec<String>) -> (r: Vec<FileEntry>)
    ensures
        entries_view(r@) == document_entries(notes_dir@, files@.map_values(|s: String| s@)),
{
    document_entries_in(notes_dir, files)
}

/// Why a name did not resolve to a single file.
#[derive(Debug, Clone)]
pub enum ResolveError {
    /// No file has or contains the name.
    DoesNotExist,
    /// Several files contain the name; their relative paths.
    Ambiguous(Vec<String>),
}

/// The first entry named exactly `title`, if any.
pub open spec fn exact_entry(entries: Seq<(Seq<char>, Seq<char>, Seq<char>)>, title: Seq<char>) -> Option<int> {
    if exists|i: int| 0 <= i < entries.len() && entries[i].0 == title {
        Some(choose|i: int| 0 <= i < entries.len() && entries[i].0 == title && forall|j: int| 0 <= j < i ==> entries[j].0 != title)
    } else {
        None
    }
}

/// The relative paths of the entries whose name contains `title`, in order.
pub open spec fn containing_entries(entries: Seq<(Seq<char>, Seq<char>, Seq<char>)>, title: Seq<char>) -> Seq<(Seq<char>, Seq<char>, Seq<char>)>
    decreases entries.len(),
{
    if entries.len() == 0 {
        Seq::empty()
    } else {
        let rest = containing_entries(entries.drop_last(), title);
        if occurs_in(entries.last().0, title) {
            rest.push(entries.last())
        } else {
            rest
        }
    }
}

/// The full path that a name resolves to among entries: the first entry of
/// exactly that name, else the single entry whose name contains it.
pub open spec fn resolved_entry(entries: Seq<(Seq<char>, Seq<char>, Seq<char>)>, title: Seq<char>) -> Option<Seq<char>> {
    match exact_entry(entries, title) {
        Some(i) => Some(entries[i].2),
        None => {
            let m = containing_entries(entries, title);
            if m.len() == 1 {
                Some(m[0].2)
            } else {
                None
            }
        },
    }
}

/// Why a name that resolves to no file does not: no entry's name contains
/// it, or several do, with their relative paths in order.
pub open spec fn unresolved_as(entries: Seq<(Seq<char>, Seq<char>, Seq<char>)>, title: Seq<char>, e: ResolveError) -> bool {
    match e {
        ResolveError::DoesNotExist => containing_entries(entries, title).len() == 0,
        ResolveError::Ambiguous(paths) => containing_entries(entries, title).len() > 1
            && paths@.map_values(|s: String| s@) == containing_entries(entries, title).map_values(
            |e: (Seq<char>, Seq<char>, Seq<char>)| e.1,
        ),
    }
}

/// Resolve a name to a file among entries: an entry of exactly that name,
/// else the single entry whose name contains it.
pub fn resolve_entry(title: &str, entries: &Vec<FileEntry>) -> (r: Result<String, ResolveError>)
    ensures
        match resolved_entry(entries_view(entries@), title@) {
            Some(p) => r matches Ok(s) && s@ == p,
            None => r matches Err(e) && unresolved_as(entries_view(entries@), title@, e),
        },
{
    let ghost ev = entries_view(entries@);
    let mut i: usize = 0;
    while i < entries.len()
        invariant
            i <= entries@.len(),
            ev == entries_view(entries@),
            forall|j: int| 0 <= j < i ==> ev[j].0 != title@,
        decreases entries@.len() - i,
    {
        assert(ev[i as int] == entry_view(entries@[i as int]));
        if str_eq(entries[i].name.as_str(), title) {
            proof {
                let k = choose|k: int| 0 <= k < ev.len() && ev[k].0 == title@ && forall|j: int| 0 <= j < k ==> ev[j].0 != title@;
                if k < i {
                    assert(ev[k].0 != title@);
                } else if k > i {
                    assert(ev[i as int].0 == title@);
                }
            }
            return Ok(entries[i].full_path.clone());
        }
        i = i + 1;
    }
    let tc = chars_of(title);
    let mut matches: Vec<usize> = Vec::new();
    let mut paths: Vec<String> = Vec::new();
    let mut k: usize = 0;
    assert(ev.take(0) =~= Seq::<(Seq<char>, Seq<char>, Seq<char>)>::empty());
    assert(matches@.map_values(|j: usize| ev[j as int]) =~= Seq::<(Seq<char>, Seq<char>, Seq<char>)>::empty());
    while k < entries.len()
        invariant
            k <= entries@.len(),
            ev == entries_view(entries@),
            tc@ == title@,
            forall|m: int| 0 <= m < matches@.len() ==> #[trigger] matches@[m] < entries@.len(),
            matches@.map_values(|j: usize| ev[j as int]) == containing_entries(ev.take(k as int), title@),
            paths@.map_values(|s: String| s@) == containing_entries(ev.take(k as int), title@).map_values(
                |e: (Seq<char>, Seq<char>, Seq<char>)| e.1,
            ),
        decreases entries@.len() - k,
    {
        assert(ev.take(k + 1).drop_last() =~= ev.take(k as int));
        assert(ev.take(k + 1).last() == ev[k as int]);
        assert(ev[k as int] == entry_view(entries@[k as int]));
        let nc = chars_of(entries[k].name.as_str());
        if contains_chars(&nc, &tc) {
            let ghost old_p = paths@;
            let ghost old_m = matches@;
            let p = entries[k].relative_path.clone();
            matches.push(k);
            paths.push(p);
            proof {
                assert(paths@.map_values(|s: String| s@) =~= old_p.map_values(|s: String| s@).push(p@));
                assert(matches@.map_values(|j: usize| ev[j as int]) =~= old_m.map_values(|j: usize| ev[j as int]).push(ev[k as int]));
                assert(containing_entries(ev.take(k + 1), title@).map_values(|e: (Seq<char>, Seq<char>, Seq<char>)| e.1)
                    =~= containing_entries(ev.take(k as int), title@).map_values(|e: (Seq<char>, Seq<char>, Seq<char>)| e.1).push(ev[k as int].1));
            }
        }
        k = k + 1;
    }
    assert(ev.take(k as int) =~= ev);
    if matches.len() == 0 {
        Err(ResolveError::DoesNotExist)
    } else if matches.len() == 1 {
        let m = matches[0];
        assert(matches@.map_values(|j: usize| ev[j as int])[0] == ev[m as int]);
        assert(ev[m as int] == entry_view(entries@[m as int]));
        Ok(entries[m].full_path.clone())
    } else {
        Err(ResolveError::Ambiguous(paths))
    }
}

/// Whether `s` holds a path separator (`/` or `\`).
pub open spec fn has_separator(s: Seq<char>) -> bool {
    exists|i: int| 0 <= i < s.len() && (s[i] == '/' || s[i] == '\\')
}

fn holds_separator(s: &str) -> (r: bool)
    ensures
        r == has_separator(s@),
{
    let cs = chars_of(s);
    let a = contains_char(&cs, '/');
    let b = contains_char(&cs, '\\');
    a || b
}

/// The file of a document named by a path: `<dir>/<name>.md`.
pub open spec fn markdown_file(dir: Seq<char>, name: Seq<char>) -> Seq<char> {
    join_spec(dir, name + ".md"@)
}

/// The file `<dir>/<name>.md`.
pub fn markdown_file_path(dir: &str, name: &str) -> (r: String)
    ensures
        r@ == markdown_file(dir@, name@),
{
    let mut f = owned(name);
    f.append(".md");
    join(dir, f.as_str())
}

/// Resolve a note by name among the note entries: an entry of exactly that
/// name, else the single entry whose name contains it.
pub fn resolve_note_path(title: &str, entries: &Vec<FileEntry>) -> (r: Result<String, ResolveError>)
    ensures
        match resolved_entry(entries_view(entries@), title@) {
            Some(p) => r matches Ok(s) && s@ == p,
            None => r matches Err(e) && unresolved_as(entries_view(entries@), title@, e),
        },
{
    resolve_entry(title, entries)
}

/// Whether `c` is alphanumeric, as `char::is_alphanumeric` says.
pub uninterp spec fn alphanumeric(c: char) -> bool;

/// `char::is_alphanumeric`.
#[verifier::external_body]
fn is_alphanumeric(c: char) -> (r: bool)
    ensures
        r == alphanumeric(c),
{
    c.is_alphanumeric()
}

/// `s` without the `-` characters at either end.
pub open spec fn trim_dashes(s: Seq<char>) -> Seq<char>
    decreases s.len(),
{
    if s.len() > 0 && s[0] == '-' {
        trim_dashes(s.drop_first())
    } else if s.len() > 0 && s.last() == '-' {
        trim_dashes(s.drop_last())
    } else {
        s
    }
}

/// The slug of a title: lower-cased, every character that is not
/// alphanumeric replaced by `-`, without `-` at either end.
pub open spec fn slug(title: Seq<char>) -> Seq<char> {
    trim_dashes(lowercase(title).map_values(|c: char| if alphanumeric(c) { c } else { '-' }))
}

/// The slug of a title: lower-cased, every character that is not
/// alphanumeric replaced by `-`, without `-` at either end.
pub fn slugify(title: &str) -> (r: String)
    ensures
        r@ == slug(title@),
{
    let lowered = crate::list::to_lowercase(title);
    let cs = chars_of(lowered.as_str());
    let mut out: Vec<char> = Vec::new();
    let mut i: usize = 0;
    while i < cs.len()
        invariant
            i <= cs@.len(),
            cs@ == lowercase(title@),
            out@ == cs@.take(i as int).map_values(|c: char| if alphanumeric(c) { c } else { '-' }),
        decreases cs@.len() - i,
    {
        let c = cs[i];
        out.push(if is_alphanumeric(c) { c } else { '-' });
        assert(out@ =~= cs@.take(i + 1).map_values(|c: char| if alphanumeric(c) { c } else { '-' }));
        i = i + 1;
    }
    assert(cs@.take(i as int) =~= cs@);
    let ghost mapped = out@;
    let mut a: usize = 0;
    let mut b: usize = out.len();
    assert(out@.subrange(0, out@.len() as int) =~= out@);
    while a < b && (out[a] == '-' || out[b - 1] == '-')
        invariant
            a <= b <= out@.len(),
            out@ == mapped,
            trim_dashes(mapped) == trim_dashes(mapped.subrange(a as int, b as int)),
        decreases b - a,
    {
        let ghost t = mapped.subrange(a as int, b as int);
        if out[a] == '-' {
            assert(t.drop_first() =~= mapped.subrange(a + 1, b as int));
            a = a + 1;
        } else {
            assert(t.drop_last() =~= mapped.subrange(a as int, b - 1));
            b = b - 1;
        }
    }
    let rest = crate::text::slice_chars(&out, a, b);
    assert(trim_dashes(rest@) == rest@);
    string_of(&rest)
}

/// The file of a note: `<notes_dir>/<title>.md` when the title is a path;
/// else the note the title resolves to, or `<notes_dir>/<slug>.md`.
pub fn get_note_path(title: &str, notes_dir: &str, entries: &Vec<FileEntry>) -> (r: String)
    ensures
        has_separator(title@) ==> r@ == markdown_file(notes_dir@, title@),
        !has_separator(title@) ==> r@ == match resolved_entry(entries_view(entries@), title@) {
            Some(p) => p,
            None => markdown_file(notes_dir@, slug(title@)),
        },
{
    if holds_separator(title) {
        return markdown_file_path(notes_dir, title);
    }
    match resolve_note_path(title, entries) {
        Ok(p) => p,
        Err(_) => {
            let s = slugify(title);
            markdown_file_path(notes_dir, s.as_str())
        },
    }
}

/// The note a title names: for a path, `<notes_dir>/<title>.md` when that
/// file exists (`direct_exists`); else the note the title resolves to.
pub fn load_note(title: &str, notes_dir: &str, entries: &Vec<FileEntry>, direct_exists: bool) -> (r: Result<String, ResolveError>)
    ensures
        has_separator(title@) ==> (if direct_exists {
            r matches Ok(p) && p@ == markdown_file(notes_dir@, title@)
        } else {
            r matches Err(ResolveError::DoesNotExist)
        }),
        !has_separator(title@) ==> match resolved_entry(entries_view(entries@), title@) {
            Some(p) => r matches Ok(s) && s@ == p,
            None => r matches Err(e) && unresolved_as(entries_view(entries@), title@, e),
        },
{
    if holds_separator(title) {
        if direct_exists {
            return Ok(markdown_file_path(notes_dir, title));
        }
        return Err(ResolveError::DoesNotExist);
    }
    resolve_note_path(title, entries)
}

/// The list a name names: `<lists_dir>/<name>.md` when that file exists
/// (`exact_exists`); else, for a name that is not a path, the list it
/// resolves to among the entries.
pub fn resolve_list_path(list_name: &str, lists_dir: &str, exact_exists: bool, entries: &Vec<FileEntry>) -> (r: Result<String, ResolveError>)
    ensures
        exact_exists ==> (r matches Ok(p) && p@ == markdown_file(lists_dir@, list_name@)),
        !exact_exists && has_separator(list_name@) ==> r matches Err(ResolveError::DoesNotExist),
        !exact_exists && !has_separator(list_name@) ==> match resolved_entry(entries_view(entries@), list_name@) {
            Some(p) => r matches Ok(s) && s@ == p,
            None => r matches Err(e) && unresolved_as(entries_view(entries@), list_name@, e),
        },
{
    if exact_exists {
        return Ok(markdown_file_path(lists_dir, list_name));
    }
    if holds_separator(list_name) {
        return Err(ResolveError::DoesNotExist);
    }
    resolve_entry(list_name, entries)
}

} // verus!
