//! Notes as the command line reads them: frontmatter and body, word and
//! line counts, the matches of a text search over the notes directory, and
//! the parts of a note that tidying rewrites.

use vstd::prelude::*;

use crate::commands::{trim_suffixes, without_suffixes};
use crate::edit::{parse_usize, parsed_usize};
use crate::lines::{lines_of, split_lines};
use crate::sorted::{sorted_unique, string_views, strictly_sorted};
use crate::storage::{has_separator, path_relative_to, strip_prefix};
use crate::syncd::{file_name_of, path_file_name};
use crate::text::{
    chars_of, find_from, has_prefix, is_white_space, is_whitespace, next_occurrence, owned, slice_chars,
    starts_with, string_of, trim_chars, trim_spec,
};

verus! {

broadcast use vstd::string::group_string_axioms;

/// The frontmatter text and what follows it, for content that starts with
/// `---` and has a second `---`: the text between them and the text after
/// the second.
pub open spec fn note_sections(content: Seq<char>) -> Option<(Seq<char>, Seq<char>)> {
    if has_prefix(content, "---"@) {
        match next_occurrence(content, "---"@, 3) {
            Some(j) => Some((content.subrange(3, j), content.subrange(j + 3, content.len() as int))),
            None => None,
        }
    } else {
        None
    }
}

/// `s` without its leading `c` characters.
pub open spec fn trim_start_char(s: Seq<char>, c: char) -> Seq<char>
    decreases s.len(),
{
    if s.len() > 0 && s[0] == c {
        trim_start_char(s.drop_first(), c)
    } else {
        s
    }
}

fn trim_start_of(s: &Vec<char>, c: char) -> (r: Vec<char>)
    ensures
        r@ == trim_start_char(s@, c),
{
    let mut i: usize = 0;
    assert(s@.subrange(0, s@.len() as int) =~= s@);
    while i < s.len() && s[i] == c
        invariant
            i <= s@.len(),
            trim_start_char(s@, c) == trim_start_char(s@.subrange(i as int, s@.len() as int), c),
        decreases s@.len() - i,
    {
        assert(s@.subrange(i as int, s@.len() as int).drop_first() =~= s@.subrange(i + 1, s@.len() as int));
        i = i + 1;
    }
    slice_chars(s, i, s.len())
}

/// The frontmatter and the text after it, split as `splitn(3, "---")`
/// splits a note that starts with `---`.
fn sections_of(cs: &Vec<char>) -> (r: Option<(Vec<char>, Vec<char>)>)
    ensures
        match note_sections(cs@) {
            Some((f, b)) => r matches Some((x, y)) && x@ == f && y@ == b,
            None => r is None,
        },
{
    let dashes = chars_of("---");
    proof {
        reveal_strlit("---");
    }
    if !starts_with(cs, &dashes) {
        return None;
    }
    assert(dashes@.len() == 3);
    let n = cs.len();
    assert(n == cs@.len());
    match find_from(cs, &dashes, 3) {
        Some(j) => {
            proof {
                crate::text::lemma_next_occurrence_bounds(cs@, dashes@, 3);
                assert(3 <= j && j + 3 <= cs@.len());
            }
            let f = slice_chars(cs, 3, j);
            let b = slice_chars(cs, j + 3, n);
            Some((f, b))
        },
        None => None,
    }
}

/// A note's frontmatter text (when it has frontmatter) and its body, with
/// the newlines that open the body dropped.
pub open spec fn note_parts_of(content: Seq<char>) -> (Option<Seq<char>>, Seq<char>) {
    match note_sections(content) {
        Some((f, b)) => (Some(f), trim_start_char(b, '\n')),
        None => (None, content),
    }
}

/// Split a note into its frontmatter text (when it has frontmatter) and
/// its body.
pub fn split_note(content: &str) -> (r: (Option<String>, String))
    ensures
        (match r.0 {
            Some(f) => Some(f@),
            None => None,
        }, r.1@) == note_parts_of(content@),
{
    let cs = chars_of(content);
    match sections_of(&cs) {
        Some((f, b)) => {
            let body = trim_start_of(&b, '\n');
            (Some(string_of(&f)), string_of(&body))
        },
        None => (None, owned(content)),
    }
}

/// The number of words of `s`: its maximal runs of characters that are not
/// white space.
pub open spec fn words_in(s: Seq<char>) -> nat
    decreases s.len(),
{
    if s.len() == 0 {
        0
    } else {
        let rest = words_in(s.drop_last());
        if !is_white_space(s.last()) && (s.len() == 1 || is_white_space(s[s.len() - 2])) {
            rest + 1
        } else {
            rest
        }
    }
}

proof fn lemma_words_bound(s: Seq<char>)
    ensures
        words_in(s) <= s.len(),
    decreases s.len(),
{
    if s.len() > 0 {
        lemma_words_bound(s.drop_last());
    }
}

/// How many words a text has (what `split_whitespace().count()` counts).
pub fn word_count(text: &str) -> (r: usize)
    ensures
        r == words_in(text@),
{
    let cs = chars_of(text);
    let mut n: usize = 0;
    let mut i: usize = 0;
    assert(cs@.take(0) =~= Seq::<char>::empty());
    while i < cs.len()
        invariant
            i <= cs@.len(),
            n == words_in(cs@.take(i as int)),
        decreases cs@.len() - i,
    {
        let ghost t = cs@.take(i + 1);
        assert(t.drop_last() =~= cs@.take(i as int));
        assert(t.last() == cs@[i as int]);
        if i >= 1 {
            assert(t[t.len() - 2] == cs@[i - 1]);
        }
        proof {
            lemma_words_bound(cs@.take(i as int));
        }
        if !is_whitespace(cs[i]) && (i == 0 || is_whitespace(cs[i - 1])) {
            n = n + 1;
        }
        i = i + 1;
    }
    assert(cs@.take(i as int) =~= cs@);
    n
}

/// How many lines a text has (what `lines().count()` counts).
pub fn line_count(text: &str) -> (r: usize)
    ensures
        r == lines_of(text@).len(),
{
    let cs = chars_of(text);
    let lines = split_lines(&cs);
    assert(lines@.map_values(|l: Vec<char>| l@).len() == lines@.len());
    lines.len()
}

/// One match of a text search: the note, the line number (0 when it does
/// not parse) and the matching line, trimmed.
#[derive(Debug, Clone)]
pub struct GrepMatch {
    pub note: String,
    pub line: u32,
    pub content: String,
}

/// The name of the note in a file: its path relative to the notes
/// directory (or the whole path, outside it), without `.md` endings.
pub open spec fn note_name_in(file: Seq<char>, notes_dir: Seq<char>) -> Seq<char> {
    let rel = match path_relative_to(file, notes_dir) {
        Some(r) => r,
        None => file,
    };
    without_suffixes(rel, ".md"@)
}

/// The name of the note in a file, relative to the notes directory.
pub fn note_name_of(file: &str, notes_dir: &str) -> (r: String)
    ensures
        r@ == note_name_in(file@, notes_dir@),
{
    let rel = match strip_prefix(file, notes_dir) {
        Some(r) => r,
        None => owned(file),
    };
    trim_suffixes(rel.as_str(), ".md")
}

/// The position of the first `:` in `s`, if any.
pub open spec fn first_colon(s: Seq<char>) -> Option<int> {
    next_occurrence(s, seq![':'], 0)
}

/// A line of search output, `file:line:text`, split at its first two
/// colons.
pub open spec fn grep_fields(line: Seq<char>) -> Option<(Seq<char>, Seq<char>, Seq<char>)> {
    match first_colon(line) {
        Some(a) => match next_occurrence(line, seq![':'], a + 1) {
            Some(b) => Some((line.subrange(0, a), line.subrange(a + 1, b), line.subrange(b + 1, line.len() as int))),
            None => None,
        },
        None => None,
    }
}

/// The number a line-number field gives, as `u32` parses it; 0 when it
/// does not parse.
pub open spec fn line_number_of(field: Seq<char>) -> u32 {
    match parsed_usize(field) {
        Some(n) => if n <= u32::MAX {
            n as u32
        } else {
            0
        },
        None => 0,
    }
}

/// The match a line of search output stands for, if it has the form
/// `file:line:text`.
pub open spec fn grep_match_of(line: Seq<char>, notes_dir: Seq<char>) -> Option<(Seq<char>, u32, Seq<char>)> {
    match grep_fields(line) {
        Some((f, n, t)) => Some((note_name_in(f, notes_dir), line_number_of(n), trim_spec(t))),
        None => None,
    }
}

/// Parse one line of search output.
pub fn parse_grep_line(line: &str, notes_dir: &str) -> (r: Option<GrepMatch>)
    ensures
        match grep_match_of(line@, notes_dir@) {
            Some((n, k, t)) => r matches Some(m) && m.note@ == n && m.line == k && m.content@ == t,
            None => r is None,
        },
{
    let cs = chars_of(line);
    let mut colon: Vec<char> = Vec::new();
    colon.push(':');
    assert(colon@ =~= seq![':']);
    let len = cs.len();
    assert(len == cs@.len());
    proof {
        crate::text::lemma_next_occurrence_bounds(cs@, colon@, 0);
    }
    let a = match find_from(&cs, &colon, 0) {
        Some(a) => a,
        None => return None,
    };
    assert(a + 1 <= cs@.len());
    proof {
        crate::text::lemma_next_occurrence_bounds(cs@, colon@, a + 1);
    }
    let b = match find_from(&cs, &colon, a + 1) {
        Some(b) => b,
        None => return None,
    };
    assert(a + 1 <= b && b + 1 <= cs@.len());
    let file = string_of(&slice_chars(&cs, 0, a));
    let number = slice_chars(&cs, a + 1, b);
    let text = slice_chars(&cs, b + 1, cs.len());
    let n: u32 = match parse_usize(&number) {
        Some(v) => if v <= 4294967295 {
            v as u32
        } else {
            0
        },
        None => 0,
    };
    let note = note_name_of(file.as_str(), notes_dir);
    let content = string_of(&trim_chars(&text));
    Some(GrepMatch { note, line: n, content })
}

/// The matches of a text search, line by line of its output.
pub open spec fn grep_matches_in(lines: Seq<Seq<char>>, notes_dir: Seq<char>) -> Seq<(Seq<char>, u32, Seq<char>)>
    decreases lines.len(),
{
    if lines.len() == 0 {
        Seq::empty()
    } else {
        let rest = grep_matches_in(lines.drop_last(), notes_dir);
        match grep_match_of(lines.last(), notes_dir) {
            Some(m) => rest.push(m),
            None => rest,
        }
    }
}

/// The matches as plain values.
pub open spec fn matches_view(v: Seq<GrepMatch>) -> Seq<(Seq<char>, u32, Seq<char>)> {
    v.map_values(|m: GrepMatch| (m.note@, m.line, m.content@))
}

/// The matches of a text search over the notes directory, from the
/// search's output (`file:line:text` per line); other lines are skipped.
pub fn grep_matches(output: &str, notes_dir: &str) -> (r: Vec<GrepMatch>)
    ensures
        matches_view(r@) == grep_matches_in(lines_of(output@), notes_dir@),
{
    let cs = chars_of(output);
    let lines = split_lines(&cs);
    let ghost ls = lines@.map_values(|l: Vec<char>| l@);
    let mut r: Vec<GrepMatch> = Vec::new();
    let mut i: usize = 0;
    assert(ls.take(0) =~= Seq::<Seq<char>>::empty());
    assert(matches_view(r@) =~= Seq::<(Seq<char>, u32, Seq<char>)>::empty());
    while i < lines.len()
        invariant
            i <= lines@.len(),
            ls == lines@.map_values(|l: Vec<char>| l@),
            matches_view(r@) == grep_matches_in(ls.take(i as int), notes_dir@),
        decreases lines@.len() - i,
    {
        assert(ls.take(i + 1).drop_last() =~= ls.take(i as int));
        assert(ls.take(i + 1).last() == lines@[i as int]@);
        let line = string_of(&lines[i]);
        if let Some(m) = parse_grep_line(line.as_str(), notes_dir) {
            let ghost before = r@;
            r.push(m);
            assert(matches_view(r@) =~= matches_view(before).push((m.note@, m.line, m.content@)));
        }
        i = i + 1;
    }
    assert(ls.take(i as int) =~= ls);
    r
}

/// The notes that lines of search output name: for each line with a
/// colon, the note in the file before it.
pub open spec fn searched_notes(lines: Seq<Seq<char>>, notes_dir: Seq<char>) -> Seq<Seq<char>>
    decreases lines.len(),
{
    if lines.len() == 0 {
        Seq::empty()
    } else {
        let rest = searched_notes(lines.drop_last(), notes_dir);
        match first_colon(lines.last()) {
            Some(a) => rest.push(note_name_in(lines.last().subrange(0, a), notes_dir)),
            None => rest,
        }
    }
}

/// The notes that a fixed-text search found, from its output: each once,
/// sorted.
pub fn search_note_names(output: &str, notes_dir: &str) -> (r: Vec<String>)
    ensures
        strictly_sorted(string_views(r@)),
        forall|t: Seq<char>| #[trigger] string_views(r@).contains(t) <==> searched_notes(lines_of(output@), notes_dir@).contains(t),
{
    let cs = chars_of(output);
    let lines = split_lines(&cs);
    let ghost ls = lines@.map_values(|l: Vec<char>| l@);
    let mut found: Vec<String> = Vec::new();
    let mut colon: Vec<char> = Vec::new();
    colon.push(':');
    assert(colon@ =~= seq![':']);
    let mut i: usize = 0;
    assert(ls.take(0) =~= Seq::<Seq<char>>::empty());
    assert(string_views(found@) =~= Seq::<Seq<char>>::empty());
    while i < lines.len()
        invariant
            i <= lines@.len(),
            ls == lines@.map_values(|l: Vec<char>| l@),
            colon@ == seq![':'],
            string_views(found@) == searched_notes(ls.take(i as int), notes_dir@),
        decreases lines@.len() - i,
    {
        assert(ls.take(i + 1).drop_last() =~= ls.take(i as int));
        assert(ls.take(i + 1).last() == lines@[i as int]@);
        proof {
            crate::text::lemma_next_occurrence_bounds(lines@[i as int]@, colon@, 0);
        }
        let line_len = lines[i].len();
        assert(line_len == lines@[i as int]@.len());
        if let Some(a) = find_from(&lines[i], &colon, 0) {
            assert(a + 1 <= lines@[i as int]@.len());
            assert(first_colon(lines@[i as int]@) == Some(a as int));
            let file = string_of(&slice_chars(&lines[i], 0, a));
            let ghost before = string_views(found@);
            let name = note_name_of(file.as_str(), notes_dir);
            found.push(name);
            assert(string_views(found@) =~= before.push(name@));
        }
        i = i + 1;
    }
    assert(ls.take(i as int) =~= ls);
    sorted_unique(&found)
}

/// What tidying reads from a note: the frontmatter text when the note has
/// frontmatter, the body, and whether the note has to be restructured
/// (it lacks frontmatter, or its frontmatter is not closed).
pub open spec fn tidy_sections(content: Seq<char>) -> (Option<Seq<char>>, Seq<char>, bool) {
    if has_prefix(content, "---"@) {
        match note_sections(content) {
            Some((f, b)) => (Some(f), b, false),
            None => (None, content.subrange(3, content.len() as int), true),
        }
    } else {
        (None, content, true)
    }
}

/// The parts of a note that tidying rewrites.
#[derive(Debug, Clone)]
pub struct TidyNoteParts {
    /// The frontmatter text, when the note has frontmatter.
    pub frontmatter: Option<String>,
    /// The text after the frontmatter (the whole note without one).
    pub body: String,
    /// Whether the note has to be rewritten whatever its frontmatter says.
    pub restructured: bool,
}

/// Split a note for tidying.
pub fn tidy_note_parts(content: &str) -> (r: TidyNoteParts)
    ensures
        (match r.frontmatter {
            Some(f) => Some(f@),
            None => None,
        }, r.body@, r.restructured) == tidy_sections(content@),
{
    let cs = chars_of(content);
    let dashes = chars_of("---");
    proof {
        reveal_strlit("---");
    }
    if !starts_with(&cs, &dashes) {
        return TidyNoteParts { frontmatter: None, body: owned(content), restructured: true };
    }
    match sections_of(&cs) {
        Some((f, b)) => TidyNoteParts { frontmatter: Some(string_of(&f)), body: string_of(&b), restructured: false },
        None => TidyNoteParts {
            frontmatter: None,
            body: string_of(&slice_chars(&cs, 3, cs.len())),
            restructured: true,
        },
    }
}

/// A tidied note: its frontmatter (YAML text, ending in a newline) between
/// `---` lines, a blank line, and the body without the newlines it opened
/// with.
pub open spec fn tidied_note(frontmatter_yaml: Seq<char>, body: Seq<char>) -> Seq<char> {
    "---\n"@ + frontmatter_yaml + "---\n\n"@ + trim_start_char(body, '\n')
}

/// Write a tidied note.
pub fn tidied_note_text(frontmatter_yaml: &str, body: &str) -> (r: String)
    ensures
        r@ == tidied_note(frontmatter_yaml@, body@),
{
    let mut s = owned("---\n");
    s.append(frontmatter_yaml);
    s.append("---\n\n");
    let rest = trim_start_of(&chars_of(body), '\n');
    s.append(string_of(&rest).as_str());
    s
}


/// The title of a document created under a name: for a path, its last
/// component (the whole name when it has none); else the name itself.
pub open spec fn title_for_name(name: Seq<char>) -> Seq<char> {
    if has_separator(name) {
        match path_file_name(name) {
            Some(f) => f,
            None => name,
        }
    } else {
        name
    }
}

/// The title of a document created under a name.
pub fn document_title(name: &str) -> (r: String)
    ensures
        r@ == title_for_name(name@),
{
    let cs = chars_of(name);
    if crate::text::contains_char(&cs, '/') || crate::text::contains_char(&cs, '\\') {
        match file_name_of(name) {
            Some(f) => f,
            None => owned(name),
        }
    } else {
        owned(name)
    }
}

/// The text of a new note: frontmatter with its title and creation time,
/// then a blank line.
pub open spec fn new_note(name: Seq<char>, created: Seq<char>) -> Seq<char> {
    "---\ntitle: \""@ + title_for_name(name) + "\"\ncreated: "@ + created + "\n---\n\n"@
}

/// The text of a new note named `name`, created at `created` (RFC 3339).
pub fn new_note_text(name: &str, created: &str) -> (r: String)
    ensures
        r@ == new_note(name@, created@),
{
    let title = document_title(name);
    let mut s = owned("---\ntitle: \"");
    s.append(title.as_str());
    s.append("\"\ncreated: ");
    s.append(created);
    s.append("\n---\n\n");
    s
}

/// What appending `text` to a note adds: a newline, the text, and a
/// newline.
pub open spec fn appended_note(content: Seq<char>, text: Seq<char>) -> Seq<char> {
    content + "\n"@ + text + "\n"@
}

/// A note's text after appending `text` to it.
pub fn append_note_text(content: &str, text: &str) -> (r: String)
    ensures
        r@ == appended_note(content@, text@),
{
    let mut s = owned(content);
    s.append("\n");
    s.append(text);
    s.append("\n");
    s
}

} // verus!
