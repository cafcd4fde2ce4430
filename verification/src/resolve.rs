//! How the command line resolves what the user typed to a list or a note:
//! the daily document, a path, an exact file name, or the single fuzzy
//! match among the files.

use vstd::prelude::*;

use crate::commands::{list_name_on, normalize_list_on, normalize_note_on, note_name_on};
use crate::list::{ranks_before, skim_fuzzy_match, skim_score};
use crate::storage::{entries_view, exact_entry, has_separator, FileEntry};
use crate::text::{chars_of, contains_char, owned, str_eq};

verus! {

broadcast use vstd::string::group_string_axioms;

/// Why a name did not resolve to one document.
#[derive(Debug, Clone)]
pub enum NameError {
    /// No file matches the name.
    NoMatch,
    /// Several files match; the best of them (relative path and score),
    /// best first.
    Multiple(Vec<(String, i64)>),
}

/// The score with which a file name matches a key, if it reaches the
/// threshold.
pub open spec fn name_score(name: Seq<char>, key: Seq<char>, threshold: i64) -> Option<int> {
    match skim_score(name, key) {
        Some(s) => if s >= threshold {
            Some(s as int)
        } else {
            None
        },
        None => None,
    }
}

/// Whether `r` lists, best first (higher score, then earlier file), exactly
/// the files whose names match `key`, each with its score.
pub open spec fn name_ranking(r: Seq<(usize, i64)>, names: Seq<Seq<char>>, key: Seq<char>, threshold: i64) -> bool {
    &&& forall|i: int| 0 <= i < r.len() ==> (#[trigger] r[i]).0 < names.len() && name_score(names[r[i].0 as int], key, threshold) == Some(r[i].1 as int)
    &&& forall|k: int| 0 <= k < names.len() && (#[trigger] name_score(names[k], key, threshold)) is Some ==> exists|i: int| 0 <= i < r.len() && r[i].0 == k
    &&& forall|i: int, j: int| 0 <= i < j < r.len() ==> ranks_before(r[i].0 as int, r[i].1 as int, r[j].0 as int, r[j].1 as int)
}

/// The names of entries.
pub open spec fn entry_names(entries: Seq<(Seq<char>, Seq<char>, Seq<char>)>) -> Seq<Seq<char>> {
    entries.map_values(|e: (Seq<char>, Seq<char>, Seq<char>)| e.0)
}

/// Rank the entries whose names match `key` by fuzzy score, best first.
fn rank_entries(entries: &Vec<FileEntry>, key: &str, threshold: i64) -> (r: Vec<(usize, i64)>)
    ensures
        name_ranking(r@, entry_names(entries_view(entries@)), key@, threshold),
{
    let ghost names = entry_names(entries_view(entries@));
    let mut ranked: Vec<(usize, i64)> = Vec::new();
    let mut index: usize = 0;
    while index < entries.len()
        invariant
            index <= entries@.len(),
            names == entry_names(entries_view(entries@)),
            forall|i: int| 0 <= i < ranked@.len() ==> (#[trigger] ranked@[i]).0 < index
                && name_score(names[ranked@[i].0 as int], key@, threshold) == Some(ranked@[i].1 as int),
            forall|k: int| 0 <= k < index && (#[trigger] name_score(names[k], key@, threshold)) is Some
                ==> exists|i: int| 0 <= i < ranked@.len() && ranked@[i].0 == k,
            forall|i: int, j: int| 0 <= i < j < ranked@.len() ==> ranks_before(
                ranked@[i].0 as int, ranked@[i].1 as int, ranked@[j].0 as int, ranked@[j].1 as int),
        decreases entries@.len() - index,
    {
        assert(names[index as int] == entries@[index as int].name@);
        let score: Option<i64> = match skim_fuzzy_match(entries[index].name.as_str(), key) {
            Some(s) => if s >= threshold {
                Some(s)
            } else {
                None
            },
            None => None,
        };
        assert(score == match name_score(names[index as int], key@, threshold) {
            Some(s) => Some(s as i64),
            None => None::<i64>,
        });
        match score {
            Some(s) => {
                let mut p: usize = 0;
                while p < ranked.len() && ranked[p].1 >= s
                    invariant
                        p <= ranked@.len(),
                        forall|m: int| 0 <= m < p ==> (#[trigger] ranked@[m]).1 >= s,
                    decreases ranked@.len() - p,
                {
                    p = p + 1;
                }
                proof {
                    assert forall|m: int| p <= m < ranked@.len() implies (#[trigger] ranked@[m]).1 < s by {
                        if ranked@[p as int].1 < s && m > p {
                            assert(ranks_before(ranked@[p as int].0 as int, ranked@[p as int].1 as int, ranked@[m].0 as int, ranked@[m].1 as int));
                        }
                    }
                }
                let ghost before = ranked@;
                ranked.insert(p, (index, s));
                proof {
                    assert forall|i: int, j: int| 0 <= i < j < ranked@.len() implies ranks_before(
                        ranked@[i].0 as int, ranked@[i].1 as int, ranked@[j].0 as int, ranked@[j].1 as int) by {
                        if i < p && j > p {
                            assert(ranked@[j] == before[j - 1]);
                            assert(ranked@[i] == before[i]);
                        } else if j == p as int {
                            assert(ranked@[i] == before[i]);
                        } else if i == p as int {
                            assert(ranked@[j] == before[j - 1]);
                        } else if j < p {
                            assert(ranked@[i] == before[i] && ranked@[j] == before[j]);
                        } else {
                            assert(ranked@[i] == before[i - 1] && ranked@[j] == before[j - 1]);
                        }
                    }
                    assert forall|k: int| 0 <= k < index + 1 && (#[trigger] name_score(names[k], key@, threshold)) is Some
                        implies exists|i: int| 0 <= i < ranked@.len() && ranked@[i].0 == k by {
                        if k == index as int {
                            assert(ranked@[p as int].0 == k);
                        } else {
                            let i0 = choose|i: int| 0 <= i < before.len() && before[i].0 == k;
                            if i0 < p {
                                assert(ranked@[i0] == before[i0]);
                            } else {
                                assert(ranked@[i0 + 1] == before[i0]);
                            }
                        }
                    }
                    assert forall|i: int| 0 <= i < ranked@.len() implies (#[trigger] ranked@[i]).0 < index + 1
                        && name_score(names[ranked@[i].0 as int], key@, threshold) == Some(ranked@[i].1 as int) by {
                        if i < p {
                            assert(ranked@[i] == before[i]);
                        } else if i > p {
                            assert(ranked@[i] == before[i - 1]);
                        }
                    }
                }
            },
            None => {},
        }
        index = index + 1;
    }
    ranked
}

/// The suggestions for an ambiguous name: the best `max` matches (all of
/// them when fewer), with their relative paths and scores.
pub open spec fn suggestions(
    rank: Seq<(usize, i64)>,
    entries: Seq<(Seq<char>, Seq<char>, Seq<char>)>,
    max: usize,
) -> Seq<(Seq<char>, i64)> {
    let n = if max < rank.len() { max as int } else { rank.len() as int };
    rank.take(n).map_values(|p: (usize, i64)| (entries[p.0 as int].1, p.1))
}

/// What a resolution among entries gives once the name is neither a path
/// nor an exact file name: the single match, no match, or the best
/// suggestions.
pub open spec fn ranked_outcome(
    r: Result<String, NameError>,
    rank: Seq<(usize, i64)>,
    entries: Seq<(Seq<char>, Seq<char>, Seq<char>)>,
    max: usize,
) -> bool {
    if rank.len() == 0 {
        r matches Err(NameError::NoMatch)
    } else if rank.len() == 1 {
        r matches Ok(p) && p@ == entries[rank[0].0 as int].1
    } else {
        r matches Err(NameError::Multiple(v)) && v@.map_values(|q: (String, i64)| (q.0@, q.1)) == suggestions(
            rank,
            entries,
            max,
        )
    }
}

/// Whether `r` resolves `key` among entries: a path is taken as it is; else
/// the first entry named exactly `key`; else the outcome of the fuzzy
/// ranking of the entries' names.
pub open spec fn resolves(
    r: Result<String, NameError>,
    key: Seq<char>,
    entries: Seq<(Seq<char>, Seq<char>, Seq<char>)>,
    threshold: i64,
    max: usize,
) -> bool {
    if has_separator(key) {
        r matches Ok(p) && p@ == key
    } else {
        match exact_entry(entries, key) {
            Some(i) => r matches Ok(p) && p@ == entries[i].1,
            None => exists|rank: Seq<(usize, i64)>| #[trigger]
                name_ranking(rank, entry_names(entries), key, threshold) && ranked_outcome(r, rank, entries, max),
        }
    }
}

/// Resolve a key among entries.
fn resolve_key(key: &str, entries: &Vec<FileEntry>, threshold: i64, max_suggestions: usize) -> (r: Result<String, NameError>)
    ensures
        resolves(r, key@, entries_view(entries@), threshold, max_suggestions),
{
    let cs = chars_of(key);
    if contains_char(&cs, '/') || contains_char(&cs, '\\') {
        return Ok(owned(key));
    }
    let ghost ev = entries_view(entries@);
    assert(!has_separator(key@));
    let mut i: usize = 0;
    while i < entries.len()
        invariant
            i <= entries@.len(),
            !has_separator(key@),
            ev == entries_view(entries@),
            forall|j: int| 0 <= j < i ==> ev[j].0 != key@,
        decreases entries@.len() - i,
    {
        assert(ev[i as int].0 == entries@[i as int].name@);
        if str_eq(entries[i].name.as_str(), key) {
            proof {
                assert(ev[i as int].0 == key@);
                let k = choose|k: int| 0 <= k < ev.len() && ev[k].0 == key@ && forall|j: int| 0 <= j < k ==> ev[j].0 != key@;
                if k < i {
                    assert(ev[k].0 != key@);
                } else if k > i {
                    assert(ev[i as int].0 != key@);
                }
                assert(exact_entry(ev, key@) == Some(i as int));
                assert(ev[i as int].1 == entries@[i as int].relative_path@);
                assert(!has_separator(key@));
            }
            return Ok(owned(entries[i].relative_path.as_str()));
        }
        i = i + 1;
    }
    assert(exact_entry(ev, key@) is None);
    let rank = rank_entries(entries, key, threshold);
    assert(name_ranking(rank@, entry_names(ev), key@, threshold));
    if rank.len() == 0 {
        return Err(NameError::NoMatch);
    }
    if rank.len() == 1 {
        assert(ev[rank@[0].0 as int].1 == entries@[rank@[0].0 as int].relative_path@);
        return Ok(owned(entries[rank[0].0].relative_path.as_str()));
    }
    let n = if max_suggestions < rank.len() { max_suggestions } else { rank.len() };
    let mut v: Vec<(String, i64)> = Vec::new();
    let mut k: usize = 0;
    while k < n
        invariant
            k <= n,
            n <= rank@.len(),
            n == if max_suggestions < rank@.len() { max_suggestions as int } else { rank@.len() as int },
            ev == entries_view(entries@),
            name_ranking(rank@, entry_names(ev), key@, threshold),
            v@.len() == k,
            forall|m: int| 0 <= m < k ==> (#[trigger] v@[m]).0@ == ev[rank@[m].0 as int].1 && v@[m].1 == rank@[m].1,
        decreases n - k,
    {
        let e = rank[k].0;
        assert(rank@[k as int].0 < ev.len());
        assert(ev[e as int].1 == entries@[e as int].relative_path@);
        v.push((owned(entries[e].relative_path.as_str()), rank[k].1));
        k = k + 1;
    }
    assert(v@.map_values(|q: (String, i64)| (q.0@, q.1)) =~= suggestions(rank@, ev, max_suggestions));
    Err(NameError::Multiple(v))
}

/// Resolve what the user typed to a note: `dn` is the daily note of `date`
/// (`YYYYMMDD`); a path is taken as it is; else the note named exactly so,
/// else the single note whose name matches it fuzzily. `.md` endings are
/// ignored.
pub fn resolve_note(input: &str, date: &str, entries: &Vec<FileEntry>, threshold: i64, max_suggestions: usize) -> (r: Result<String, NameError>)
    ensures
        resolves(r, note_name_on(input@, date@), entries_view(entries@), threshold, max_suggestions),
{
    let key = normalize_note_on(input, date);
    resolve_key(key.as_str(), entries, threshold, max_suggestions)
}

/// Resolve what the user typed to a list: `dl` is the daily list of `date`
/// (`YYYYMMDD`); a path is taken as it is; else the list named exactly so,
/// else the single list whose name matches it fuzzily. `.md` endings are
/// ignored.
pub fn resolve_list(input: &str, date: &str, entries: &Vec<FileEntry>, threshold: i64, max_suggestions: usize) -> (r: Result<String, NameError>)
    ensures
        resolves(r, list_name_on(input@, date@), entries_view(entries@), threshold, max_suggestions),
{
    let key = normalize_list_on(input, date);
    resolve_key(key.as_str(), entries, threshold, max_suggestions)
}

} // verus!
