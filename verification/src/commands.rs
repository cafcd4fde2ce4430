//! The list commands shared by the command line tool and the assistant
//! tools: list names, adding several items at once, and the messages the
//! assistant tools answer with.

use vstd::prelude::*;

use crate::list::{generated_anchor, items_view, lemma_items_view_push, ItemStatus, ItemView, List, ListItem};
use crate::text::{
    chars_of, has_suffix, owned, slice_chars, split_at_char, split_chars, string_of, trim_chars,
    trim_spec,
};

verus! {

broadcast use vstd::string::group_string_axioms;

/// `s` without every trailing copy of `suffix`, as `str::trim_end_matches`
/// gives it for a non-empty suffix.
pub open spec fn without_suffixes(s: Seq<char>, suffix: Seq<char>) -> Seq<char>
    decreases s.len(),
{
    if suffix.len() > 0 && has_suffix(s, suffix) {
        without_suffixes(s.subrange(0, s.len() - suffix.len()), suffix)
    } else {
        s
    }
}

/// `s` without every trailing copy of `suffix`.
pub fn trim_suffixes(s: &str, suffix: &str) -> (r: String)
    ensures
        r@ == without_suffixes(s@, suffix@),
{
    let cs = chars_of(s);
    let sf = chars_of(suffix);
    let mut end = cs.len();
    assert(cs@.subrange(0, end as int) =~= cs@);
    while sf.len() > 0 && sf.len() <= end && crate::text::ends_with(&slice_chars(&cs, 0, end), &sf)
        invariant
            end <= cs@.len(),
            without_suffixes(cs@, sf@) == without_suffixes(cs@.subrange(0, end as int), sf@),
        decreases end,
    {
        assert(cs@.subrange(0, end as int).subrange(0, end - sf@.len()) =~= cs@.subrange(0, end - sf@.len()));
        end = end - sf.len();
    }
    let r = slice_chars(&cs, 0, end);
    proof {
        if sf@.len() > 0 && sf@.len() > end {
            assert(!has_suffix(r@, sf@));
        }
    }
    string_of(&r)
}

/// The list a name stands for on a given day (`YYYYMMDD`): `dl` is that
/// day's daily list; other names lose their `.md` endings.
pub open spec fn list_name_on(list: Seq<char>, date: Seq<char>) -> Seq<char> {
    let key = without_suffixes(list, ".md"@);
    if key == "dl"@ {
        "daily_lists/"@ + date + "_daily_list"@
    } else {
        key
    }
}

/// The note a name stands for on a given day (`YYYYMMDD`): `dn` is that
/// day's daily note; other names lose their `.md` endings.
pub open spec fn note_name_on(note: Seq<char>, date: Seq<char>) -> Seq<char> {
    let key = without_suffixes(note, ".md"@);
    if key == "dn"@ {
        "daily_notes/"@ + date + "_daily_note"@
    } else {
        key
    }
}

/// The list a name stands for on the day `date` (`YYYYMMDD`).
pub fn normalize_list_on(list: &str, date: &str) -> (r: String)
    ensures
        r@ == list_name_on(list@, date@),
{
    let key = trim_suffixes(list, ".md");
    if crate::text::str_eq(key.as_str(), "dl") {
        let mut s = owned("daily_lists/");
        s.append(date);
        s.append("_daily_list");
        s
    } else {
        key
    }
}

/// The note a name stands for on the day `date` (`YYYYMMDD`).
pub fn normalize_note_on(note: &str, date: &str) -> (r: String)
    ensures
        r@ == note_name_on(note@, date@),
{
    let key = trim_suffixes(note, ".md");
    if crate::text::str_eq(key.as_str(), "dn") {
        let mut s = owned("daily_notes/");
        s.append(date);
        s.append("_daily_note");
        s
    } else {
        key
    }
}

/// `chrono::Local::now().format("%Y%m%d")`: today's date in the local time
/// zone; nothing is stated of it.
#[verifier::external_body]
fn local_date_compact() -> String {
    chrono::Local::now().format("%Y%m%d").to_string()
}

/// The list a name stands for today: `dl` is today's daily list; other
/// names lose their `.md` endings.
pub fn normalize_list(list: &str) -> (r: String)
    ensures
        exists|date: Seq<char>| r@ == list_name_on(list@, date),
{
    let date = local_date_compact();
    normalize_list_on(list, date.as_str())
}

/// The note a name stands for today: `dn` is today's daily note; other
/// names lose their `.md` endings.
pub fn normalize_note(note: &str) -> (r: String)
    ensures
        exists|date: Seq<char>| r@ == note_name_on(note@, date),
{
    let date = local_date_compact();
    normalize_note_on(note, date.as_str())
}

/// The item texts in a comma-separated text: each piece trimmed, empty ones
/// left out.
pub open spec fn item_texts(pieces: Seq<Seq<char>>) -> Seq<Seq<char>>
    decreases pieces.len(),
{
    if pieces.len() == 0 {
        Seq::empty()
    } else {
        let rest = item_texts(pieces.drop_last());
        let t = trim_spec(pieces.last());
        if t.len() == 0 {
            rest
        } else {
            rest.push(t)
        }
    }
}

/// Add the items of a comma-separated text to a list's uncategorized items,
/// each with a fresh anchor; empty pieces are skipped. Returns the new
/// items.
pub fn add_items(list: &mut List, text: &str) -> (r: Vec<ListItem>)
    ensures
        items_view(r@).map_values(|it: ItemView| it.text) == item_texts(split_at_char(text@, ',')),
        forall|i: int| 0 <= i < r@.len() ==> (#[trigger] r@[i]).status == ItemStatus::Todo && generated_anchor(r@[i].anchor@),
        final(list).uncategorized() == old(list).uncategorized() + items_view(r@),
        final(list).cats() == old(list).cats(),
        final(list).metadata.title == old(list).metadata.title,
        final(list).metadata.id == old(list).metadata.id,
{
    let cs = chars_of(text);
    let pieces = split_chars(&cs, ',');
    let ghost ps = pieces@.map_values(|p: Vec<char>| p@);
    let ghost u0 = list.uncategorized();
    let mut added: Vec<ListItem> = Vec::new();
    let mut i: usize = 0;
    assert(ps.take(0) =~= Seq::<Seq<char>>::empty());
    assert(items_view(added@).map_values(|it: ItemView| it.text) =~= Seq::<Seq<char>>::empty());
    assert(u0 + items_view(added@) =~= u0);
    while i < pieces.len()
        invariant
            i <= pieces@.len(),
            ps == pieces@.map_values(|p: Vec<char>| p@),
            items_view(added@).map_values(|it: ItemView| it.text) == item_texts(ps.take(i as int)),
            forall|k: int| 0 <= k < added@.len() ==> (#[trigger] added@[k]).status == ItemStatus::Todo && generated_anchor(added@[k].anchor@),
            list.uncategorized() == u0 + items_view(added@),
            list.cats() == old(list).cats(),
            list.metadata.title == old(list).metadata.title,
            list.metadata.id == old(list).metadata.id,
        decreases pieces@.len() - i,
    {
        let t = trim_chars(&pieces[i]);
        assert(ps.take(i + 1).drop_last() =~= ps.take(i as int));
        assert(ps.take(i + 1).last() == pieces@[i as int]@);
        if t.len() > 0 {
            let ghost old_added = added@;
            let item = list.add_item(string_of(&t));
            added.push(item);
            proof {
                lemma_items_view_push(old_added, item);
                assert(items_view(added@).map_values(|it: ItemView| it.text) =~= items_view(old_added).map_values(
                    |it: ItemView| it.text,
                ).push(t@));
                assert(list.uncategorized() =~= u0 + items_view(added@));
            }
        }
        i = i + 1;
    }
    assert(ps.take(i as int) =~= ps);
    assert(ps == split_at_char(text@, ','));
    added
}

} // verus!
