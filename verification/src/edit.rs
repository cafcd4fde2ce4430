//! Editing a list in memory: locating items by anchor, text, `#N` index or
//! fuzzy match, marking them done or not, removing, rewording and moving
//! them.

use vstd::prelude::*;

use crate::text::{chars_of, contains_char, split_at_char, split_chars, string_of, trim_spec};
use crate::list::{
    cats_with_item, generated_anchor, is_anchor_char, is_ascii_alnum, now_rfc3339,
    category_items, copy_item, first_index, fuzzy_find, fuzzy_ranking, fuzzy_score,
    has_anchor, is_valid_anchor, items_view, lemma_categories_view_update, lemma_found_first,
    text_matches, valid_anchor, Category, CategoryView, ItemStatus, ItemView, List, ListItem,
};

verus! {

broadcast use vstd::string::group_string_axioms;

/// Where an item sits in a list.
#[derive(Debug, Clone, Copy, PartialEq, Eq, Structural)]
pub enum ItemLocation {
    Uncategorized(usize),
    Categorized { category_index: usize, item_index: usize },
}

/// Why an edit of a list was refused.
#[derive(Debug, Clone, Copy, PartialEq, Eq, Structural)]
pub enum EditError {
    /// None of several comma-separated targets named an item.
    NoMatchingItems,
    /// The single target named no item.
    NoMatchingItem,
    /// The new text of an item is empty or white space.
    EmptyText,
    /// No item of the list is done.
    NoCompletedItems,
}

/// Why no single item was found for a target.
#[derive(Debug, Clone, Copy, PartialEq, Eq, Structural)]
pub enum FindError {
    /// No item matches.
    NotFound,
    /// More than one item matches the fuzzy search.
    Ambiguous,
}

/// Whether `loc` names an item of the list with these uncategorized items
/// and categories.
pub open spec fn location_valid(uncat: Seq<ItemView>, cats: Seq<CategoryView>, loc: ItemLocation) -> bool {
    match loc {
        ItemLocation::Uncategorized(i) => i < uncat.len(),
        ItemLocation::Categorized { category_index: c, item_index: i } => c < cats.len() && i
            < cats[c as int].items.len(),
    }
}

/// The position among all items (uncategorized first, then category by
/// category) of the item at `loc`.
pub open spec fn location_index(uncat: Seq<ItemView>, cats: Seq<CategoryView>, loc: ItemLocation) -> int {
    match loc {
        ItemLocation::Uncategorized(i) => i as int,
        ItemLocation::Categorized { category_index: c, item_index: i } => uncat.len()
            + category_items(cats.take(c as int)).len() + i,
    }
}

/// The item at `loc`.
pub open spec fn item_at(uncat: Seq<ItemView>, cats: Seq<CategoryView>, loc: ItemLocation) -> ItemView {
    match loc {
        ItemLocation::Uncategorized(i) => uncat[i as int],
        ItemLocation::Categorized { category_index: c, item_index: i } => cats[c as int].items[i as int],
    }
}

/// The categories with the item at `(c, i)` replaced by `x`.
pub open spec fn cats_with_item_at(cats: Seq<CategoryView>, c: int, i: int, x: ItemView) -> Seq<CategoryView> {
    cats.update(c, CategoryView { name: cats[c].name, items: cats[c].items.update(i, x) })
}

/// The categories without the item at `(c, i)`.
pub open spec fn cats_without_item_at(cats: Seq<CategoryView>, c: int, i: int) -> Seq<CategoryView> {
    cats.update(c, CategoryView { name: cats[c].name, items: cats[c].items.remove(i) })
}

/// The items of joined category sequences are the joined items.
pub proof fn lemma_category_items_concat(a: Seq<CategoryView>, b: Seq<CategoryView>)
    ensures
        category_items(a + b) == category_items(a) + category_items(b),
    decreases b.len(),
{
    if b.len() == 0 {
        assert(a + b =~= a);
        assert(category_items(a) + category_items(b) =~= category_items(a));
    } else {
        lemma_category_items_concat(a, b.drop_last());
        assert((a + b).drop_last() =~= a + b.drop_last());
        assert((a + b).last() == b.last());
        assert(category_items(a) + category_items(b) =~= category_items(a) + category_items(
            b.drop_last(),
        ) + b.last().items);
    }
}

/// The items of categories, split around category `c`.
pub proof fn lemma_category_items_split(cats: Seq<CategoryView>, c: int)
    requires
        0 <= c < cats.len(),
    ensures
        category_items(cats) == category_items(cats.take(c)) + cats[c].items + category_items(
            cats.skip(c + 1),
        ),
        category_items(cats.take(c + 1)) == category_items(cats.take(c)) + cats[c].items,
{
    let one = seq![cats[c]];
    assert(cats =~= cats.take(c) + (one + cats.skip(c + 1)));
    lemma_category_items_concat(cats.take(c), one + cats.skip(c + 1));
    lemma_category_items_concat(one, cats.skip(c + 1));
    assert(one.drop_last() =~= Seq::<CategoryView>::empty());
    assert(category_items(Seq::<CategoryView>::empty()) =~= Seq::<ItemView>::empty());
    assert(one.last() == cats[c]);
    assert(category_items(one) == category_items(one.drop_last()) + one.last().items);
    assert(category_items(one) =~= cats[c].items);
    assert(cats.take(c + 1) =~= cats.take(c) + one);
    lemma_category_items_concat(cats.take(c), one);
}

/// A valid location names the item at its position among all items.
pub proof fn lemma_location_index(uncat: Seq<ItemView>, cats: Seq<CategoryView>, loc: ItemLocation)
    requires
        location_valid(uncat, cats, loc),
    ensures
        0 <= location_index(uncat, cats, loc) < (uncat + category_items(cats)).len(),
        (uncat + category_items(cats))[location_index(uncat, cats, loc)] == item_at(uncat, cats, loc),
{
    if let ItemLocation::Categorized { category_index: c, item_index: i } = loc {
        lemma_category_items_split(cats, c as int);
        let pre = category_items(cats.take(c as int));
        assert((uncat + category_items(cats))[uncat.len() + pre.len() + i] == cats[c as int].items[i as int]);
    }
}

/// Replacing the item at a valid location replaces it among all items.
pub proof fn lemma_location_update(uncat: Seq<ItemView>, cats: Seq<CategoryView>, loc: ItemLocation, x: ItemView)
    requires
        location_valid(uncat, cats, loc),
    ensures
        match loc {
            ItemLocation::Uncategorized(i) => uncat.update(i as int, x) + category_items(cats),
            ItemLocation::Categorized { category_index: c, item_index: i } => uncat + category_items(
                cats_with_item_at(cats, c as int, i as int, x),
            ),
        } == (uncat + category_items(cats)).update(location_index(uncat, cats, loc), x),
{
    match loc {
        ItemLocation::Uncategorized(i) => {
            assert(uncat.update(i as int, x) + category_items(cats) =~= (uncat + category_items(
                cats,
            )).update(i as int, x));
        },
        ItemLocation::Categorized { category_index: c, item_index: i } => {
            let c = c as int;
            let i = i as int;
            let nc = cats_with_item_at(cats, c, i, x);
            lemma_category_items_split(cats, c);
            lemma_category_items_split(nc, c);
            assert(nc.take(c) =~= cats.take(c));
            assert(nc.skip(c + 1) =~= cats.skip(c + 1));
            let pre = category_items(cats.take(c));
            let post = category_items(cats.skip(c + 1));
            assert(uncat + (pre + nc[c].items + post) =~= (uncat + (pre + cats[c].items + post)).update(
                uncat.len() + pre.len() + i,
                x,
            ));
        },
    }
}

/// Removing the item at a valid location removes it among all items.
pub proof fn lemma_location_remove(uncat: Seq<ItemView>, cats: Seq<CategoryView>, loc: ItemLocation)
    requires
        location_valid(uncat, cats, loc),
    ensures
        match loc {
            ItemLocation::Uncategorized(i) => uncat.remove(i as int) + category_items(cats),
            ItemLocation::Categorized { category_index: c, item_index: i } => uncat + category_items(
                cats_without_item_at(cats, c as int, i as int),
            ),
        } == (uncat + category_items(cats)).remove(location_index(uncat, cats, loc)),
{
    match loc {
        ItemLocation::Uncategorized(i) => {
            assert(uncat.remove(i as int) + category_items(cats) =~= (uncat + category_items(
                cats,
            )).remove(i as int));
        },
        ItemLocation::Categorized { category_index: c, item_index: i } => {
            let c = c as int;
            let i = i as int;
            let nc = cats_without_item_at(cats, c, i);
            lemma_category_items_split(cats, c);
            lemma_category_items_split(nc, c);
            assert(nc.take(c) =~= cats.take(c));
            assert(nc.skip(c + 1) =~= cats.skip(c + 1));
            let pre = category_items(cats.take(c));
            let post = category_items(cats.skip(c + 1));
            assert(uncat + (pre + nc[c].items + post) =~= (uncat + (pre + cats[c].items + post)).remove(
                uncat.len() + pre.len() + i,
            ));
        },
    }
}

/// Find the location of the item at `global_index` among all items.
pub fn find_item_location_by_global_index(list: &List, global_index: usize) -> (r: Option<ItemLocation>)
    ensures
        match r {
            Some(loc) => location_valid(list.uncategorized(), list.cats(), loc) && location_index(
                list.uncategorized(),
                list.cats(),
                loc,
            ) == global_index,
            None => global_index >= list.all().len(),
        },
{
    if global_index < list.uncategorized_items.len() {
        return Some(ItemLocation::Uncategorized(global_index));
    }
    let ghost u = list.uncategorized();
    let ghost cv = list.cats();
    let mut current: usize = list.uncategorized_items.len();
    let mut ci: usize = 0;
    assert(cv.take(0) =~= Seq::<CategoryView>::empty());
    while ci < list.categories.len()
        invariant
            ci <= list.categories@.len(),
            u == list.uncategorized(),
            cv == list.cats(),
            current == u.len() + category_items(cv.take(ci as int)).len(),
            current <= global_index,
        decreases list.categories@.len() - ci,
    {
        let n = list.categories[ci].items.len();
        assert(n == cv[ci as int].items.len());
        proof {
            lemma_category_items_split(cv, ci as int);
        }
        if global_index - current < n {
            return Some(
                ItemLocation::Categorized { category_index: ci, item_index: global_index - current },
            );
        }
        current = current + n;
        ci = ci + 1;
    }
    assert(cv.take(ci as int) =~= cv);
    None
}

/// The location of `first` among all items, if it is `Some`.
pub open spec fn locates(uncat: Seq<ItemView>, cats: Seq<CategoryView>, r: Option<ItemLocation>, first: Option<int>) -> bool {
    match first {
        Some(g) => r matches Some(loc) && location_valid(uncat, cats, loc) && location_index(
            uncat,
            cats,
            loc,
        ) == g,
        None => r is None,
    }
}

/// Find the location of the first item carrying `anchor`.
pub fn find_item_location_by_anchor(list: &List, anchor: &str) -> (r: Option<ItemLocation>)
    ensures
        locates(list.uncategorized(), list.cats(), r, first_index(list.all(), has_anchor(anchor@))),
{
    let g = list.find_by_anchor(anchor);
    proof {
        lemma_found_first(g, list.all(), has_anchor(anchor@));
    }
    match g {
        Some(i) => find_item_location_by_global_index(list, i),
        None => None,
    }
}

/// Find the location of the first item whose text equals `text`, ignoring
/// case.
pub fn find_item_location_by_text(list: &List, text: &str) -> (r: Option<ItemLocation>)
    ensures
        locates(list.uncategorized(), list.cats(), r, first_index(list.all(), text_matches(text@))),
{
    let g = list.find_by_text(text);
    proof {
        lemma_found_first(g, list.all(), text_matches(text@));
    }
    match g {
        Some(i) => find_item_location_by_global_index(list, i),
        None => None,
    }
}

/// Whether `c` is an ASCII digit.
pub open spec fn is_digit(c: char) -> bool {
    '0' <= c && c <= '9'
}

/// The value of a string of decimal digits.
pub open spec fn decimal_value(d: Seq<char>) -> nat
    decreases d.len(),
{
    if d.len() == 0 {
        0
    } else {
        decimal_value(d.drop_last()) * 10 + ((d.last() as int - '0' as int) as nat)
    }
}

/// The digits of a number without its optional leading `+`.
pub open spec fn unsigned_digits(s: Seq<char>) -> Seq<char> {
    if s.len() > 0 && s[0] == '+' {
        s.drop_first()
    } else {
        s
    }
}

/// Whether every character of `d` is an ASCII digit.
pub open spec fn all_digits(d: Seq<char>) -> bool {
    forall|i: int| 0 <= i < d.len() ==> is_digit(#[trigger] d[i])
}

/// What `str::parse::<usize>` gives: an optional `+`, then one or more
/// ASCII digits whose value fits in a `usize`.
pub open spec fn parsed_usize(s: Seq<char>) -> Option<nat> {
    let d = unsigned_digits(s);
    if d.len() > 0 && all_digits(d) && decimal_value(d) <= usize::MAX {
        Some(decimal_value(d))
    } else {
        None
    }
}

/// The number of an index reference `#N`, if `t` is one.
pub open spec fn index_reference(t: Seq<char>) -> Option<nat> {
    if t.len() > 0 && t[0] == '#' {
        parsed_usize(t.drop_first())
    } else {
        None
    }
}

proof fn lemma_decimal_value_grows(d: Seq<char>, k: int)
    requires
        0 <= k <= d.len(),
        forall|i: int| 0 <= i < d.len() ==> is_digit(#[trigger] d[i]),
    ensures
        decimal_value(d.take(k)) <= decimal_value(d),
    decreases d.len() - k,
{
    if k < d.len() {
        lemma_decimal_value_grows(d, k + 1);
        assert(d.take(k + 1).drop_last() =~= d.take(k));
        assert(d.take(k + 1).last() == d[k]);
        assert(is_digit(d[k]));
    } else {
        assert(d.take(k) =~= d);
    }
}

/// Parse a `usize` as `str::parse` does.
pub fn parse_usize(s: &Vec<char>) -> (r: Option<usize>)
    ensures
        match parsed_usize(s@) {
            Some(n) => r == Some(n as usize),
            None => r is None,
        },
{
    let start: usize = if s.len() > 0 && s[0] == '+' {
        1
    } else {
        0
    };
    let ghost d = unsigned_digits(s@);
    assert(d =~= s@.subrange(start as int, s@.len() as int));
    if start == s.len() {
        assert(d.len() == 0);
        return None;
    }
    let mut i = start;
    while i < s.len()
        invariant
            start <= i <= s@.len(),
            d == s@.subrange(start as int, s@.len() as int),
            d == unsigned_digits(s@),
            forall|j: int| 0 <= j < i - start ==> is_digit(#[trigger] d[j]),
        decreases s@.len() - i,
    {
        if !('0' <= s[i] && s[i] <= '9') {
            proof {
                let j = i - start;
                assert(d[j] == s@[i as int]);
                assert(!is_digit(d[j]));
                assert(!all_digits(d));
            }
            return None;
        }
        i = i + 1;
    }
    let mut v: usize = 0;
    let mut i = start;
    assert(d.take(0) =~= Seq::<char>::empty());
    while i < s.len()
        invariant
            start <= i <= s@.len(),
            d == s@.subrange(start as int, s@.len() as int),
            d == unsigned_digits(s@),
            d.len() > 0,
            forall|j: int| 0 <= j < d.len() ==> is_digit(#[trigger] d[j]),
            v == decimal_value(d.take(i - start)),
        decreases s@.len() - i,
    {
        let ghost k = i - start;
        assert(d.take(k + 1).drop_last() =~= d.take(k));
        assert(d.take(k + 1).last() == s@[i as int]);
        let digit = (s[i] as u32 - '0' as u32) as usize;
        match v.checked_mul(10) {
            Some(t) => match t.checked_add(digit) {
                Some(n) => {
                    v = n;
                },
                None => {
                    proof {
                        lemma_decimal_value_grows(d, k + 1);
                        assert(decimal_value(d) > usize::MAX);
                    }
                    return None;
                },
            },
            None => {
                proof {
                    lemma_decimal_value_grows(d, k + 1);
                    assert(decimal_value(d.take(k + 1)) >= v * 10);
                    assert(decimal_value(d) > usize::MAX);
                }
                return None;
            },
        }
        i = i + 1;
    }
    assert(d.take(d.len() as int) =~= d);
    Some(v)
}

/// The first item carrying the anchor `t`, when `t` is a valid anchor.
pub open spec fn anchor_hit(all: Seq<ItemView>, t: Seq<char>) -> Option<int> {
    if valid_anchor(t) {
        first_index(all, has_anchor(t))
    } else {
        None
    }
}

/// The item that an index reference `#N` names (counting from one).
pub open spec fn index_hit(all: Seq<ItemView>, t: Seq<char>) -> Option<int> {
    match index_reference(t) {
        Some(n) => if 1 <= n <= all.len() {
            Some(n - 1)
        } else {
            None
        },
        None => None,
    }
}

/// Whether item `k` enters the fuzzy search for `t`.
pub open spec fn scores(all: Seq<ItemView>, t: Seq<char>, threshold: i64, k: int) -> bool {
    0 <= k < all.len() && fuzzy_score(all[k].text, t, threshold) is Some
}

/// The outcome of the fuzzy search for `t`: the first item with the anchor
/// of the single matching item, or why there is none.
pub open spec fn fuzzy_hit(all: Seq<ItemView>, t: Seq<char>, threshold: i64) -> Result<int, FindError> {
    if t.len() == 0 || !(exists|k: int| scores(all, t, threshold, k)) {
        Err(FindError::NotFound)
    } else if exists|k: int|
        scores(all, t, threshold, k) && forall|j: int| #[trigger] scores(all, t, threshold, j) ==> j == k {
        let k = choose|k: int|
            scores(all, t, threshold, k) && forall|j: int| #[trigger] scores(all, t, threshold, j) ==> j == k;
        Ok(first_index(all, has_anchor(all[k].anchor))->0)
    } else {
        Err(FindError::Ambiguous)
    }
}

/// The item that a target names among all items: by anchor, then by text
/// (ignoring case), then by `#N`, then by fuzzy search.
#[verifier::opaque]
pub open spec fn target_index(all: Seq<ItemView>, t: Seq<char>, threshold: i64) -> Result<int, FindError> {
    match anchor_hit(all, t) {
        Some(i) => Ok(i),
        None => match first_index(all, text_matches(t)) {
            Some(i) => Ok(i),
            None => match index_hit(all, t) {
                Some(i) => Ok(i),
                None => fuzzy_hit(all, t, threshold),
            },
        },
    }
}

/// Find the item that `target` names, for removal or change: by anchor, by
/// text, by `#N` (counting from one; `#0` names no item), or as the single
/// match of a fuzzy search.
pub fn find_item_for_removal(list: &List, target: &str, threshold: i64) -> (r: Result<ItemLocation, FindError>)
    ensures
        match target_index(list.all(), target@, threshold) {
            Ok(g) => r matches Ok(loc) && location_valid(list.uncategorized(), list.cats(), loc)
                && location_index(list.uncategorized(), list.cats(), loc) == g,
            Err(e) => r == Err::<ItemLocation, FindError>(e),
        },
{
    reveal(target_index);
    if is_valid_anchor(target) {
        if let Some(loc) = find_item_location_by_anchor(list, target) {
            return Ok(loc);
        }
    }
    if let Some(loc) = find_item_location_by_text(list, target) {
        return Ok(loc);
    }
    let cs = crate::text::chars_of(target);
    if cs.len() > 0 && cs[0] == '#' {
        let rest = crate::text::slice_chars(&cs, 1, cs.len());
        assert(rest@ =~= target@.drop_first());
        if let Some(idx) = parse_usize(&rest) {
            if idx >= 1 {
                if let Some(loc) = find_item_location_by_global_index(list, idx - 1) {
                    proof {
                        lemma_location_index(list.uncategorized(), list.cats(), loc);
                        assert(index_reference(target@) == Some(idx as nat));
                    }
                    return Ok(loc);
                }
            }
        }
    }
    assert(index_hit(list.all(), target@) is None);
    fuzzy_location(list, target, threshold)
}

proof fn lemma_fuzzy_none(av: Seq<ItemView>, r: Seq<usize>, t: Seq<char>, threshold: i64)
    requires
        fuzzy_ranking(r, av, t, threshold),
        r.len() == 0,
    ensures
        fuzzy_hit(av, t, threshold) == Err::<int, FindError>(FindError::NotFound),
{
    if t.len() > 0 {
        assert forall|k: int| !scores(av, t, threshold, k) by {
            if scores(av, t, threshold, k) {
                assert(fuzzy_score(av[k].text, t, threshold) is Some);
            }
        }
    }
}

proof fn lemma_fuzzy_one(av: Seq<ItemView>, r: Seq<usize>, t: Seq<char>, threshold: i64)
    requires
        fuzzy_ranking(r, av, t, threshold),
        r.len() == 1,
    ensures
        r[0] < av.len(),
        first_index(av, has_anchor(av[r[0] as int].anchor)) is Some,
        fuzzy_hit(av, t, threshold) == Ok::<int, FindError>(
            first_index(av, has_anchor(av[r[0] as int].anchor))->0,
        ),
{
    let m = r[0] as int;
    assert(t.len() > 0);
    assert(fuzzy_score(av[m].text, t, threshold) is Some);
    assert(scores(av, t, threshold, m));
    assert forall|j: int| #[trigger] scores(av, t, threshold, j) implies j == m by {
        assert(fuzzy_score(av[j].text, t, threshold) is Some);
        let i = choose|i: int| 0 <= i < r.len() && r[i] == j;
        assert(i == 0);
    }
    let k = choose|k: int|
        scores(av, t, threshold, k) && forall|j: int| #[trigger] scores(av, t, threshold, j) ==> j == k;
    assert(k == m);
    assert(has_anchor(av[m].anchor)(av[m]));
}

proof fn lemma_fuzzy_many(av: Seq<ItemView>, t: Seq<char>, threshold: i64, a: int, b: int)
    requires
        t.len() > 0,
        a != b,
        scores(av, t, threshold, a),
        scores(av, t, threshold, b),
    ensures
        fuzzy_hit(av, t, threshold) == Err::<int, FindError>(FindError::Ambiguous),
{
    if exists|k: int|
        scores(av, t, threshold, k) && forall|j: int| #[trigger] scores(av, t, threshold, j) ==> j == k {
        let k = choose|k: int|
            scores(av, t, threshold, k) && forall|j: int| #[trigger] scores(av, t, threshold, j) ==> j == k;
        assert(a == k);
        assert(b == k);
    }
}

/// The location of the single item that a fuzzy search for `target` finds.
fn fuzzy_location(list: &List, target: &str, threshold: i64) -> (r: Result<ItemLocation, FindError>)
    ensures
        match fuzzy_hit(list.all(), target@, threshold) {
            Ok(g) => r matches Ok(loc) && location_valid(list.uncategorized(), list.cats(), loc)
                && location_index(list.uncategorized(), list.cats(), loc) == g,
            Err(e) => r == Err::<ItemLocation, FindError>(e),
        },
{
    let all = list.all_items();
    let matches = fuzzy_find(all.as_slice(), target, threshold);
    if matches.len() == 0 {
        proof {
            lemma_fuzzy_none(list.all(), matches@, target@, threshold);
        }
        return Err(FindError::NotFound);
    }
    if matches.len() == 1 {
        proof {
            lemma_fuzzy_one(list.all(), matches@, target@, threshold);
        }
        let m = matches[0];
        assert(all@[m as int]@ == list.all()[m as int]);
        return match find_item_location_by_anchor(list, all[m].anchor.as_str()) {
            Some(l) => Ok(l),
            None => Err(FindError::NotFound),
        };
    }
    proof {
        let a = matches@[0] as int;
        let b = matches@[1] as int;
        assert(a != b);
        assert(fuzzy_score(list.all()[a].text, target@, threshold) is Some);
        assert(fuzzy_score(list.all()[b].text, target@, threshold) is Some);
        lemma_fuzzy_many(list.all(), target@, threshold, a, b);
    }
    Err(FindError::Ambiguous)
}

/// An item with its status replaced.
pub open spec fn with_status(it: ItemView, status: ItemStatus) -> ItemView {
    ItemView { status, ..it }
}

/// Whether two lists have the same shape: as many uncategorized items, and
/// the same categories in the same order with as many items each.
pub open spec fn same_layout(a: List, b: List) -> bool {
    &&& a.uncategorized().len() == b.uncategorized().len()
    &&& a.cats().len() == b.cats().len()
    &&& forall|c: int| 0 <= c < a.cats().len() ==> (#[trigger] a.cats()[c]).name == b.cats()[c].name
        && a.cats()[c].items.len() == b.cats()[c].items.len()
}

/// Replace the item at a valid location, returning a copy of the new item.
pub(crate) fn replace_item_at(list: &mut List, loc: ItemLocation, item: ListItem) -> (r: ListItem)
    requires
        location_valid(old(list).uncategorized(), old(list).cats(), loc),
    ensures
        r@ == item@,
        final(list).all() == old(list).all().update(
            location_index(old(list).uncategorized(), old(list).cats(), loc),
            item@,
        ),
        match loc {
            ItemLocation::Uncategorized(i) => final(list).uncategorized() == old(list).uncategorized().update(i as int, item@)
                && final(list).cats() == old(list).cats(),
            ItemLocation::Categorized { category_index: c, item_index: i } => final(list).uncategorized()
                == old(list).uncategorized() && final(list).cats() == cats_with_item_at(
                old(list).cats(),
                c as int,
                i as int,
                item@,
            ),
        },
        same_layout(*old(list), *final(list)),
        final(list).metadata == old(list).metadata,
        final(list).items == old(list).items,
{
    let r = copy_item(&item);
    proof {
        lemma_location_update(list.uncategorized(), list.cats(), loc, item@);
    }
    match loc {
        ItemLocation::Uncategorized(i) => {
            let ghost v0 = list.uncategorized_items@;
            let ghost cats0 = list.cats();
            list.uncategorized_items.set(i, item);
            assert(items_view(list.uncategorized_items@) =~= items_view(v0).update(i as int, item@));
            assert(list.cats() == cats0);
            assert(list.all() == list.uncategorized() + category_items(list.cats()));
        },
        ItemLocation::Categorized { category_index: c, item_index: i } => {
            let ghost cats0 = list.categories@;
            let mut cat = Category { name: String::new(), items: Vec::new() };
            list.categories.set_and_swap(c, &mut cat);
            let ghost items0 = cat.items@;
            cat.items.set(i, item);
            assert(items_view(cat.items@) =~= items_view(items0).update(i as int, item@));
            let ghost c2 = cat;
            list.categories.set_and_swap(c, &mut cat);
            proof {
                assert(list.categories@ =~= cats0.update(c as int, c2));
                lemma_categories_view_update(cats0, c as int, c2);
            }
        },
    }
    r
}

/// Remove the item at a valid location and return it.
pub fn remove_item_at_location(list: &mut List, location: ItemLocation) -> (r: ListItem)
    requires
        location_valid(old(list).uncategorized(), old(list).cats(), location),
    ensures
        r@ == item_at(old(list).uncategorized(), old(list).cats(), location),
        final(list).all() == old(list).all().remove(
            location_index(old(list).uncategorized(), old(list).cats(), location),
        ),
        match location {
            ItemLocation::Uncategorized(i) => final(list).uncategorized() == old(list).uncategorized().remove(i as int)
                && final(list).cats() == old(list).cats(),
            ItemLocation::Categorized { category_index: c, item_index: i } => final(list).uncategorized()
                == old(list).uncategorized() && final(list).cats() == cats_without_item_at(
                old(list).cats(),
                c as int,
                i as int,
            ),
        },
        final(list).metadata == old(list).metadata,
        final(list).items == old(list).items,
{
    proof {
        lemma_location_remove(list.uncategorized(), list.cats(), location);
    }
    match location {
        ItemLocation::Uncategorized(idx) => {
            let ghost v0 = list.uncategorized_items@;
            let ghost cats0 = list.cats();
            let it = list.uncategorized_items.remove(idx);
            assert(items_view(list.uncategorized_items@) =~= items_view(v0).remove(idx as int));
            assert(list.cats() == cats0);
            it
        },
        ItemLocation::Categorized { category_index, item_index } => {
            let ghost cats0 = list.categories@;
            let mut cat = Category { name: String::new(), items: Vec::new() };
            list.categories.set_and_swap(category_index, &mut cat);
            let ghost items0 = cat.items@;
            let it = cat.items.remove(item_index);
            assert(items_view(cat.items@) =~= items_view(items0).remove(item_index as int));
            let ghost c2 = cat;
            list.categories.set_and_swap(category_index, &mut cat);
            proof {
                assert(list.categories@ =~= cats0.update(category_index as int, c2));
                lemma_categories_view_update(cats0, category_index as int, c2);
            }
            it
        },
    }
}

/// Find the item that `target` names and set its status; returns the
/// changed item.
pub fn find_and_set_item_status(list: &mut List, target: &str, status: ItemStatus, threshold: i64) -> (r: Result<ListItem, FindError>)
    ensures
        match target_index(old(list).all(), target@, threshold) {
            Ok(g) => r matches Ok(item) && item@ == with_status(old(list).all()[g], status)
                && final(list).all() == old(list).all().update(g, item@),
            Err(e) => r == Err::<ListItem, FindError>(e) && *final(list) == *old(list),
        },
        same_layout(*old(list), *final(list)),
        final(list).metadata == old(list).metadata,
        final(list).items == old(list).items,
{
    match find_item_for_removal(list, target, threshold) {
        Ok(loc) => {
            let ghost u = list.uncategorized();
            let ghost cv = list.cats();
            proof {
                lemma_location_index(u, cv, loc);
            }
            let current = match loc {
                ItemLocation::Uncategorized(i) => copy_item(&list.uncategorized_items[i]),
                ItemLocation::Categorized { category_index: c, item_index: i } => {
                    assert(cv[c as int] == list.categories@[c as int]@);
                    copy_item(&list.categories[c].items[i])
                },
            };
            let item = ListItem { text: current.text, status, anchor: current.anchor };
            let r = replace_item_at(list, loc, item);
            proof {
                if let ItemLocation::Categorized { category_index: c, item_index: i } = loc {
                    assert forall|k: int| 0 <= k < cv.len() implies (#[trigger] cv[k]).name == list.cats()[k].name
                        && cv[k].items.len() == list.cats()[k].items.len() by {
                        if k == c as int {
                        } else {
                        }
                    }
                }
            }
            Ok(r)
        },
        Err(e) => Err(e),
    }
}

/// Mark the item that `target` names as done.
pub fn mark_item_done(list: &mut List, target: &str, threshold: i64) -> (r: Result<ListItem, FindError>)
    ensures
        match target_index(old(list).all(), target@, threshold) {
            Ok(g) => r matches Ok(item) && item@ == with_status(old(list).all()[g], ItemStatus::Done)
                && final(list).all() == old(list).all().update(g, item@),
            Err(e) => r == Err::<ListItem, FindError>(e) && *final(list) == *old(list),
        },
        same_layout(*old(list), *final(list)),
        final(list).metadata == old(list).metadata,
{
    find_and_set_item_status(list, target, ItemStatus::Done, threshold)
}

/// Mark the item that `target` names as not done.
pub fn mark_item_undone(list: &mut List, target: &str, threshold: i64) -> (r: Result<ListItem, FindError>)
    ensures
        match target_index(old(list).all(), target@, threshold) {
            Ok(g) => r matches Ok(item) && item@ == with_status(old(list).all()[g], ItemStatus::Todo)
                && final(list).all() == old(list).all().update(g, item@),
            Err(e) => r == Err::<ListItem, FindError>(e) && *final(list) == *old(list),
        },
        same_layout(*old(list), *final(list)),
        final(list).metadata == old(list).metadata,
{
    find_and_set_item_status(list, target, ItemStatus::Todo, threshold)
}

/// The targets of a comma-separated target string, each trimmed.
pub open spec fn target_pieces(t: Seq<char>) -> Seq<Seq<char>> {
    split_at_char(t, ',').map_values(|p: Seq<char>| trim_spec(p))
}

/// Setting the status of the items that `targets` name, one target after
/// the other: the items afterwards, and the changed items in order.
pub open spec fn mark_all(all: Seq<ItemView>, targets: Seq<Seq<char>>, status: ItemStatus, threshold: i64) -> (Seq<ItemView>, Seq<ItemView>)
    decreases targets.len(),
{
    if targets.len() == 0 {
        (all, Seq::empty())
    } else {
        let (a, m) = mark_all(all, targets.drop_last(), status, threshold);
        match target_index(a, targets.last(), threshold) {
            Ok(i) => (a.update(i, with_status(a[i], status)), m.push(with_status(a[i], status))),
            Err(_) => (a, m),
        }
    }
}

/// What setting the status of the items that `t` names gives: with a comma,
/// each trimmed piece is a target and it is an error only when none names an
/// item; else `t` is one target.
pub open spec fn marking(all: Seq<ItemView>, t: Seq<char>, status: ItemStatus, threshold: i64) -> Result<(Seq<ItemView>, Seq<ItemView>), EditError> {
    if exists|i: int| 0 <= i < t.len() && t[i] == ',' {
        let (a, m) = mark_all(all, target_pieces(t), status, threshold);
        if m.len() == 0 {
            Err(EditError::NoMatchingItems)
        } else {
            Ok((a, m))
        }
    } else {
        match target_index(all, t, threshold) {
            Ok(i) => Ok((all.update(i, with_status(all[i], status)), seq![with_status(all[i], status)])),
            Err(_) => Err(EditError::NoMatchingItem),
        }
    }
}

proof fn lemma_mark_all_unchanged(all: Seq<ItemView>, targets: Seq<Seq<char>>, status: ItemStatus, threshold: i64)
    requires
        mark_all(all, targets, status, threshold).1.len() == 0,
    ensures
        mark_all(all, targets, status, threshold).0 == all,
    decreases targets.len(),
{
    if targets.len() > 0 {
        let (a, m) = mark_all(all, targets.drop_last(), status, threshold);
        if let Ok(i) = target_index(a, targets.last(), threshold) {
            assert(m.push(with_status(a[i], status)).len() > 0);
        } else {
            lemma_mark_all_unchanged(all, targets.drop_last(), status, threshold);
        }
    }
}

proof fn lemma_same_layout_trans(a: List, b: List, c: List)
    requires
        same_layout(a, b),
        same_layout(b, c),
    ensures
        same_layout(a, c),
{
    assert forall|k: int| 0 <= k < a.cats().len() implies (#[trigger] a.cats()[k]).name == c.cats()[k].name
        && a.cats()[k].items.len() == c.cats()[k].items.len() by {
        assert(b.cats()[k].name == c.cats()[k].name);
    }
}

/// Set the status of the items that the trimmed `pieces` name, one after
/// the other; returns the changed items.
fn set_each_target_status(list: &mut List, pieces: &Vec<Vec<char>>, status: ItemStatus, threshold: i64) -> (r: Vec<ListItem>)
    ensures
        (final(list).all(), items_view(r@)) == mark_all(
            old(list).all(),
            pieces@.map_values(|p: Vec<char>| trim_spec(p@)),
            status,
            threshold,
        ),
        same_layout(*old(list), *final(list)),
        final(list).metadata == old(list).metadata,
{
    let ghost l0 = *list;
    let ghost ts = pieces@.map_values(|p: Vec<char>| trim_spec(p@));
    let mut marked: Vec<ListItem> = Vec::new();
    let mut k: usize = 0;
    assert(ts.take(0) =~= Seq::<Seq<char>>::empty());
    assert(items_view(marked@) =~= Seq::<ItemView>::empty());
    while k < pieces.len()
        invariant
            k <= pieces@.len(),
            ts == pieces@.map_values(|p: Vec<char>| trim_spec(p@)),
            (list.all(), items_view(marked@)) == mark_all(l0.all(), ts.take(k as int), status, threshold),
            same_layout(l0, *list),
            list.metadata == l0.metadata,
        decreases pieces@.len() - k,
    {
        let piece = crate::text::trim_chars(&pieces[k]);
        let t = string_of(&piece);
        let ghost before = *list;
        assert(ts.take(k + 1).drop_last() =~= ts.take(k as int));
        assert(ts.take(k + 1).last() == t@);
        match find_and_set_item_status(list, t.as_str(), status, threshold) {
            Ok(item) => {
                let ghost old_m = marked@;
                marked.push(item);
                proof {
                    assert(items_view(marked@) =~= items_view(old_m).push(item@));
                }
            },
            Err(_) => {},
        }
        proof {
            lemma_same_layout_trans(l0, before, *list);
        }
        k = k + 1;
    }
    assert(ts.take(k as int) =~= ts);
    marked
}

/// Set the status of the items that `target` names (see [`marking`]).
fn set_targets_status(list: &mut List, target: &str, status: ItemStatus, threshold: i64) -> (r: Result<Vec<ListItem>, EditError>)
    ensures
        match marking(old(list).all(), target@, status, threshold) {
            Ok((a, m)) => r matches Ok(v) && items_view(v@) == m && final(list).all() == a,
            Err(e) => r == Err::<Vec<ListItem>, EditError>(e) && final(list).all() == old(list).all(),
        },
        same_layout(*old(list), *final(list)),
        final(list).metadata == old(list).metadata,
{
    let ghost all0 = list.all();
    let cs = chars_of(target);
    if !contains_char(&cs, ',') {
        return match find_and_set_item_status(list, target, status, threshold) {
            Ok(item) => {
                let mut v: Vec<ListItem> = Vec::new();
                let ghost it = item;
                v.push(item);
                assert(items_view(v@) =~= seq![it@]);
                Ok(v)
            },
            Err(_) => Err(EditError::NoMatchingItem),
        };
    }
    let pieces = split_chars(&cs, ',');
    proof {
        assert(pieces@.map_values(|p: Vec<char>| trim_spec(p@)) =~= target_pieces(target@));
    }
    let marked = set_each_target_status(list, &pieces, status, threshold);
    if marked.len() == 0 {
        proof {
            lemma_mark_all_unchanged(all0, target_pieces(target@), status, threshold);
        }
        return Err(EditError::NoMatchingItems);
    }
    Ok(marked)
}

/// Mark as done the items that `target` names: one target, or several
/// separated by commas; returns the changed items.
pub fn mark_done(list: &mut List, target: &str, threshold: i64) -> (r: Result<Vec<ListItem>, EditError>)
    ensures
        match marking(old(list).all(), target@, ItemStatus::Done, threshold) {
            Ok((a, m)) => r matches Ok(v) && items_view(v@) == m && final(list).all() == a,
            Err(e) => r == Err::<Vec<ListItem>, EditError>(e) && final(list).all() == old(list).all(),
        },
        same_layout(*old(list), *final(list)),
        final(list).metadata == old(list).metadata,
{
    set_targets_status(list, target, ItemStatus::Done, threshold)
}

/// Mark as not done the items that `target` names: one target, or several
/// separated by commas; returns the changed items.
pub fn mark_undone(list: &mut List, target: &str, threshold: i64) -> (r: Result<Vec<ListItem>, EditError>)
    ensures
        match marking(old(list).all(), target@, ItemStatus::Todo, threshold) {
            Ok((a, m)) => r matches Ok(v) && items_view(v@) == m && final(list).all() == a,
            Err(e) => r == Err::<Vec<ListItem>, EditError>(e) && final(list).all() == old(list).all(),
        },
        same_layout(*old(list), *final(list)),
        final(list).metadata == old(list).metadata,
{
    set_targets_status(list, target, ItemStatus::Todo, threshold)
}

/// The location whose item sits at position `g` among all items, if any.
pub open spec fn location_at(uncat: Seq<ItemView>, cats: Seq<CategoryView>, g: int) -> Option<ItemLocation> {
    if exists|loc: ItemLocation| location_valid(uncat, cats, loc) && location_index(uncat, cats, loc) == g {
        Some(choose|loc: ItemLocation| location_valid(uncat, cats, loc) && location_index(uncat, cats, loc) == g)
    } else {
        None
    }
}

/// The location of the item that a target names, if it names one.
pub open spec fn find_target(uncat: Seq<ItemView>, cats: Seq<CategoryView>, t: Seq<char>, threshold: i64) -> Option<ItemLocation> {
    match target_index(uncat + category_items(cats), t, threshold) {
        Ok(g) => location_at(uncat, cats, g),
        Err(_) => None,
    }
}

/// The uncategorized items and categories without the item at `loc`.
pub open spec fn without_location(uncat: Seq<ItemView>, cats: Seq<CategoryView>, loc: ItemLocation) -> (Seq<ItemView>, Seq<CategoryView>) {
    match loc {
        ItemLocation::Uncategorized(i) => (uncat.remove(i as int), cats),
        ItemLocation::Categorized { category_index: c, item_index: i } => (uncat, cats_without_item_at(cats, c as int, i as int)),
    }
}

proof fn lemma_items_before_grow(cats: Seq<CategoryView>, a: int, b: int)
    requires
        0 <= a < b <= cats.len(),
    ensures
        category_items(cats.take(a)).len() + cats[a].items.len() <= category_items(cats.take(b)).len(),
{
    let tb = cats.take(b);
    lemma_category_items_split(tb, a);
    assert(tb.take(a) =~= cats.take(a));
    assert(tb[a] == cats[a]);
}

/// Two valid locations of the same position are the same location.
pub proof fn lemma_location_unique(uncat: Seq<ItemView>, cats: Seq<CategoryView>, l1: ItemLocation, l2: ItemLocation)
    requires
        location_valid(uncat, cats, l1),
        location_valid(uncat, cats, l2),
        location_index(uncat, cats, l1) == location_index(uncat, cats, l2),
    ensures
        l1 == l2,
{
    if let (
        ItemLocation::Categorized { category_index: c1, item_index: i1 },
        ItemLocation::Categorized { category_index: c2, item_index: i2 },
    ) = (l1, l2) {
        if c1 < c2 {
            lemma_items_before_grow(cats, c1 as int, c2 as int);
        } else if c2 < c1 {
            lemma_items_before_grow(cats, c2 as int, c1 as int);
        }
    }
}

/// A target that names the item at a valid location finds that location.
pub proof fn lemma_find_target(uncat: Seq<ItemView>, cats: Seq<CategoryView>, t: Seq<char>, threshold: i64, loc: ItemLocation)
    requires
        location_valid(uncat, cats, loc),
        target_index(uncat + category_items(cats), t, threshold) == Ok::<int, FindError>(location_index(uncat, cats, loc)),
    ensures
        find_target(uncat, cats, t, threshold) == Some(loc),
{
    let g = location_index(uncat, cats, loc);
    let l = choose|l: ItemLocation| location_valid(uncat, cats, l) && location_index(uncat, cats, l) == g;
    lemma_location_unique(uncat, cats, l, loc);
}

/// Add a new to-do item with a fresh anchor to a list's uncategorized
/// items; returns the new item.
pub fn add_item(list: &mut List, text: &str) -> (r: ListItem)
    ensures
        r.text@ == text@,
        r.status == ItemStatus::Todo,
        generated_anchor(r.anchor@),
        final(list).uncategorized() == old(list).uncategorized().push(r@),
        final(list).cats() == old(list).cats(),
        final(list).metadata.title == old(list).metadata.title,
        final(list).metadata.id == old(list).metadata.id,
{
    list.add_item(crate::text::owned(text))
}

/// Add a new to-do item with a fresh anchor to the named category of a
/// list (created when missing), or to its uncategorized items; returns the
/// new item.
pub fn add_item_to_category(list: &mut List, text: &str, category: Option<&str>) -> (r: ListItem)
    ensures
        r.text@ == text@,
        r.status == ItemStatus::Todo,
        generated_anchor(r.anchor@),
        match category {
            Some(name) => final(list).cats() == cats_with_item(old(list).cats(), name@, r@)
                && final(list).uncategorized() == old(list).uncategorized(),
            None => final(list).uncategorized() == old(list).uncategorized().push(r@)
                && final(list).cats() == old(list).cats(),
        },
        final(list).metadata.title == old(list).metadata.title,
        final(list).metadata.id == old(list).metadata.id,
{
    list.add_item_to_category(crate::text::owned(text), category)
}

/// Remove every item of a list; returns how many there were. An empty list
/// is left as it is.
pub fn wipe_list(list: &mut List) -> (r: usize)
    requires
        old(list).all().len() <= usize::MAX,
    ensures
        r == old(list).all().len(),
        r == 0 ==> *final(list) == *old(list),
        r > 0 ==> final(list).uncategorized_items@.len() == 0 && final(list).categories@.len() == 0
            && final(list).metadata.id == old(list).metadata.id
            && final(list).metadata.title == old(list).metadata.title
            && final(list).metadata.sharing == old(list).metadata.sharing,
{
    let mut removed: usize = list.uncategorized_items.len();
    let ghost cv = list.cats();
    let mut i: usize = 0;
    assert(cv.take(0) =~= Seq::<CategoryView>::empty());
    while i < list.categories.len()
        invariant
            i <= list.categories@.len(),
            cv == list.cats(),
            list.all().len() <= usize::MAX,
            removed == list.uncategorized().len() + category_items(cv.take(i as int)).len(),
        decreases list.categories@.len() - i,
    {
        proof {
            lemma_category_items_split(cv, i as int);
            lemma_category_items_split(cv, cv.len() - 1);
            lemma_category_items_concat(cv.take(i + 1), cv.skip(i + 1));
            assert(cv =~= cv.take(i + 1) + cv.skip(i + 1));
        }
        assert(list.categories@[i as int].items@.len() == cv[i as int].items.len());
        removed = removed + list.categories[i].items.len();
        i = i + 1;
    }
    assert(cv.take(i as int) =~= cv);
    if removed == 0 {
        return 0;
    }
    list.uncategorized_items.clear();
    list.categories.clear();
    list.metadata.updated = now_rfc3339();
    removed
}

/// Move the item that `target` names to position `new_index` of the
/// uncategorized items (or to their end, when `new_index` is past it).
pub fn reorder_item(list: &mut List, target: &str, new_index: usize, threshold: i64) -> (r: Result<(), EditError>)
    ensures
        match find_target(old(list).uncategorized(), old(list).cats(), target@, threshold) {
            Some(loc) => r is Ok && {
                let it = item_at(old(list).uncategorized(), old(list).cats(), loc);
                let (u, c) = without_location(old(list).uncategorized(), old(list).cats(), loc);
                let at = if new_index < u.len() { new_index as int } else { u.len() as int };
                &&& final(list).uncategorized() == u.insert(at, it)
                &&& final(list).cats() == c
            },
            None => r == Err::<(), EditError>(EditError::NoMatchingItem) && *final(list) == *old(list),
        },
        final(list).metadata.id == old(list).metadata.id,
        final(list).metadata.title == old(list).metadata.title,
        final(list).metadata.sharing == old(list).metadata.sharing,
{
    match find_item_for_removal(list, target, threshold) {
        Ok(location) => {
            proof {
                lemma_find_target(list.uncategorized(), list.cats(), target@, threshold, location);
            }
            let item = remove_item_at_location(list, location);
            let n = list.uncategorized_items.len();
            let at = if new_index < n {
                new_index
            } else {
                n
            };
            let ghost v0 = list.uncategorized_items@;
            list.uncategorized_items.insert(at, item);
            assert(items_view(list.uncategorized_items@) =~= items_view(v0).insert(at as int, item@));
            list.metadata.updated = now_rfc3339();
            Ok(())
        },
        Err(_) => Err(EditError::NoMatchingItem),
    }
}

/// The item that `edit_item_text` rewords: the first with the anchor `t`
/// when `t` is a valid anchor, else the first with the anchor of the first
/// item whose text is `t` (ignoring case).
pub open spec fn edit_index(all: Seq<ItemView>, t: Seq<char>) -> Option<int> {
    match anchor_hit(all, t) {
        Some(i) => Some(i),
        None => match first_index(all, text_matches(t)) {
            Some(j) => first_index(all, has_anchor(all[j].anchor)),
            None => None,
        },
    }
}

/// Replace the text of the item that `target` names (by anchor or by
/// text); refused when the new text is empty or white space.
pub fn edit_item_text(list: &mut List, target: &str, new_text: &str) -> (r: Result<(), EditError>)
    ensures
        trim_spec(new_text@).len() == 0 ==> r == Err::<(), EditError>(EditError::EmptyText) && *final(list) == *old(list),
        trim_spec(new_text@).len() > 0 ==> match edit_index(old(list).all(), target@) {
            Some(g) => r is Ok && final(list).all() == old(list).all().update(
                g,
                ItemView { text: new_text@, ..old(list).all()[g] },
            ) && same_layout(*old(list), *final(list)),
            None => r == Err::<(), EditError>(EditError::NoMatchingItem) && *final(list) == *old(list),
        },
        final(list).metadata.id == old(list).metadata.id,
        final(list).metadata.title == old(list).metadata.title,
        final(list).metadata.sharing == old(list).metadata.sharing,
{
    let nt = chars_of(new_text);
    if crate::text::trim_chars(&nt).len() == 0 {
        return Err(EditError::EmptyText);
    }
    let ghost u = list.uncategorized();
    let ghost cv = list.cats();
    let by_anchor = if is_valid_anchor(target) {
        find_item_location_by_anchor(list, target)
    } else {
        None
    };
    let found = match by_anchor {
        Some(l) => Some(l),
        None => match find_item_location_by_text(list, target) {
            Some(l) => {
                proof {
                    lemma_location_index(u, cv, l);
                }
                let a = match l {
                    ItemLocation::Uncategorized(i) => crate::text::owned(list.uncategorized_items[i].anchor.as_str()),
                    ItemLocation::Categorized { category_index: c, item_index: i } => {
                        assert(cv[c as int] == list.categories@[c as int]@);
                        crate::text::owned(list.categories[c].items[i].anchor.as_str())
                    },
                };
                proof {
                    assert(has_anchor(a@)(list.all()[location_index(u, cv, l)]));
                }
                find_item_location_by_anchor(list, a.as_str())
            },
            None => None,
        },
    };
    match found {
        Some(loc) => {
            proof {
                lemma_location_index(u, cv, loc);
            }
            let current = match loc {
                ItemLocation::Uncategorized(i) => copy_item(&list.uncategorized_items[i]),
                ItemLocation::Categorized { category_index: c, item_index: i } => {
                    assert(cv[c as int] == list.categories@[c as int]@);
                    copy_item(&list.categories[c].items[i])
                },
            };
            let item = ListItem { text: crate::text::owned(new_text), status: current.status, anchor: current.anchor };
            replace_item_at(list, loc, item);
            list.metadata.updated = now_rfc3339();
            Ok(())
        },
        None => Err(EditError::NoMatchingItem),
    }
}

/// Removing the items that `targets` name, one target after the other: the
/// uncategorized items and categories afterwards, and the removed items in
/// order.
pub open spec fn delete_all(uncat: Seq<ItemView>, cats: Seq<CategoryView>, targets: Seq<Seq<char>>, threshold: i64) -> (Seq<ItemView>, Seq<CategoryView>, Seq<ItemView>)
    decreases targets.len(),
{
    if targets.len() == 0 {
        (uncat, cats, Seq::empty())
    } else {
        let (u, c, m) = delete_all(uncat, cats, targets.drop_last(), threshold);
        match find_target(u, c, targets.last(), threshold) {
            Some(loc) => {
                let (u2, c2) = without_location(u, c, loc);
                (u2, c2, m.push(item_at(u, c, loc)))
            },
            None => (u, c, m),
        }
    }
}

/// What removing the items that `t` names gives: with a comma, each trimmed
/// piece is a target and it is an error only when none names an item; else
/// `t` is one target.
pub open spec fn deleting(uncat: Seq<ItemView>, cats: Seq<CategoryView>, t: Seq<char>, threshold: i64) -> Result<(Seq<ItemView>, Seq<CategoryView>, Seq<ItemView>), EditError> {
    if exists|i: int| 0 <= i < t.len() && t[i] == ',' {
        let (u, c, m) = delete_all(uncat, cats, target_pieces(t), threshold);
        if m.len() == 0 {
            Err(EditError::NoMatchingItems)
        } else {
            Ok((u, c, m))
        }
    } else {
        match find_target(uncat, cats, t, threshold) {
            Some(loc) => {
                let (u, c) = without_location(uncat, cats, loc);
                Ok((u, c, seq![item_at(uncat, cats, loc)]))
            },
            None => Err(EditError::NoMatchingItem),
        }
    }
}

proof fn lemma_delete_all_unchanged(uncat: Seq<ItemView>, cats: Seq<CategoryView>, targets: Seq<Seq<char>>, threshold: i64)
    requires
        delete_all(uncat, cats, targets, threshold).2.len() == 0,
    ensures
        delete_all(uncat, cats, targets, threshold).0 == uncat,
        delete_all(uncat, cats, targets, threshold).1 == cats,
    decreases targets.len(),
{
    if targets.len() > 0 {
        let (u, c, m) = delete_all(uncat, cats, targets.drop_last(), threshold);
        if let Some(loc) = find_target(u, c, targets.last(), threshold) {
            assert(m.push(item_at(u, c, loc)).len() > 0);
        } else {
            lemma_delete_all_unchanged(uncat, cats, targets.drop_last(), threshold);
        }
    }
}

/// Remove the item that `target` names, if it names one.
fn delete_target(list: &mut List, target: &str, threshold: i64) -> (r: Option<ListItem>)
    ensures
        match find_target(old(list).uncategorized(), old(list).cats(), target@, threshold) {
            Some(loc) => r matches Some(item) && item@ == item_at(old(list).uncategorized(), old(list).cats(), loc)
                && (final(list).uncategorized(), final(list).cats()) == without_location(
                old(list).uncategorized(),
                old(list).cats(),
                loc,
            ),
            None => r is None && *final(list) == *old(list),
        },
        final(list).metadata == old(list).metadata,
{
    match find_item_for_removal(list, target, threshold) {
        Ok(location) => {
            proof {
                lemma_find_target(list.uncategorized(), list.cats(), target@, threshold, location);
            }
            Some(remove_item_at_location(list, location))
        },
        Err(_) => None,
    }
}

/// Remove the items that the trimmed `pieces` name, one after the other.
fn delete_each_target(list: &mut List, pieces: &Vec<Vec<char>>, threshold: i64) -> (r: Vec<ListItem>)
    ensures
        (final(list).uncategorized(), final(list).cats(), items_view(r@)) == delete_all(
            old(list).uncategorized(),
            old(list).cats(),
            pieces@.map_values(|p: Vec<char>| trim_spec(p@)),
            threshold,
        ),
        r@.len() == 0 ==> *final(list) == *old(list),
        final(list).metadata == old(list).metadata,
{
    let ghost l0 = *list;
    let ghost ts = pieces@.map_values(|p: Vec<char>| trim_spec(p@));
    let mut removed: Vec<ListItem> = Vec::new();
    let mut k: usize = 0;
    assert(ts.take(0) =~= Seq::<Seq<char>>::empty());
    assert(items_view(removed@) =~= Seq::<ItemView>::empty());
    while k < pieces.len()
        invariant
            k <= pieces@.len(),
            ts == pieces@.map_values(|p: Vec<char>| trim_spec(p@)),
            (list.uncategorized(), list.cats(), items_view(removed@)) == delete_all(
                l0.uncategorized(),
                l0.cats(),
                ts.take(k as int),
                threshold,
            ),
            removed@.len() == 0 ==> *list == l0,
            list.metadata == l0.metadata,
        decreases pieces@.len() - k,
    {
        let piece = crate::text::trim_chars(&pieces[k]);
        let t = string_of(&piece);
        assert(ts.take(k + 1).drop_last() =~= ts.take(k as int));
        assert(ts.take(k + 1).last() == t@);
        match delete_target(list, t.as_str(), threshold) {
            Some(item) => {
                let ghost old_r = removed@;
                removed.push(item);
                proof {
                    assert(items_view(removed@) =~= items_view(old_r).push(item@));
                }
            },
            None => {},
        }
        k = k + 1;
    }
    assert(ts.take(k as int) =~= ts);
    removed
}

/// Adding an item and then deleting it by its anchor leaves the list as it
/// was: the item added to the uncategorized items, under an anchor as
/// generated that no other item carries, is the one item the anchor
/// deletes.
pub proof fn lemma_add_then_delete_by_anchor(uncat: Seq<ItemView>, cats: Seq<CategoryView>, item: ItemView, threshold: i64)
    requires
        generated_anchor(item.anchor),
        forall|i: int| 0 <= i < (uncat + category_items(cats)).len() ==> (#[trigger] (uncat + category_items(cats))[i]).anchor != item.anchor,
        uncat.len() < usize::MAX,
    ensures
        deleting(uncat.push(item), cats, item.anchor, threshold) == Ok::<(Seq<ItemView>, Seq<CategoryView>, Seq<ItemView>), EditError>((uncat, cats, seq![item])),
{
    let a = item.anchor;
    let u = uncat.push(item);
    let all = u + category_items(cats);
    let g = uncat.len() as int;
    assert(!(exists|i: int| 0 <= i < a.len() && a[i] == ',')) by {
        if exists|i: int| 0 <= i < a.len() && a[i] == ',' {
            let i = choose|i: int| 0 <= i < a.len() && a[i] == ',';
            if i > 0 {
                assert(is_ascii_alnum(a[i]));
            }
        }
    }
    assert(valid_anchor(a)) by {
        assert forall|i: int| 1 <= i < a.len() implies is_anchor_char(#[trigger] a[i]) by {
            assert(is_ascii_alnum(a[i]));
        }
    }
    assert(all[g] == item);
    assert forall|j: int| 0 <= j < g implies !(#[trigger] has_anchor(a)(all[j])) by {
        assert(all[j] == (uncat + category_items(cats))[j]);
    }
    assert(first_index(all, has_anchor(a)) == Some(g));
    assert(target_index(all, a, threshold) == Ok::<int, FindError>(g)) by {
        reveal(target_index);
    }
    let loc = ItemLocation::Uncategorized(g as usize);
    assert(location_valid(u, cats, loc) && location_index(u, cats, loc) == g);
    let l = choose|l: ItemLocation| location_valid(u, cats, l) && location_index(u, cats, l) == g;
    assert(l == loc) by {
        match l {
            ItemLocation::Uncategorized(i) => {},
            ItemLocation::Categorized { category_index: c, item_index: i } => {
                assert(location_index(u, cats, l) >= u.len());
            },
        }
    }
    assert(find_target(u, cats, a, threshold) == Some(loc));
    assert(u.remove(g) =~= uncat);
}

/// Remove the items that `target` names: one target, or several separated
/// by commas; returns the removed items.
pub fn delete_item(list: &mut List, target: &str, threshold: i64) -> (r: Result<Vec<ListItem>, EditError>)
    ensures
        match deleting(old(list).uncategorized(), old(list).cats(), target@, threshold) {
            Ok((u, c, m)) => r matches Ok(v) && items_view(v@) == m && final(list).uncategorized() == u
                && final(list).cats() == c,
            Err(e) => r == Err::<Vec<ListItem>, EditError>(e) && *final(list) == *old(list),
        },
        final(list).metadata.id == old(list).metadata.id,
        final(list).metadata.title == old(list).metadata.title,
        final(list).metadata.sharing == old(list).metadata.sharing,
{
    let ghost u0 = list.uncategorized();
    let ghost c0 = list.cats();
    let cs = chars_of(target);
    if !contains_char(&cs, ',') {
        return match delete_target(list, target, threshold) {
            Some(item) => {
                let mut v: Vec<ListItem> = Vec::new();
                let ghost it = item;
                v.push(item);
                assert(items_view(v@) =~= seq![it@]);
                list.metadata.updated = now_rfc3339();
                Ok(v)
            },
            None => Err(EditError::NoMatchingItem),
        };
    }
    let pieces = split_chars(&cs, ',');
    proof {
        assert(pieces@.map_values(|p: Vec<char>| trim_spec(p@)) =~= target_pieces(target@));
    }
    let ghost l0 = *list;
    let removed = delete_each_target(list, &pieces, threshold);
    if removed.len() == 0 {
        proof {
            lemma_delete_all_unchanged(u0, c0, target_pieces(target@), threshold);
        }
        return Err(EditError::NoMatchingItems);
    }
    list.metadata.updated = now_rfc3339();
    Ok(removed)
}

proof fn lemma_least_witness(s: Seq<ItemView>, p: spec_fn(ItemView) -> bool, k: int)
    requires
        0 <= k < s.len(),
        p(s[k]),
    ensures
        exists|m: int| 0 <= m < s.len() && p(s[m]) && forall|j: int| 0 <= j < m ==> !p(#[trigger] s[j]),
    decreases k,
{
    if exists|j: int| 0 <= j < k && p(#[trigger] s[j]) {
        let j = choose|j: int| 0 <= j < k && p(#[trigger] s[j]);
        lemma_least_witness(s, p, j);
    } else {
        assert(forall|j: int| 0 <= j < k ==> !p(#[trigger] s[j]));
    }
}

/// The first position satisfying `p` is one, and the first.
pub proof fn lemma_first_index(s: Seq<ItemView>, p: spec_fn(ItemView) -> bool)
    ensures
        first_index(s, p) matches Some(i) ==> 0 <= i < s.len() && p(s[i]) && forall|j: int| 0 <= j < i ==> !p(#[trigger] s[j]),
        first_index(s, p) is None ==> forall|j: int| 0 <= j < s.len() ==> !p(#[trigger] s[j]),
{
    if exists|i: int| 0 <= i < s.len() && p(s[i]) {
        let k = choose|i: int| 0 <= i < s.len() && p(s[i]);
        lemma_least_witness(s, p, k);
    }
}

/// A position that satisfies `p` with none before it is the first.
pub proof fn lemma_first_index_is(s: Seq<ItemView>, p: spec_fn(ItemView) -> bool, k: int)
    requires
        0 <= k < s.len(),
        p(s[k]),
        forall|j: int| 0 <= j < k ==> !p(#[trigger] s[j]),
    ensures
        first_index(s, p) == Some(k),
{
    lemma_first_index(s, p);
    let f = first_index(s, p)->0;
    if f < k {
        assert(!p(s[f]));
    } else if f > k {
        assert(!p(s[k]));
    }
}

proof fn lemma_fuzzy_hit_in_range(all: Seq<ItemView>, t: Seq<char>, threshold: i64)
    ensures
        fuzzy_hit(all, t, threshold) matches Ok(i) ==> 0 <= i < all.len(),
{
    if fuzzy_hit(all, t, threshold) is Ok {
        let k = choose|k: int|
            scores(all, t, threshold, k) && forall|j: int| #[trigger] scores(all, t, threshold, j) ==> j == k;
        assert(has_anchor(all[k].anchor)(all[k]));
        lemma_first_index(all, has_anchor(all[k].anchor));
    }
}

/// A target names an item of the list, if any.
pub proof fn lemma_target_index_in_range(all: Seq<ItemView>, t: Seq<char>, threshold: i64)
    ensures
        target_index(all, t, threshold) matches Ok(i) ==> 0 <= i < all.len(),
{
    reveal(target_index);
    lemma_first_index(all, has_anchor(t));
    lemma_first_index(all, text_matches(t));
    lemma_fuzzy_hit_in_range(all, t, threshold);
}

/// Setting statuses, one target after the other, keeps the number of items
/// and every item's text and anchor.
pub proof fn lemma_mark_all_keeps_items(all: Seq<ItemView>, targets: Seq<Seq<char>>, status: ItemStatus, threshold: i64)
    ensures
        mark_all(all, targets, status, threshold).0.len() == all.len(),
        forall|i: int| 0 <= i < all.len() ==> (#[trigger] mark_all(all, targets, status, threshold).0[i]).text == all[i].text
            && mark_all(all, targets, status, threshold).0[i].anchor == all[i].anchor,
    decreases targets.len(),
{
    if targets.len() > 0 {
        lemma_mark_all_keeps_items(all, targets.drop_last(), status, threshold);
        let (a, m) = mark_all(all, targets.drop_last(), status, threshold);
        lemma_target_index_in_range(a, targets.last(), threshold);
        if let Ok(g) = target_index(a, targets.last(), threshold) {
            let a2 = a.update(g, with_status(a[g], status));
            assert forall|i: int| 0 <= i < all.len() implies (#[trigger] a2[i]).text == all[i].text && a2[i].anchor == all[i].anchor by {
                assert(a[i].text == all[i].text);
            }
        }
    }
}

/// Marking items done or not never changes the number of items, nor any
/// item's text or anchor.
pub proof fn lemma_marking_keeps_items(all: Seq<ItemView>, t: Seq<char>, status: ItemStatus, threshold: i64)
    ensures
        marking(all, t, status, threshold) matches Ok((a, m)) ==> a.len() == all.len() && forall|i: int|
            0 <= i < all.len() ==> (#[trigger] a[i]).text == all[i].text && a[i].anchor == all[i].anchor,
{
    lemma_mark_all_keeps_items(all, target_pieces(t), status, threshold);
    lemma_target_index_in_range(all, t, threshold);
}

/// Marking an item done by its anchor, then undone by the same anchor,
/// gives the items back as they were, when the item was not done before.
pub proof fn lemma_mark_done_then_undone(all: Seq<ItemView>, a: Seq<char>, threshold: i64)
    requires
        valid_anchor(a),
        first_index(all, has_anchor(a)) matches Some(i) && all[i].status == ItemStatus::Todo,
    ensures
        marking(all, a, ItemStatus::Done, threshold) matches Ok((after, m)) && marking(
            after,
            a,
            ItemStatus::Todo,
            threshold,
        ) matches Ok((back, m2)) && back == all,
{
    reveal(target_index);
    let i = first_index(all, has_anchor(a))->0;
    lemma_first_index(all, has_anchor(a));
    assert forall|k: int| !(0 <= k < a.len() && a[k] == ',') by {
        if 0 <= k < a.len() && a[k] == ',' {
            if k > 0 {
                assert(crate::list::is_anchor_char(a[k]));
            }
        }
    }
    let after = all.update(i, with_status(all[i], ItemStatus::Done));
    assert(target_index(all, a, threshold) == Ok::<int, FindError>(i));
    assert forall|j: int| 0 <= j < i implies !has_anchor(a)(#[trigger] after[j]) by {
        assert(after[j] == all[j]);
    }
    lemma_first_index_is(after, has_anchor(a), i);
    assert(target_index(after, a, threshold) == Ok::<int, FindError>(i));
    assert(after.update(i, with_status(after[i], ItemStatus::Todo)) =~= all);
}

/// Marking an item done by its text, then undone by the same text, gives
/// the items back as they were, when the first item of that text was not
/// done before and the text is neither an anchor nor a list of targets.
pub proof fn lemma_mark_done_then_undone_by_text(all: Seq<ItemView>, t: Seq<char>, threshold: i64)
    requires
        !valid_anchor(t),
        forall|k: int| 0 <= k < t.len() ==> t[k] != ',',
        first_index(all, text_matches(t)) matches Some(i) && all[i].status == ItemStatus::Todo,
    ensures
        marking(all, t, ItemStatus::Done, threshold) matches Ok((after, m)) && marking(
            after,
            t,
            ItemStatus::Todo,
            threshold,
        ) matches Ok((back, m2)) && back == all,
{
    reveal(target_index);
    let i = first_index(all, text_matches(t))->0;
    lemma_first_index(all, text_matches(t));
    let after = all.update(i, with_status(all[i], ItemStatus::Done));
    assert(target_index(all, t, threshold) == Ok::<int, FindError>(i));
    assert forall|j: int| 0 <= j < i implies !text_matches(t)(#[trigger] after[j]) by {
        assert(after[j] == all[j]);
    }
    assert(text_matches(t)(after[i]));
    lemma_first_index_is(after, text_matches(t), i);
    assert(target_index(after, t, threshold) == Ok::<int, FindError>(i));
    assert(after.update(i, with_status(after[i], ItemStatus::Todo)) =~= all);
}

/// Items with every status set to not done.
pub open spec fn reset_view(s: Seq<ItemView>) -> Seq<ItemView> {
    s.map_values(|it: ItemView| with_status(it, ItemStatus::Todo))
}

/// Categories with every item's status set to not done.
pub open spec fn reset_cats(cats: Seq<CategoryView>) -> Seq<CategoryView> {
    cats.map_values(|c: CategoryView| CategoryView { name: c.name, items: reset_view(c.items) })
}

/// The items that are done, in order, each as it is once set to not done.
pub open spec fn done_items(s: Seq<ItemView>) -> Seq<ItemView>
    decreases s.len(),
{
    if s.len() == 0 {
        Seq::empty()
    } else if s.last().status == ItemStatus::Done {
        done_items(s.drop_last()).push(with_status(s.last(), ItemStatus::Todo))
    } else {
        done_items(s.drop_last())
    }
}

pub proof fn lemma_done_items_concat(a: Seq<ItemView>, b: Seq<ItemView>)
    ensures
        done_items(a + b) == done_items(a) + done_items(b),
    decreases b.len(),
{
    if b.len() == 0 {
        assert(a + b =~= a);
        assert(done_items(a) + done_items(b) =~= done_items(a));
    } else {
        lemma_done_items_concat(a, b.drop_last());
        assert((a + b).drop_last() =~= a + b.drop_last());
        assert((a + b).last() == b.last());
        if b.last().status == ItemStatus::Done {
            assert(done_items(a) + done_items(b) =~= (done_items(a) + done_items(b.drop_last())).push(
                with_status(b.last(), ItemStatus::Todo),
            ));
        }
    }
}

proof fn lemma_reset_cats_items(cats: Seq<CategoryView>)
    ensures
        category_items(reset_cats(cats)) == reset_view(category_items(cats)),
    decreases cats.len(),
{
    if cats.len() > 0 {
        lemma_reset_cats_items(cats.drop_last());
        assert(reset_cats(cats).drop_last() =~= reset_cats(cats.drop_last()));
        assert(reset_view(category_items(cats)) =~= reset_view(category_items(cats.drop_last())) + reset_view(
            cats.last().items,
        ));
    } else {
        assert(reset_view(category_items(cats)) =~= Seq::<ItemView>::empty());
    }
}

proof fn lemma_reset_keeps_todo(s: Seq<ItemView>)
    ensures
        done_items(s).len() == 0 ==> reset_view(s) == s,
    decreases s.len(),
{
    if s.len() > 0 {
        lemma_reset_keeps_todo(s.drop_last());
        if done_items(s).len() == 0 {
            assert(s.last().status == ItemStatus::Todo);
            assert(reset_view(s) =~= reset_view(s.drop_last()).push(with_status(s.last(), ItemStatus::Todo)));
            assert(s =~= s.drop_last().push(s.last()));
        }
    }
}

/// Set every item of `v` to not done; the items that were done are appended
/// to `out`, as they are afterwards.
fn reset_items(v: &mut Vec<ListItem>, out: &mut Vec<ListItem>)
    ensures
        items_view(final(v)@) == reset_view(items_view(old(v)@)),
        items_view(final(out)@) == items_view(old(out)@) + done_items(items_view(old(v)@)),
{
    let ghost v0 = items_view(v@);
    let ghost o0 = items_view(out@);
    let mut i: usize = 0;
    assert(v0.take(0) =~= Seq::<ItemView>::empty());
    assert(o0 + done_items(v0.take(0)) =~= o0);
    while i < v.len()
        invariant
            i <= v@.len(),
            v0.len() == v@.len(),
            items_view(v@) == reset_view(v0.take(i as int)) + v0.skip(i as int),
            items_view(out@) == o0 + done_items(v0.take(i as int)),
        decreases v@.len() - i,
    {
        let ghost before = items_view(v@);
        assert(before[i as int] == v0[i as int]);
        assert(v0.take(i + 1).drop_last() =~= v0.take(i as int));
        assert(v0.take(i + 1).last() == v0[i as int]);
        if v[i].status == ItemStatus::Done {
            let cur = copy_item(&v[i]);
            let item = ListItem { text: cur.text, status: ItemStatus::Todo, anchor: cur.anchor };
            let copy = copy_item(&item);
            let ghost vv = v@;
            v.set(i, item);
            assert(items_view(v@) =~= items_view(vv).update(i as int, item@));
            let ghost oo = out@;
            out.push(copy);
            proof {
                assert(items_view(out@) =~= items_view(oo).push(copy@));
            }
        }
        assert(items_view(v@) =~= reset_view(v0.take(i + 1)) + v0.skip(i + 1));
        i = i + 1;
    }
    assert(v0.take(i as int) =~= v0);
    assert(reset_view(v0) + v0.skip(i as int) =~= reset_view(v0));
}

/// Set every item of a list to not done; returns the items that were done,
/// in order, as they are afterwards.
pub fn reset_list(list: &mut List) -> (r: Result<Vec<ListItem>, EditError>)
    ensures
        final(list).uncategorized() == reset_view(old(list).uncategorized()),
        final(list).cats() == reset_cats(old(list).cats()),
        final(list).all() == reset_view(old(list).all()),
        done_items(old(list).all()).len() == 0 ==> r == Err::<Vec<ListItem>, EditError>(EditError::NoCompletedItems)
            && final(list).all() == old(list).all(),
        done_items(old(list).all()).len() > 0 ==> (r matches Ok(v) && items_view(v@) == done_items(old(list).all())),
        final(list).metadata.id == old(list).metadata.id,
        final(list).metadata.title == old(list).metadata.title,
        final(list).metadata.sharing == old(list).metadata.sharing,
{
    let ghost l0 = *list;
    let ghost u0 = list.uncategorized();
    let ghost c0 = list.cats();
    let mut out: Vec<ListItem> = Vec::new();
    reset_items(&mut list.uncategorized_items, &mut out);
    assert(items_view(out@) =~= done_items(u0));
    let mut k: usize = 0;
    assert(c0.take(0) =~= Seq::<CategoryView>::empty());
    while k < list.categories.len()
        invariant
            k <= list.categories@.len(),
            c0.len() == list.categories@.len(),
            list.uncategorized() == reset_view(u0),
            list.cats() == reset_cats(c0.take(k as int)) + c0.skip(k as int),
            items_view(out@) == done_items(u0) + done_items(category_items(c0.take(k as int))),
            list.metadata == l0.metadata,
            list.items == l0.items,
        decreases list.categories@.len() - k,
    {
        let ghost cats_before = list.categories@;
        let ghost list_before = *list;
        let ghost out_before = items_view(out@);
        let mut cat = Category { name: String::new(), items: Vec::new() };
        list.categories.set_and_swap(k, &mut cat);
        assert(cat@ == c0[k as int]) by {
            assert(list_before.cats()[k as int] == c0.skip(k as int)[0]);
        }
        let ghost cat_before = cat;
        reset_items(&mut cat.items, &mut out);
        let ghost c2 = cat;
        list.categories.set_and_swap(k, &mut cat);
        proof {
            assert(list.categories@ =~= cats_before.update(k as int, c2));
            lemma_categories_view_update(cats_before, k as int, c2);
            assert(reset_cats(c0.take(k + 1)) =~= reset_cats(c0.take(k as int)).push(c2@));
            assert(list.cats() =~= reset_cats(c0.take(k + 1)) + c0.skip(k + 1));
            lemma_category_items_split(c0, k as int);
            lemma_done_items_concat(category_items(c0.take(k as int)), c0[k as int].items);
            assert(items_view(out@) =~= done_items(u0) + done_items(category_items(c0.take(k + 1))));
        }
        k = k + 1;
    }
    proof {
        assert(c0.take(k as int) =~= c0);
        assert(reset_cats(c0) + c0.skip(k as int) =~= reset_cats(c0));
        lemma_reset_cats_items(c0);
        assert(reset_view(u0) + reset_view(category_items(c0)) =~= reset_view(u0 + category_items(c0)));
        lemma_done_items_concat(u0, category_items(c0));
        lemma_reset_keeps_todo(u0 + category_items(c0));
    }
    if out.len() == 0 {
        return Err(EditError::NoCompletedItems);
    }
    list.metadata.updated = now_rfc3339();
    Ok(out)
}

} // verus!
