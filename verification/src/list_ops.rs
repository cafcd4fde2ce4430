//! The list operations that the desktop and mobile apps offer on a loaded
//! list: categories, moving, toggling, editing and removing items, and
//! adding items with inline categories.

use vstd::prelude::*;

use crate::edit::{
    anchor_hit, delete_item, deleting, find_item_for_removal, find_item_location_by_anchor,
    find_item_location_by_global_index, find_target, index_hit, index_reference, item_at, lemma_find_target,
    mark_done, mark_undone, marking, parse_usize, remove_item_at_location, replace_item_at, same_layout,
    scores, target_index, with_status, without_location, EditError, FindError, ItemLocation,
};
use crate::list::{
    cats_with_item, categories_view, category_items, first_index, found_first, fuzzy_find, fuzzy_ranking,
    fuzzy_score, has_anchor, is_valid_anchor, items_view, lemma_found_first, lowercase, now_rfc3339,
    text_matches, to_lowercase, Category, CategoryView, ItemStatus, ItemView, List, ListItem,
};
use crate::parse::{item_input, parse_item_input};
use crate::text::{chars_of, owned, slice_chars, split_at_char, split_chars, str_eq, string_of, trim_chars, trim_spec};

verus! {

broadcast use vstd::string::group_string_axioms;

/// Why a category operation was refused.
#[derive(Debug, Clone, Copy, PartialEq, Eq, Structural)]
pub enum CategoryError {
    /// A category of that name exists already.
    AlreadyExists,
    /// No category has that name.
    NotFound,
}

/// Whether some category is named `name`.
pub open spec fn has_category(cats: Seq<CategoryView>, name: Seq<char>) -> bool {
    exists|i: int| 0 <= i < cats.len() && cats[i].name == name
}

/// The position of the first category named `name`, if any.
pub open spec fn first_category(cats: Seq<CategoryView>, name: Seq<char>) -> Option<int> {
    if has_category(cats, name) {
        Some(choose|i: int| 0 <= i < cats.len() && cats[i].name == name && forall|j: int| 0 <= j < i ==> cats[j].name != name)
    } else {
        None
    }
}

/// The result of the category lookup of `List::category_index` is the
/// first category of that name.
proof fn lemma_first_category(cats: Seq<CategoryView>, name: Seq<char>, r: Option<usize>)
    requires
        match r {
            Some(i) => i < cats.len() && cats[i as int].name == name && forall|j: int| 0 <= j < i ==> (#[trigger] cats[j]).name != name,
            None => forall|j: int| 0 <= j < cats.len() ==> (#[trigger] cats[j]).name != name,
        },
    ensures
        match r {
            Some(i) => first_category(cats, name) == Some(i as int),
            None => first_category(cats, name) is None,
        },
{
    if let Some(i) = r {
        assert(cats[i as int].name == name);
        let k = choose|k: int| 0 <= k < cats.len() && cats[k].name == name && forall|j: int| 0 <= j < k ==> cats[j].name != name;
        if k < i {
            assert(cats[k].name != name);
        } else if i < k {
            assert(cats[i as int].name != name);
        }
    } else {
        if has_category(cats, name) {
            let k = choose|k: int| 0 <= k < cats.len() && cats[k].name == name;
            assert(cats[k].name != name);
        }
    }
}

/// The names of the categories, in order.
pub open spec fn category_names(cats: Seq<CategoryView>) -> Seq<Seq<char>> {
    cats.map_values(|c: CategoryView| c.name)
}

/// The names of a list's categories, in order.
pub fn get_categories(list: &List) -> (r: Vec<String>)
    ensures
        r@.map_values(|s: String| s@) == category_names(list.cats()),
{
    let mut r: Vec<String> = Vec::new();
    let mut i: usize = 0;
    while i < list.categories.len()
        invariant
            i <= list.categories@.len(),
            r@.len() == i,
            forall|k: int| 0 <= k < i ==> (#[trigger] r@[k])@ == list.cats()[k].name,
        decreases list.categories@.len() - i,
    {
        let n = owned(list.categories[i].name.as_str());
        r.push(n);
        assert(list.cats()[i as int].name == list.categories@[i as int].name@);
        i = i + 1;
    }
    assert(r@.map_values(|s: String| s@) =~= category_names(list.cats()));
    r
}

/// Add an empty category, unless one of that name exists.
pub fn create_category(list: &mut List, name: &str) -> (r: Result<(), CategoryError>)
    ensures
        has_category(old(list).cats(), name@) ==> r == Err::<(), CategoryError>(CategoryError::AlreadyExists)
            && *final(list) == *old(list),
        !has_category(old(list).cats(), name@) ==> r is Ok && final(list).cats() == old(list).cats().push(
            CategoryView { name: name@, items: Seq::empty() },
        ) && final(list).uncategorized() == old(list).uncategorized(),
        final(list).metadata.id == old(list).metadata.id,
        final(list).metadata.title == old(list).metadata.title,
{
    let found = list.category_index(name);
    proof {
        lemma_first_category(list.cats(), name@, found);
    }
    if found.is_some() {
        return Err(CategoryError::AlreadyExists);
    }
    let ghost before = list.categories@;
    let c = Category { name: owned(name), items: Vec::new() };
    list.categories.push(c);
    assert(categories_view(list.categories@) =~= categories_view(before).push(c@));
    assert(c@.items =~= Seq::<ItemView>::empty());
    list.metadata.updated = now_rfc3339();
    Ok(())
}

/// Rename the first category named `old_name`, unless a category is named
/// `new_name` already.
pub fn rename_category(list: &mut List, old_name: &str, new_name: &str) -> (r: Result<(), CategoryError>)
    ensures
        has_category(old(list).cats(), new_name@) ==> r == Err::<(), CategoryError>(CategoryError::AlreadyExists)
            && *final(list) == *old(list),
        !has_category(old(list).cats(), new_name@) ==> match first_category(old(list).cats(), old_name@) {
            Some(i) => r is Ok && final(list).cats() == old(list).cats().update(
                i,
                CategoryView { name: new_name@, items: old(list).cats()[i].items },
            ) && final(list).uncategorized() == old(list).uncategorized(),
            None => r == Err::<(), CategoryError>(CategoryError::NotFound) && *final(list) == *old(list),
        },
        final(list).metadata.id == old(list).metadata.id,
        final(list).metadata.title == old(list).metadata.title,
{
    let taken = list.category_index(new_name);
    proof {
        lemma_first_category(list.cats(), new_name@, taken);
    }
    if taken.is_some() {
        return Err(CategoryError::AlreadyExists);
    }
    let found = list.category_index(old_name);
    proof {
        lemma_first_category(list.cats(), old_name@, found);
    }
    match found {
        Some(i) => {
            let ghost before = list.categories@;
            let mut c = list.categories.remove(i);
            c.name = owned(new_name);
            list.categories.insert(i, c);
            assert(list.categories@ =~= before.update(i as int, c));
            assert(categories_view(list.categories@) =~= categories_view(before).update(i as int, c@));
            list.metadata.updated = now_rfc3339();
            Ok(())
        },
        None => Err(CategoryError::NotFound),
    }
}

/// Delete the first category named `name`; its items join the end of the
/// uncategorized items.
pub fn delete_category(list: &mut List, name: &str) -> (r: Result<(), CategoryError>)
    ensures
        match first_category(old(list).cats(), name@) {
            Some(i) => r is Ok && final(list).cats() == old(list).cats().remove(i) && final(list).uncategorized()
                == old(list).uncategorized() + old(list).cats()[i].items,
            None => r == Err::<(), CategoryError>(CategoryError::NotFound) && *final(list) == *old(list),
        },
        final(list).metadata.id == old(list).metadata.id,
        final(list).metadata.title == old(list).metadata.title,
{
    let found = list.category_index(name);
    proof {
        lemma_first_category(list.cats(), name@, found);
    }
    match found {
        Some(i) => {
            let ghost before = list.categories@;
            let ghost u0 = list.uncategorized_items@;
            let mut c = list.categories.remove(i);
            assert(categories_view(list.categories@) =~= categories_view(before).remove(i as int));
            list.uncategorized_items.append(&mut c.items);
            assert(crate::list::items_view(list.uncategorized_items@) =~= crate::list::items_view(u0)
                + categories_view(before)[i as int].items);
            list.metadata.updated = now_rfc3339();
            Ok(())
        },
        None => Err(CategoryError::NotFound),
    }
}


/// The uncategorized items and categories after moving the item at `loc` to
/// the end of the named category (created when missing), or to the end of
/// the uncategorized items.
pub open spec fn moved(
    uncat: Seq<ItemView>,
    cats: Seq<CategoryView>,
    loc: ItemLocation,
    category: Option<Seq<char>>,
) -> (Seq<ItemView>, Seq<CategoryView>) {
    let it = item_at(uncat, cats, loc);
    let (u, c) = without_location(uncat, cats, loc);
    match category {
        Some(name) => (u, cats_with_item(c, name, it)),
        None => (u.push(it), c),
    }
}

/// The text of an optional category name.
pub open spec fn opt_name(category: Option<&str>) -> Option<Seq<char>> {
    match category {
        Some(n) => Some(n@),
        None => None,
    }
}

/// Move the item at a valid location.
fn move_located_item(list: &mut List, loc: ItemLocation, category: Option<&str>)
    requires
        crate::edit::location_valid(old(list).uncategorized(), old(list).cats(), loc),
    ensures
        (final(list).uncategorized(), final(list).cats()) == moved(
            old(list).uncategorized(),
            old(list).cats(),
            loc,
            opt_name(category),
        ),
        final(list).metadata.id == old(list).metadata.id,
        final(list).metadata.title == old(list).metadata.title,
{
    let item = remove_item_at_location(list, loc);
    list.place_item(item, category);
}

/// Move the item that `target` names (by anchor, text, `#N` or fuzzy search)
/// to the end of the named category (created when missing), or to the end
/// of the uncategorized items.
pub fn move_item_to_category(list: &mut List, target: &str, category: Option<&str>, threshold: i64) -> (r: Result<(), FindError>)
    ensures
        match target_index(old(list).all(), target@, threshold) {
            Err(e) => r == Err::<(), FindError>(e) && *final(list) == *old(list),
            Ok(_) => r is Ok && (find_target(old(list).uncategorized(), old(list).cats(), target@, threshold) matches Some(loc)
                && (final(list).uncategorized(), final(list).cats()) == moved(
                old(list).uncategorized(),
                old(list).cats(),
                loc,
                opt_name(category),
            )),
        },
        final(list).metadata.id == old(list).metadata.id,
        final(list).metadata.title == old(list).metadata.title,
{
    match find_item_for_removal(list, target, threshold) {
        Ok(loc) => {
            proof {
                lemma_find_target(list.uncategorized(), list.cats(), target@, threshold, loc);
            }
            move_located_item(list, loc, category);
            Ok(())
        },
        Err(e) => Err(e),
    }
}

/// Why an item named by its anchor could not be changed.
#[derive(Debug, Clone, Copy, PartialEq, Eq, Structural)]
pub enum AnchorError {
    /// No item carries the anchor.
    NotFound,
}

/// The location of the first item carrying `anchor`, if any.
pub open spec fn anchor_location(uncat: Seq<ItemView>, cats: Seq<CategoryView>, anchor: Seq<char>) -> Option<ItemLocation> {
    match first_index(uncat + category_items(cats), has_anchor(anchor)) {
        Some(g) => crate::edit::location_at(uncat, cats, g),
        None => None,
    }
}

/// The location of the first item carrying `anchor`, as a lookup finds it.
fn locate_anchor(list: &List, anchor: &str) -> (r: Option<ItemLocation>)
    ensures
        r == anchor_location(list.uncategorized(), list.cats(), anchor@),
        r matches Some(loc) ==> crate::edit::location_valid(list.uncategorized(), list.cats(), loc),
{
    let r = find_item_location_by_anchor(list, anchor);
    proof {
        if let Some(loc) = r {
            let g = crate::edit::location_index(list.uncategorized(), list.cats(), loc);
            let l = choose|l: ItemLocation| crate::edit::location_valid(list.uncategorized(), list.cats(), l)
                && crate::edit::location_index(list.uncategorized(), list.cats(), l) == g;
            crate::edit::lemma_location_unique(list.uncategorized(), list.cats(), l, loc);
        }
    }
    r
}

/// Move the first item carrying `anchor` to the end of the named category
/// (created when missing), or to the end of the uncategorized items.
pub fn move_anchored_item_to_category(list: &mut List, anchor: &str, category: Option<&str>) -> (r: Result<(), AnchorError>)
    ensures
        match anchor_location(old(list).uncategorized(), old(list).cats(), anchor@) {
            Some(loc) => r is Ok && (final(list).uncategorized(), final(list).cats()) == moved(
                old(list).uncategorized(),
                old(list).cats(),
                loc,
                opt_name(category),
            ),
            None => r == Err::<(), AnchorError>(AnchorError::NotFound) && *final(list) == *old(list),
        },
        final(list).metadata.id == old(list).metadata.id,
        final(list).metadata.title == old(list).metadata.title,
{
    match locate_anchor(list, anchor) {
        Some(loc) => {
            move_located_item(list, loc, category);
            Ok(())
        },
        None => Err(AnchorError::NotFound),
    }
}


/// The threshold of the apps' fuzzy item lookup.
pub const APP_FUZZY_THRESHOLD: i64 = 75;

/// The single item that a fuzzy search for `t` finds, if exactly one.
pub open spec fn single_fuzzy(all: Seq<ItemView>, t: Seq<char>, threshold: i64) -> Option<int> {
    if t.len() > 0 && exists|k: int|
        scores(all, t, threshold, k) && forall|j: int| #[trigger] scores(all, t, threshold, j) ==> j == k {
        Some(
            choose|k: int|
                scores(all, t, threshold, k) && forall|j: int| #[trigger] scores(all, t, threshold, j) ==> j == k,
        )
    } else {
        None
    }
}

/// The item that the apps' lookup finds for `t` among all items: by anchor,
/// by text (ignoring case), by `#N` (counting from one, then the first item
/// with that item's anchor), else the single item a fuzzy search finds.
#[verifier::opaque]
pub open spec fn item_index_for(all: Seq<ItemView>, t: Seq<char>) -> Option<int> {
    match anchor_hit(all, t) {
        Some(i) => Some(i),
        None => match first_index(all, text_matches(t)) {
            Some(i) => Some(i),
            None => match index_hit(all, t) {
                Some(i) => first_index(all, has_anchor(all[i].anchor)),
                None => single_fuzzy(all, t, APP_FUZZY_THRESHOLD),
            },
        },
    }
}

proof fn lemma_single_fuzzy(av: Seq<ItemView>, r: Seq<usize>, t: Seq<char>, threshold: i64)
    requires
        fuzzy_ranking(r, av, t, threshold),
    ensures
        r.len() == 1 ==> r[0] < av.len() && single_fuzzy(av, t, threshold) == Some(r[0] as int),
        r.len() != 1 ==> single_fuzzy(av, t, threshold) is None,
{
    if t.len() > 0 {
        if r.len() == 0 {
            assert forall|k: int| !scores(av, t, threshold, k) by {
                if scores(av, t, threshold, k) {
                    assert(fuzzy_score(av[k].text, t, threshold) is Some);
                }
            }
        } else if r.len() == 1 {
            let m = r[0] as int;
            assert(fuzzy_score(av[m].text, t, threshold) is Some);
            assert(scores(av, t, threshold, m));
            assert forall|j: int| #[trigger] scores(av, t, threshold, j) implies j == m by {
                assert(fuzzy_score(av[j].text, t, threshold) is Some);
                let i = choose|i: int| 0 <= i < r.len() && r[i] == j;
                assert(i == 0);
            }
            let k = choose|k: int|
                scores(av, t, threshold, k) && forall|j: int| #[trigger] scores(av, t, threshold, j) ==> j == k;
            assert(k == m);
        } else {
            let a = r[0] as int;
            let b = r[1] as int;
            assert(fuzzy_score(av[a].text, t, threshold) is Some);
            assert(fuzzy_score(av[b].text, t, threshold) is Some);
            assert(scores(av, t, threshold, a));
            assert(scores(av, t, threshold, b));
            assert(a != b);
            if exists|k: int|
                scores(av, t, threshold, k) && forall|j: int| #[trigger] scores(av, t, threshold, j) ==> j == k {
                let k = choose|k: int|
                    scores(av, t, threshold, k) && forall|j: int| #[trigger] scores(av, t, threshold, j) ==> j == k;
                assert(a == k && b == k);
            }
        }
    }
}

/// Find the item that `target` names, as the apps look it up: by anchor,
/// by text (ignoring case), by `#N`, else the single item a fuzzy search
/// finds; the position among all items.
pub fn find_item_index(list: &List, target: &str) -> (r: Option<usize>)
    ensures
        match item_index_for(list.all(), target@) {
            Some(i) => 0 <= i < list.all().len() && (r matches Some(x) && x == i),
            None => r is None,
        },
{
    reveal(item_index_for);
    let ghost all = list.all();
    if is_valid_anchor(target) {
        let g = list.find_by_anchor(target);
        proof {
            lemma_found_first(g, all, has_anchor(target@));
        }
        if let Some(i) = g {
            return Some(i);
        }
    }
    let g = list.find_by_text(target);
    proof {
        lemma_found_first(g, all, text_matches(target@));
    }
    if let Some(i) = g {
        return Some(i);
    }
    let cs = chars_of(target);
    if cs.len() > 0 && cs[0] == '#' {
        let rest = slice_chars(&cs, 1, cs.len());
        assert(rest@ =~= target@.drop_first());
        if let Some(n) = parse_usize(&rest) {
            assert(index_reference(target@) == Some(n as nat));
            if n >= 1 {
                if let Some(item) = list.get_by_index(n - 1) {
                    let h = list.find_by_anchor(item.anchor.as_str());
                    proof {
                        lemma_found_first(h, all, has_anchor(item.anchor@));
                        assert(has_anchor(item.anchor@)(all[n - 1]));
                    }
                    if let Some(i) = h {
                        return Some(i);
                    }
                }
            }
        }
    }
    assert(index_hit(all, target@) is None);
    let items = list.all_items();
    let matches = fuzzy_find(items.as_slice(), target, APP_FUZZY_THRESHOLD);
    proof {
        lemma_single_fuzzy(all, matches@, target@, APP_FUZZY_THRESHOLD);
    }
    if matches.len() == 1 {
        Some(matches[0])
    } else {
        None
    }
}

/// The opposite status.
pub open spec fn flipped(s: ItemStatus) -> ItemStatus {
    match s {
        ItemStatus::Todo => ItemStatus::Done,
        ItemStatus::Done => ItemStatus::Todo,
    }
}

/// Toggle the item that `target` names, as the desktop app does: when the
/// apps' lookup finds it, mark `target` done if that item is not done, else
/// not done; returns the changed items.
pub fn toggle_item(list: &mut List, target: &str, threshold: i64) -> (r: Result<Vec<ListItem>, EditError>)
    ensures
        match item_index_for(old(list).all(), target@) {
            None => r == Err::<Vec<ListItem>, EditError>(EditError::NoMatchingItem) && *final(list) == *old(list),
            Some(i) => match marking(old(list).all(), target@, flipped(old(list).all()[i].status), threshold) {
                Ok((a, m)) => r matches Ok(v) && items_view(v@) == m && final(list).all() == a,
                Err(e) => r == Err::<Vec<ListItem>, EditError>(e) && final(list).all() == old(list).all(),
            },
        },
        same_layout(*old(list), *final(list)),
        final(list).metadata.id == old(list).metadata.id,
        final(list).metadata.title == old(list).metadata.title,
{
    match find_item_index(list, target) {
        Some(i) => {
            let item = list.get_by_index(i);
            let status = match item {
                Some(it) => match it.status {
                    ItemStatus::Todo => ItemStatus::Done,
                    ItemStatus::Done => ItemStatus::Todo,
                },
                None => ItemStatus::Done,
            };
            assert(status == flipped(list.all()[i as int].status));
            mark_as(list, target, status, threshold)
        },
        None => Err(EditError::NoMatchingItem),
    }
}

/// Mark the items that `target` names with `status`.
fn mark_as(list: &mut List, target: &str, status: ItemStatus, threshold: i64) -> (r: Result<Vec<ListItem>, EditError>)
    ensures
        match marking(old(list).all(), target@, status, threshold) {
            Ok((a, m)) => r matches Ok(v) && items_view(v@) == m && final(list).all() == a,
            Err(e) => r == Err::<Vec<ListItem>, EditError>(e) && final(list).all() == old(list).all(),
        },
        same_layout(*old(list), *final(list)),
        final(list).metadata == old(list).metadata,
{
    match status {
        ItemStatus::Done => mark_done(list, target, threshold),
        ItemStatus::Todo => mark_undone(list, target, threshold),
    }
}

/// Remove the items that `target` names, as the desktop app does: only when
/// the apps' lookup finds an item for it; returns the removed items.
pub fn remove_item(list: &mut List, target: &str, threshold: i64) -> (r: Result<Vec<ListItem>, EditError>)
    ensures
        match item_index_for(old(list).all(), target@) {
            None => r == Err::<Vec<ListItem>, EditError>(EditError::NoMatchingItem) && *final(list) == *old(list),
            Some(_) => match deleting(old(list).uncategorized(), old(list).cats(), target@, threshold) {
                Ok((u, c, m)) => r matches Ok(v) && items_view(v@) == m && final(list).uncategorized() == u
                    && final(list).cats() == c,
                Err(e) => r == Err::<Vec<ListItem>, EditError>(e) && *final(list) == *old(list),
            },
        },
        final(list).metadata.id == old(list).metadata.id,
        final(list).metadata.title == old(list).metadata.title,
{
    match find_item_index(list, target) {
        Some(_) => delete_item(list, target, threshold),
        None => Err(EditError::NoMatchingItem),
    }
}

/// Toggle the first item carrying `anchor` between done and not done.
pub fn toggle_anchored_item(list: &mut List, anchor: &str) -> (r: Result<(), AnchorError>)
    ensures
        match anchor_location(old(list).uncategorized(), old(list).cats(), anchor@) {
            Some(loc) => r is Ok && {
                let g = crate::edit::location_index(old(list).uncategorized(), old(list).cats(), loc);
                final(list).all() == old(list).all().update(g, with_status(old(list).all()[g], flipped(old(list).all()[g].status)))
            } && same_layout(*old(list), *final(list)),
            None => r == Err::<(), AnchorError>(AnchorError::NotFound) && *final(list) == *old(list),
        },
        final(list).metadata.id == old(list).metadata.id,
        final(list).metadata.title == old(list).metadata.title,
{
    match locate_anchor(list, anchor) {
        Some(loc) => {
            proof {
                crate::edit::lemma_location_index(list.uncategorized(), list.cats(), loc);
            }
            let item = match loc {
                ItemLocation::Uncategorized(i) => crate::list::copy_item(&list.uncategorized_items[i]),
                ItemLocation::Categorized { category_index: c, item_index: i } => crate::list::copy_item(
                    &list.categories[c].items[i],
                ),
            };
            let status = match item.status {
                ItemStatus::Todo => ItemStatus::Done,
                ItemStatus::Done => ItemStatus::Todo,
            };
            let changed = ListItem { text: item.text, status, anchor: item.anchor };
            replace_item_at(list, loc, changed);
            list.metadata.updated = now_rfc3339();
            Ok(())
        },
        None => Err(AnchorError::NotFound),
    }
}


/// Whether an item carries the anchor `t` or has the text `t`, ignoring
/// case (how the mobile app names an item).
pub open spec fn anchor_or_text(t: Seq<char>) -> spec_fn(ItemView) -> bool {
    |it: ItemView| it.anchor == t || lowercase(it.text) == lowercase(t)
}

/// The location of the first item carrying the anchor `t` or having the
/// text `t`, if any.
pub open spec fn matching_location(uncat: Seq<ItemView>, cats: Seq<CategoryView>, t: Seq<char>) -> Option<ItemLocation> {
    match first_index(uncat + category_items(cats), anchor_or_text(t)) {
        Some(g) => crate::edit::location_at(uncat, cats, g),
        None => None,
    }
}

/// The position of the first item carrying the anchor `target` or having
/// the text `target`, ignoring case.
fn first_anchor_or_text(list: &List, target: &str) -> (r: Option<usize>)
    ensures
        found_first(r, list.all(), anchor_or_text(target@)),
{
    let all = list.all_items();
    let lowered = to_lowercase(target);
    let mut i: usize = 0;
    while i < all.len()
        invariant
            i <= all@.len(),
            items_view(all@) == list.all(),
            lowered@ == lowercase(target@),
            forall|j: int| 0 <= j < i ==> !anchor_or_text(target@)(#[trigger] list.all()[j]),
        decreases all@.len() - i,
    {
        assert(list.all()[i as int] == all@[i as int]@);
        if str_eq(all[i].anchor.as_str(), target) {
            return Some(i);
        }
        let t = to_lowercase(all[i].text.as_str());
        if str_eq(t.as_str(), lowered.as_str()) {
            return Some(i);
        }
        i = i + 1;
    }
    None
}

/// The location of the item at position `g` among all items.
fn location_of_index(list: &List, g: usize) -> (r: ItemLocation)
    requires
        g < list.all().len(),
    ensures
        crate::edit::location_at(list.uncategorized(), list.cats(), g as int) == Some(r),
        crate::edit::location_valid(list.uncategorized(), list.cats(), r),
        crate::edit::location_index(list.uncategorized(), list.cats(), r) == g,
{
    match find_item_location_by_global_index(list, g) {
        Some(loc) => {
            proof {
                let l = choose|l: ItemLocation| crate::edit::location_valid(list.uncategorized(), list.cats(), l)
                    && crate::edit::location_index(list.uncategorized(), list.cats(), l) == g;
                crate::edit::lemma_location_unique(list.uncategorized(), list.cats(), l, loc);
            }
            loc
        },
        None => {
            proof {
                assert(false);
            }
            ItemLocation::Uncategorized(0)
        },
    }
}

/// The location of the first item carrying the anchor `target` or having
/// the text `target`, ignoring case.
fn locate_matching(list: &List, target: &str) -> (r: Option<ItemLocation>)
    ensures
        r == matching_location(list.uncategorized(), list.cats(), target@),
        r matches Some(loc) ==> crate::edit::location_valid(list.uncategorized(), list.cats(), loc),
{
    let g = first_anchor_or_text(list, target);
    proof {
        lemma_found_first(g, list.all(), anchor_or_text(target@));
    }
    match g {
        Some(i) => Some(location_of_index(list, i)),
        None => None,
    }
}

/// Replace the text of the first item carrying `anchor`, as the mobile app
/// does; the new text must not be empty or white space.
pub fn edit_anchored_item(list: &mut List, anchor: &str, text: &str) -> (r: Result<(), EditError>)
    ensures
        trim_spec(text@).len() == 0 ==> r == Err::<(), EditError>(EditError::EmptyText) && *final(list) == *old(list),
        trim_spec(text@).len() > 0 ==> match anchor_location(old(list).uncategorized(), old(list).cats(), anchor@) {
            Some(loc) => r is Ok && {
                let g = crate::edit::location_index(old(list).uncategorized(), old(list).cats(), loc);
                final(list).all() == old(list).all().update(g, ItemView { text: text@, ..old(list).all()[g] })
            } && same_layout(*old(list), *final(list)),
            None => r == Err::<(), EditError>(EditError::NoMatchingItem) && *final(list) == *old(list),
        },
        final(list).metadata.id == old(list).metadata.id,
        final(list).metadata.title == old(list).metadata.title,
{
    let cs = chars_of(text);
    let trimmed = trim_chars(&cs);
    if trimmed.len() == 0 {
        return Err(EditError::EmptyText);
    }
    match locate_anchor(list, anchor) {
        Some(loc) => {
            proof {
                crate::edit::lemma_location_index(list.uncategorized(), list.cats(), loc);
            }
            let item = match loc {
                ItemLocation::Uncategorized(i) => crate::list::copy_item(&list.uncategorized_items[i]),
                ItemLocation::Categorized { category_index: c, item_index: i } => crate::list::copy_item(
                    &list.categories[c].items[i],
                ),
            };
            let changed = ListItem { text: owned(text), status: item.status, anchor: item.anchor };
            replace_item_at(list, loc, changed);
            list.metadata.updated = now_rfc3339();
            Ok(())
        },
        None => Err(EditError::NoMatchingItem),
    }
}

/// Remove the first item carrying the anchor `target` or having the text
/// `target` (ignoring case), as the mobile app does; returns it.
pub fn remove_matching_item(list: &mut List, target: &str) -> (r: Result<ListItem, EditError>)
    ensures
        match matching_location(old(list).uncategorized(), old(list).cats(), target@) {
            Some(loc) => r matches Ok(it) && it@ == item_at(old(list).uncategorized(), old(list).cats(), loc)
                && (final(list).uncategorized(), final(list).cats()) == without_location(
                old(list).uncategorized(),
                old(list).cats(),
                loc,
            ),
            None => r == Err::<ListItem, EditError>(EditError::NoMatchingItem) && *final(list) == *old(list),
        },
        final(list).metadata.id == old(list).metadata.id,
        final(list).metadata.title == old(list).metadata.title,
{
    match locate_matching(list, target) {
        Some(loc) => {
            let it = remove_item_at_location(list, loc);
            list.metadata.updated = now_rfc3339();
            Ok(it)
        },
        None => Err(EditError::NoMatchingItem),
    }
}

/// Move the first item carrying the anchor `target` or having the text
/// `target` (ignoring case) to position `new_index` of the uncategorized
/// items (or to their end), as the mobile app does.
pub fn reorder_matching_item(list: &mut List, target: &str, new_index: usize) -> (r: Result<(), EditError>)
    ensures
        match matching_location(old(list).uncategorized(), old(list).cats(), target@) {
            Some(loc) => r is Ok && {
                let it = item_at(old(list).uncategorized(), old(list).cats(), loc);
                let (u, c) = without_location(old(list).uncategorized(), old(list).cats(), loc);
                let at = if new_index < u.len() { new_index as int } else { u.len() as int };
                &&& final(list).uncategorized() == u.insert(at, it)
                &&& final(list).cats() == c
            },
            None => r == Err::<(), EditError>(EditError::NoMatchingItem) && *final(list) == *old(list),
        },
        final(list).metadata.id == old(list).metadata.id,
        final(list).metadata.title == old(list).metadata.title,
{
    match locate_matching(list, target) {
        Some(loc) => {
            let it = remove_item_at_location(list, loc);
            let n = list.uncategorized_items.len();
            let at = if new_index < n { new_index } else { n };
            let ghost before = list.uncategorized_items@;
            list.uncategorized_items.insert(at, it);
            assert(items_view(list.uncategorized_items@) =~= items_view(before).insert(at as int, it@));
            list.metadata.updated = now_rfc3339();
            Ok(())
        },
        None => Err(EditError::NoMatchingItem),
    }
}


/// What each comma-separated piece asks for: for each piece that is not
/// empty once trimmed, its inline `##category` (else `category`) and its
/// text.
pub open spec fn item_requests(pieces: Seq<Seq<char>>, category: Option<Seq<char>>) -> Seq<(Option<Seq<char>>, Seq<char>)>
    decreases pieces.len(),
{
    if pieces.len() == 0 {
        Seq::empty()
    } else {
        let rest = item_requests(pieces.drop_last(), category);
        let t = trim_spec(pieces.last());
        if t.len() == 0 {
            rest
        } else {
            let (pc, pt) = item_input(t);
            rest.push((if pc is Some { pc } else { category }, pt))
        }
    }
}

/// The categories that requests ask for.
pub open spec fn requested_categories(reqs: Seq<(Option<Seq<char>>, Seq<char>)>) -> Seq<Option<Seq<char>>> {
    reqs.map_values(|q: (Option<Seq<char>>, Seq<char>)| q.0)
}

/// The uncategorized items and categories after placing each item in turn:
/// at the end of its category (created when missing), or at the end of the
/// uncategorized items.
pub open spec fn placed_all(
    uncat: Seq<ItemView>,
    cats: Seq<CategoryView>,
    targets: Seq<Option<Seq<char>>>,
    items: Seq<ItemView>,
) -> (Seq<ItemView>, Seq<CategoryView>)
    decreases items.len(),
{
    if items.len() == 0 || targets.len() == 0 {
        (uncat, cats)
    } else {
        let (u, c) = placed_all(uncat, cats, targets.drop_last(), items.drop_last());
        match targets.last() {
            Some(name) => (u, cats_with_item(c, name, items.last())),
            None => (u.push(items.last()), c),
        }
    }
}

/// Whether `added` are new to-do items with fresh anchors and the texts that
/// `reqs` ask for.
pub open spec fn added_as_requested(added: Seq<ListItem>, reqs: Seq<(Option<Seq<char>>, Seq<char>)>) -> bool {
    &&& added.len() == reqs.len()
    &&& forall|k: int| 0 <= k < added.len() ==> (#[trigger] added[k]).text@ == reqs[k].1
        && added[k].status == ItemStatus::Todo && crate::list::generated_anchor(added[k].anchor@)
}

/// Add the items of a comma-separated text, as the apps do: each trimmed,
/// non-empty piece becomes a new to-do item with a fresh anchor, in its
/// inline `##category` if it has one, else in `category` (created when
/// missing), else among the uncategorized items. Returns the new items.
pub fn add_items_with_categories(list: &mut List, text: &str, category: Option<&str>) -> (r: Vec<ListItem>)
    ensures
        added_as_requested(r@, item_requests(split_at_char(text@, ','), opt_name(category))),
        (final(list).uncategorized(), final(list).cats()) == placed_all(
            old(list).uncategorized(),
            old(list).cats(),
            requested_categories(item_requests(split_at_char(text@, ','), opt_name(category))),
            items_view(r@),
        ),
        final(list).metadata.id == old(list).metadata.id,
        final(list).metadata.title == old(list).metadata.title,
{
    let cs = chars_of(text);
    let pieces = split_chars(&cs, ',');
    let ghost ps = pieces@.map_values(|p: Vec<char>| p@);
    let ghost cat = opt_name(category);
    let ghost u0 = list.uncategorized();
    let ghost c0 = list.cats();
    let mut added: Vec<ListItem> = Vec::new();
    let mut i: usize = 0;
    assert(ps.take(0) =~= Seq::<Seq<char>>::empty());
    while i < pieces.len()
        invariant
            i <= pieces@.len(),
            ps == pieces@.map_values(|p: Vec<char>| p@),
            cat == opt_name(category),
            added_as_requested(added@, item_requests(ps.take(i as int), cat)),
            (list.uncategorized(), list.cats()) == placed_all(
                u0,
                c0,
                requested_categories(item_requests(ps.take(i as int), cat)),
                items_view(added@),
            ),
            list.metadata.id == old(list).metadata.id,
            list.metadata.title == old(list).metadata.title,
        decreases pieces@.len() - i,
    {
        let ghost reqs = item_requests(ps.take(i as int), cat);
        let ghost before = added@;
        let t = trim_chars(&pieces[i]);
        assert(ps.take(i + 1).drop_last() =~= ps.take(i as int));
        assert(ps.take(i + 1).last() == pieces@[i as int]@);
        if t.len() > 0 {
            let ts = string_of(&t);
            let (pc, pt) = parse_item_input(ts.as_str());
            let item = match &pc {
                Some(c) => list.add_item_to_category(pt, Some(c.as_str())),
                None => list.add_item_to_category(pt, category),
            };
            added.push(item);
            proof {
                let reqs2 = item_requests(ps.take(i + 1), cat);
                assert(reqs2 == reqs.push(reqs2.last()));
                assert(requested_categories(reqs2).drop_last() =~= requested_categories(reqs));
                assert(items_view(added@).drop_last() =~= items_view(before));
                assert(items_view(added@).last() == item@);
                assert forall|k: int| 0 <= k < added@.len() implies (#[trigger] added@[k]).text@ == reqs2[k].1
                    && added@[k].status == ItemStatus::Todo && crate::list::generated_anchor(added@[k].anchor@) by {
                    if k < before.len() {
                        assert(added@[k] == before[k]);
                    }
                }
            }
        } else {
            proof {
                assert(item_requests(ps.take(i + 1), cat) == reqs);
            }
        }
        i = i + 1;
    }
    assert(ps.take(i as int) =~= ps);
    assert(ps == split_at_char(text@, ','));
    added
}


/// The lines of `input` that are not blank, as they are.
pub open spec fn nonblank_lines(lines: Seq<Seq<char>>) -> Seq<Seq<char>>
    decreases lines.len(),
{
    if lines.len() == 0 {
        Seq::empty()
    } else {
        let rest = nonblank_lines(lines.drop_last());
        if trim_spec(lines.last()).len() > 0 {
            rest.push(lines.last())
        } else {
            rest
        }
    }
}

/// Add each non-blank line of `input` to a list as a new to-do item with a
/// fresh anchor, as piping text into a list does; returns how many.
pub fn pipe_items(list: &mut List, input: &str) -> (r: usize)
    ensures
        r == nonblank_lines(crate::lines::lines_of(input@)).len(),
        final(list).uncategorized().len() == old(list).uncategorized().len() + r,
        final(list).uncategorized().subrange(0, old(list).uncategorized().len() as int) == old(list).uncategorized(),
        final(list).uncategorized().skip(old(list).uncategorized().len() as int).map_values(|it: ItemView| it.text)
            == nonblank_lines(crate::lines::lines_of(input@)),
        forall|k: int| old(list).uncategorized().len() <= k < final(list).uncategorized().len()
            ==> (#[trigger] final(list).uncategorized()[k]).status == ItemStatus::Todo,
        final(list).cats() == old(list).cats(),
        final(list).metadata.id == old(list).metadata.id,
        final(list).metadata.title == old(list).metadata.title,
{
    let cs = chars_of(input);
    let lines = crate::lines::split_lines(&cs);
    let ghost ls = lines@.map_values(|l: Vec<char>| l@);
    let ghost u0 = list.uncategorized();
    let ghost mut added: Seq<ItemView> = Seq::empty();
    let mut count: usize = 0;
    let mut i: usize = 0;
    assert(ls.take(0) =~= Seq::<Seq<char>>::empty());
    assert(u0 + added =~= u0);
    while i < lines.len()
        invariant
            i <= lines@.len(),
            ls == lines@.map_values(|l: Vec<char>| l@),
            u0 == old(list).uncategorized(),
            list.uncategorized() == u0 + added,
            added.len() == count,
            count <= i,
            added.map_values(|it: ItemView| it.text) == nonblank_lines(ls.take(i as int)),
            forall|k: int| 0 <= k < added.len() ==> (#[trigger] added[k]).status == ItemStatus::Todo,
            list.cats() == old(list).cats(),
            list.metadata.id == old(list).metadata.id,
            list.metadata.title == old(list).metadata.title,
        decreases lines@.len() - i,
    {
        assert(ls.take(i + 1).drop_last() =~= ls.take(i as int));
        assert(ls.take(i + 1).last() == lines@[i as int]@);
        let t = trim_chars(&lines[i]);
        if t.len() > 0 {
            let item = list.add_item(string_of(&lines[i]));
            proof {
                let old_added = added;
                added = added.push(item@);
                assert(list.uncategorized() =~= u0 + added);
                assert(added.map_values(|it: ItemView| it.text) =~= old_added.map_values(|it: ItemView| it.text).push(
                    lines@[i as int]@,
                ));
                assert forall|k: int| 0 <= k < added.len() implies (#[trigger] added[k]).status == ItemStatus::Todo by {
                    if k < old_added.len() {
                        assert(added[k] == old_added[k]);
                    }
                }
            }
            count = count + 1;
        }
        i = i + 1;
    }
    assert(ls.take(i as int) =~= ls);
    assert(list.uncategorized().subrange(0, u0.len() as int) =~= u0);
    assert(list.uncategorized().skip(u0.len() as int) =~= added);
    count
}

/// A new, empty list created under a name: titled after the name's last
/// component.
pub fn new_list_named(name: &str) -> (r: List)
    ensures
        r.metadata.title@ == crate::notes::title_for_name(name@),
        r.uncategorized().len() == 0,
        r.cats().len() == 0,
{
    let l = List::new(crate::notes::document_title(name));
    assert(l.uncategorized() =~= Seq::<ItemView>::empty());
    l
}


/// A line of a list as the command line shows it: a category heading, or a
/// numbered item.
#[derive(Debug, Clone)]
pub enum DisplayRow {
    Heading(String),
    Item { number: usize, status: ItemStatus, text: String, anchor: String },
}

/// A shown line as plain values.
pub enum RowView {
    Heading(Seq<char>),
    Item(int, ItemView),
}

/// The view of a shown line.
pub open spec fn row_view(r: DisplayRow) -> RowView {
    match r {
        DisplayRow::Heading(n) => RowView::Heading(n@),
        DisplayRow::Item { number, status, text, anchor } => RowView::Item(
            number as int,
            ItemView { text: text@, status, anchor: anchor@ },
        ),
    }
}

/// The items shown in order, numbered on from `start`.
pub open spec fn item_rows(items: Seq<ItemView>, start: int) -> Seq<RowView> {
    Seq::new(items.len(), |i: int| RowView::Item(start + i + 1, items[i]))
}

/// The categories shown in order: each one that has items, under its
/// heading, its items numbered on from `start`.
pub open spec fn category_rows(cats: Seq<CategoryView>, start: int) -> Seq<RowView>
    decreases cats.len(),
{
    if cats.len() == 0 {
        Seq::empty()
    } else {
        let c = cats[0];
        let head = if c.items.len() > 0 {
            seq![RowView::Heading(c.name)] + item_rows(c.items, start)
        } else {
            Seq::empty()
        };
        head + category_rows(cats.drop_first(), start + c.items.len())
    }
}

/// How the command line shows a list's items: the uncategorized items,
/// then each category with items under its heading, all items numbered
/// from 1 in order.
pub open spec fn list_rows(uncat: Seq<ItemView>, cats: Seq<CategoryView>) -> Seq<RowView> {
    item_rows(uncat, 0) + category_rows(cats, uncat.len() as int)
}

fn push_item_rows(rows: &mut Vec<DisplayRow>, items: &Vec<ListItem>, start: usize)
    requires
        start + items@.len() <= usize::MAX,
    ensures
        final(rows)@.map_values(|r: DisplayRow| row_view(r)) == old(rows)@.map_values(|r: DisplayRow| row_view(r))
            + item_rows(items_view(items@), start as int),
{
    let ghost before = rows@.map_values(|r: DisplayRow| row_view(r));
    let mut i: usize = 0;
    while i < items.len()
        invariant
            i <= items@.len(),
            start + items@.len() <= usize::MAX,
            rows@.map_values(|r: DisplayRow| row_view(r)) == before + item_rows(items_view(items@).take(i as int), start as int),
        decreases items@.len() - i,
    {
        let it = &items[i];
        let row = DisplayRow::Item {
            number: start + i + 1,
            status: it.status,
            text: owned(it.text.as_str()),
            anchor: owned(it.anchor.as_str()),
        };
        let ghost prev = rows@;
        assert(items_view(items@)[i as int] == it@);
        assert(row_view(row) == RowView::Item(start + i + 1, items_view(items@)[i as int]));
        rows.push(row);
        assert(rows@.map_values(|r: DisplayRow| row_view(r)) =~= prev.map_values(|r: DisplayRow| row_view(r)).push(row_view(row)));
        assert(rows@.map_values(|r: DisplayRow| row_view(r)) =~= before + item_rows(items_view(items@).take(i + 1), start as int));
        i = i + 1;
    }
    assert(items_view(items@).take(i as int) =~= items_view(items@));
}

/// The lines with which the command line shows a list.
pub fn display_rows(list: &List) -> (r: Vec<DisplayRow>)
    requires
        list.all().len() < usize::MAX,
    ensures
        r@.map_values(|x: DisplayRow| row_view(x)) == list_rows(list.uncategorized(), list.cats()),
{
    let mut rows: Vec<DisplayRow> = Vec::new();
    let ghost u = list.uncategorized();
    let ghost cv = list.cats();
    assert(rows@.map_values(|x: DisplayRow| row_view(x)) =~= Seq::<RowView>::empty());
    push_item_rows(&mut rows, &list.uncategorized_items, 0);
    let mut n: usize = list.uncategorized_items.len();
    let mut c: usize = 0;
    assert(cv.skip(0) =~= cv);
    assert(cv.take(0) =~= Seq::<CategoryView>::empty());
    while c < list.categories.len()
        invariant
            c <= cv.len(),
            u == list.uncategorized(),
            cv == list.cats(),
            list.all().len() < usize::MAX,
            n == u.len() + category_items(cv.take(c as int)).len(),
            rows@.map_values(|x: DisplayRow| row_view(x)) + category_rows(cv.skip(c as int), n as int)
                == list_rows(u, cv),
        decreases cv.len() - c,
    {
        let cat = &list.categories[c];
        assert(cv[c as int] == cat@);
        proof {
            crate::edit::lemma_category_items_split(cv, c as int);
            crate::edit::lemma_category_items_split(cv, cv.len() - 1);
            crate::edit::lemma_category_items_concat(cv.take(c + 1), cv.skip(c + 1));
            assert(cv =~= cv.take(c + 1) + cv.skip(c + 1));
            assert(cv.skip(c as int)[0] == cv[c as int]);
            assert(cv.skip(c as int).drop_first() =~= cv.skip(c + 1));
        }
        let ghost before = rows@.map_values(|x: DisplayRow| row_view(x));
        if cat.items.len() > 0 {
            rows.push(DisplayRow::Heading(owned(cat.name.as_str())));
            assert(rows@.map_values(|x: DisplayRow| row_view(x)) =~= before + seq![RowView::Heading(cat.name@)]);
            push_item_rows(&mut rows, &cat.items, n);
        }
        n = n + cat.items.len();
        c = c + 1;
    }
    assert(cv.skip(c as int) =~= Seq::<CategoryView>::empty());
    rows
}


/// Creating a category that does not exist and then deleting it leaves the
/// categories and the uncategorized items as they were.
pub proof fn lemma_create_then_delete_category(uncat: Seq<ItemView>, cats: Seq<CategoryView>, name: Seq<char>)
    requires
        !has_category(cats, name),
    ensures
        ({
            let created = cats.push(CategoryView { name, items: Seq::empty() });
            &&& first_category(created, name) == Some(cats.len() as int)
            &&& created.remove(cats.len() as int) == cats
            &&& uncat + created[cats.len() as int].items == uncat
        }),
{
    let created = cats.push(CategoryView { name, items: Seq::empty() });
    assert(created[cats.len() as int].name == name);
    assert(has_category(created, name));
    let k = choose|k: int| 0 <= k < created.len() && created[k].name == name && forall|j: int| 0 <= j < k ==> created[j].name != name;
    if k < cats.len() {
        assert(cats[k].name == name);
    }
    let n = cats.len() as int;
    assert forall|j: int| 0 <= j < n implies created[j].name != name by {
        assert(created[j] == cats[j]);
    }
    assert(k == n);
    assert(created.remove(n) =~= cats);
    assert(uncat + created[n].items =~= uncat);
}

/// Renaming the only category of a name to a new name and back leaves the
/// categories as they were.
pub proof fn lemma_rename_roundtrip(cats: Seq<CategoryView>, old_name: Seq<char>, new_name: Seq<char>)
    requires
        !has_category(cats, new_name),
        first_category(cats, old_name) is Some,
        forall|i: int, j: int| 0 <= i < j < cats.len() && cats[i].name == old_name ==> cats[j].name != old_name,
    ensures
        ({
            let i = first_category(cats, old_name)->0;
            let renamed = cats.update(i, CategoryView { name: new_name, items: cats[i].items });
            &&& !has_category(renamed, old_name)
            &&& first_category(renamed, new_name) == Some(i)
            &&& renamed.update(i, CategoryView { name: old_name, items: renamed[i].items }) == cats
        }),
{
    let i = first_category(cats, old_name)->0;
    let renamed = cats.update(i, CategoryView { name: new_name, items: cats[i].items });
    assert(cats[i].name == old_name);
    assert forall|j: int| 0 <= j < renamed.len() implies renamed[j].name != old_name by {
        if j != i {
            assert(renamed[j] == cats[j]);
            if j < i {
                assert(cats[j].name != old_name);
            } else {
                assert(cats[j].name != old_name);
            }
        } else {
            assert(renamed[j].name == new_name);
            assert(new_name != old_name) by {
                assert(cats[i].name == old_name);
            }
        }
    }
    assert(renamed[i].name == new_name);
    assert(has_category(renamed, new_name));
    let k = choose|k: int| 0 <= k < renamed.len() && renamed[k].name == new_name && forall|j: int| 0 <= j < k ==> renamed[j].name != new_name;
    if k != i {
        assert(renamed[k] == cats[k]);
        assert(cats[k].name == new_name);
    }
    assert(renamed.update(i, CategoryView { name: old_name, items: renamed[i].items }) =~= cats);
}

} // verus!
