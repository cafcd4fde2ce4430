//! Lists of to-do items: the item model, anchors, lookup and fuzzy search.

use vstd::prelude::*;

use fuzzy_matcher::FuzzyMatcher;
use rand::distributions::DistString;
use vstd::string::StringSliceAdditionalSpecFns;

use crate::text::{byte_len, chars_of, owned, str_eq, string_of};

verus! {

broadcast use vstd::string::group_string_axioms;

/// The status of a list item (done or not).
#[derive(Debug, Clone, Copy, PartialEq, Eq, Structural)]
pub enum ItemStatus {
    Todo,
    Done,
}

/// A single item in a list.
#[derive(Debug, Clone)]
pub struct ListItem {
    /// The text content of the item
    pub text: String,
    /// The status of the item (todo or done)
    pub status: ItemStatus,
    /// Unique anchor identifier for the item (`^` and at least four of
    /// `[A-Za-z0-9-]`)
    pub anchor: String,
}

/// An item as plain values.
pub struct ItemView {
    pub text: Seq<char>,
    pub status: ItemStatus,
    pub anchor: Seq<char>,
}

impl View for ListItem {
    type V = ItemView;

    open spec fn view(&self) -> ItemView {
        ItemView { text: self.text@, status: self.status, anchor: self.anchor@ }
    }
}

/// The views of a sequence of items.
pub open spec fn items_view(v: Seq<ListItem>) -> Seq<ItemView> {
    v.map_values(|i: ListItem| i@)
}

/// Pushing an item pushes its view.
pub proof fn lemma_items_view_push(s: Seq<ListItem>, x: ListItem)
    ensures
        items_view(s.push(x)) == items_view(s).push(x@),
{
    assert(items_view(s.push(x)) =~= items_view(s).push(x@));
}

/// A category containing list items.
#[derive(Debug, Clone)]
pub struct Category {
    /// The name of the category
    pub name: String,
    /// Items in this category
    pub items: Vec<ListItem>,
}

/// A category as plain values.
pub struct CategoryView {
    pub name: Seq<char>,
    pub items: Seq<ItemView>,
}

impl View for Category {
    type V = CategoryView;

    open spec fn view(&self) -> CategoryView {
        CategoryView { name: self.name@, items: items_view(self.items@) }
    }
}

/// The views of a sequence of categories.
pub open spec fn categories_view(v: Seq<Category>) -> Seq<CategoryView> {
    v.map_values(|c: Category| c@)
}

/// The metadata of a list.
#[derive(Debug, Clone)]
pub struct ListMetadata {
    /// Unique identifier for the list (a UUID in text form)
    pub id: String,
    /// Human-readable title of the list
    pub title: String,
    /// Users who have access to the list
    pub sharing: Vec<String>,
    /// When the list was last updated (RFC 3339)
    pub updated: String,
}

/// A complete list with metadata and items.
#[derive(Debug)]
pub struct List {
    /// Metadata for the list
    pub metadata: ListMetadata,
    /// Items without category (before the first headline)
    pub uncategorized_items: Vec<ListItem>,
    /// Categorized items
    pub categories: Vec<Category>,
    /// Legacy field, migrated to `uncategorized_items` on load
    pub items: Vec<ListItem>,
}

/// The items of a sequence of categories, category after category.
pub open spec fn category_items(cats: Seq<CategoryView>) -> Seq<ItemView>
    decreases cats.len(),
{
    if cats.len() == 0 {
        Seq::empty()
    } else {
        category_items(cats.drop_last()) + cats.last().items
    }
}

impl List {
    /// Uncategorized items as plain values.
    pub open spec fn uncategorized(self) -> Seq<ItemView> {
        items_view(self.uncategorized_items@)
    }

    /// Categories as plain values.
    pub open spec fn cats(self) -> Seq<CategoryView> {
        categories_view(self.categories@)
    }

    /// All items: uncategorized first, then each category's in order.
    pub open spec fn all(self) -> Seq<ItemView> {
        self.uncategorized() + category_items(self.cats())
    }
}

/// Whether `c` may occur in the body of an anchor.
pub open spec fn is_anchor_char(c: char) -> bool {
    ('a' <= c && c <= 'z') || ('A' <= c && c <= 'Z') || ('0' <= c && c <= '9') || c == '-'
}

/// Whether `c` is an ASCII letter or digit.
pub open spec fn is_ascii_alnum(c: char) -> bool {
    ('a' <= c && c <= 'z') || ('A' <= c && c <= 'Z') || ('0' <= c && c <= '9')
}

/// An anchor: `^` followed by at least four of `[A-Za-z0-9-]`.
pub open spec fn valid_anchor(a: Seq<char>) -> bool {
    &&& a.len() >= 5
    &&& a[0] == '^'
    &&& forall|i: int| 1 <= i < a.len() ==> is_anchor_char(#[trigger] a[i])
}

/// An anchor as `generate_anchor` makes them: `^` and five ASCII letters or digits.
pub open spec fn generated_anchor(a: Seq<char>) -> bool {
    &&& a.len() == 6
    &&& a[0] == '^'
    &&& forall|i: int| 1 <= i < a.len() ==> is_ascii_alnum(#[trigger] a[i])
}

/// Check if an anchor is valid.
pub fn is_valid_anchor(anchor: &str) -> (r: bool)
    ensures
        r == valid_anchor(anchor@),
{
    let cs = chars_of(anchor);
    if cs.len() < 5 || cs[0] != '^' {
        return false;
    }
    let mut i: usize = 1;
    while i < cs.len()
        invariant
            1 <= i <= cs.len(),
            cs@ == anchor@,
            forall|j: int| 1 <= j < i ==> is_anchor_char(#[trigger] cs@[j]),
        decreases cs.len() - i,
    {
        let c = cs[i];
        if !(('a' <= c && c <= 'z') || ('A' <= c && c <= 'Z') || ('0' <= c && c <= '9') || c == '-') {
            return false;
        }
        i = i + 1;
    }
    true
}

/// `rand`'s `Alphanumeric.sample_string` with the thread-local generator:
/// `len` characters, each an ASCII letter or digit, chosen at random.
#[verifier::external_body]
fn random_alphanumeric(len: usize) -> (s: String)
    ensures
        s@.len() == len,
        forall|i: int| 0 <= i < s@.len() ==> is_ascii_alnum(#[trigger] s@[i]),
{
    rand::distributions::Alphanumeric.sample_string(&mut rand::thread_rng(), len)
}

/// `uuid::Uuid::new_v4` in hyphenated text form: a random identifier.
#[verifier::external_body]
pub(crate) fn fresh_uuid() -> String {
    uuid::Uuid::new_v4().to_string()
}

/// `chrono::Utc::now` in RFC 3339 form: the current time.
#[verifier::external_body]
pub(crate) fn now_rfc3339() -> String {
    chrono::Utc::now().to_rfc3339()
}

/// A fresh random anchor: `^` followed by five random ASCII letters or digits.
pub fn generate_anchor() -> (a: String)
    ensures
        generated_anchor(a@),
        valid_anchor(a@),
{
    let body = random_alphanumeric(5);
    let mut a = owned("^");
    proof {
        reveal_strlit("^");
    }
    a.append(body.as_str());
    a
}

/// A copy of an item.
pub fn copy_item(item: &ListItem) -> (r: ListItem)
    ensures
        r@ == item@,
{
    ListItem { text: item.text.clone(), status: item.status, anchor: item.anchor.clone() }
}

/// A copy of a sequence of items.
pub fn copy_items(v: &Vec<ListItem>) -> (r: Vec<ListItem>)
    ensures
        items_view(r@) == items_view(v@),
{
    let mut r: Vec<ListItem> = Vec::new();
    let mut i: usize = 0;
    while i < v.len()
        invariant
            i <= v@.len(),
            items_view(r@) == items_view(v@).take(i as int),
        decreases v@.len() - i,
    {
        let ghost old_r = r@;
        let it = copy_item(&v[i]);
        r.push(it);
        proof {
            lemma_items_view_push(old_r, it);
        }
        assert(items_view(r@) =~= items_view(v@).take(i + 1));
        i = i + 1;
    }
    assert(items_view(v@).take(v@.len() as int) =~= items_view(v@));
    r
}

/// `s` in lower case, as `str::to_lowercase` gives it.
pub uninterp spec fn lowercase(s: Seq<char>) -> Seq<char>;

/// `str::to_lowercase`.
#[verifier::external_body]
pub(crate) fn to_lowercase(s: &str) -> (r: String)
    ensures
        r@ == lowercase(s@),
{
    s.to_lowercase()
}

/// The first position in `s` whose item satisfies `p`, if any.
pub open spec fn first_index(s: Seq<ItemView>, p: spec_fn(ItemView) -> bool) -> Option<int> {
    if exists|i: int| 0 <= i < s.len() && p(s[i]) {
        Some(choose|i: int| 0 <= i < s.len() && p(s[i]) && forall|j: int| 0 <= j < i ==> !p(s[j]))
    } else {
        None
    }
}

/// Whether an item carries the anchor `a`.
pub open spec fn has_anchor(a: Seq<char>) -> spec_fn(ItemView) -> bool {
    |it: ItemView| it.anchor == a
}

/// Whether an item's text equals `t`, ignoring case.
pub open spec fn text_matches(t: Seq<char>) -> spec_fn(ItemView) -> bool {
    |it: ItemView| lowercase(it.text) == lowercase(t)
}

/// `found_first` describes `first_index`.
pub proof fn lemma_found_first(r: Option<usize>, s: Seq<ItemView>, p: spec_fn(ItemView) -> bool)
    requires
        found_first(r, s, p),
    ensures
        match r {
            Some(i) => first_index(s, p) == Some(i as int),
            None => first_index(s, p) is None,
        },
{
    if let Some(i) = r {
        assert(p(s[i as int]));
        let f = first_index(s, p)->0;
        if f < i {
            assert(!p(s[f]));
        } else if f > i {
            assert(!p(s[i as int]));
        }
    }
}

/// The first position found by a scan that stops at the first match.
pub open spec fn found_first(r: Option<usize>, s: Seq<ItemView>, p: spec_fn(ItemView) -> bool) -> bool {
    match r {
        Some(i) => i < s.len() && p(s[i as int]) && forall|j: int| 0 <= j < i ==> !p(#[trigger] s[j]),
        None => forall|j: int| 0 <= j < s.len() ==> !p(#[trigger] s[j]),
    }
}

impl List {
    /// Create a new, empty list with the given title, a fresh identifier and
    /// the current time.
    pub fn new(title: String) -> (l: Self)
        ensures
            l.metadata.title == title,
            l.metadata.sharing@.len() == 0,
            l.uncategorized_items@.len() == 0,
            l.categories@.len() == 0,
            l.items@.len() == 0,
    {
        List {
            metadata: ListMetadata {
                id: fresh_uuid(),
                title,
                sharing: Vec::new(),
                updated: now_rfc3339(),
            },
            uncategorized_items: Vec::new(),
            categories: Vec::new(),
            items: Vec::new(),
        }
    }

    /// All items across all categories, uncategorized ones first.
    pub fn all_items(&self) -> (r: Vec<ListItem>)
        ensures
            items_view(r@) == self.all(),
    {
        let mut r = copy_items(&self.uncategorized_items);
        let mut i: usize = 0;
        while i < self.categories.len()
            invariant
                i <= self.categories@.len(),
                items_view(r@) == self.uncategorized() + category_items(self.cats().take(i as int)),
            decreases self.categories@.len() - i,
        {
            let cat = &self.categories[i];
            let mut j: usize = 0;
            let ghost before = items_view(r@);
            while j < cat.items.len()
                invariant
                    j <= cat.items@.len(),
                    items_view(r@) == before + items_view(cat.items@).take(j as int),
                decreases cat.items@.len() - j,
            {
                let ghost old_r = r@;
                let it = copy_item(&cat.items[j]);
                r.push(it);
                proof {
                    lemma_items_view_push(old_r, it);
                }
                assert(items_view(r@) =~= before + items_view(cat.items@).take(j + 1));
                j = j + 1;
            }
            assert(items_view(cat.items@).take(j as int) =~= items_view(cat.items@));
            assert(self.cats().take(i + 1).drop_last() =~= self.cats().take(i as int));
            i = i + 1;
        }
        assert(self.cats().take(i as int) =~= self.cats());
        r
    }

    /// Find an item by its anchor (global index across all items).
    pub fn find_by_anchor(&self, anchor: &str) -> (r: Option<usize>)
        ensures
            found_first(r, self.all(), has_anchor(anchor@)),
    {
        let all = self.all_items();
        let mut i: usize = 0;
        while i < all.len()
            invariant
                i <= all@.len(),
                items_view(all@) == self.all(),
                forall|j: int| 0 <= j < i ==> (#[trigger] self.all()[j]).anchor != anchor@,
            decreases all@.len() - i,
        {
            assert(self.all()[i as int] == all@[i as int]@);
            if str_eq(all[i].anchor.as_str(), anchor) {
                return Some(i);
            }
            i = i + 1;
        }
        None
    }

    /// Find an item by exact text match, ignoring case (global index).
    pub fn find_by_text(&self, text: &str) -> (r: Option<usize>)
        ensures
            found_first(r, self.all(), text_matches(text@)),
    {
        let all = self.all_items();
        let target = to_lowercase(text);
        let mut i: usize = 0;
        while i < all.len()
            invariant
                i <= all@.len(),
                items_view(all@) == self.all(),
                target@ == lowercase(text@),
                forall|j: int| 0 <= j < i ==> lowercase((#[trigger] self.all()[j]).text) != lowercase(text@),
            decreases all@.len() - i,
        {
            assert(self.all()[i as int] == all@[i as int]@);
            let lower = to_lowercase(all[i].text.as_str());
            if str_eq(lower.as_str(), target.as_str()) {
                return Some(i);
            }
            i = i + 1;
        }
        None
    }

    /// Find an item by index (0-based, across all items).
    pub fn get_by_index(&self, index: usize) -> (r: Option<ListItem>)
        ensures
            match r {
                Some(it) => index < self.all().len() && it@ == self.all()[index as int],
                None => index >= self.all().len(),
            },
    {
        let all = self.all_items();
        if index < all.len() {
            Some(copy_item(&all[index]))
        } else {
            None
        }
    }
}

/// The file name for a list title: lower-cased, spaces replaced by `-`, and `.md`.
pub open spec fn list_file_name(title: Seq<char>) -> Seq<char> {
    lowercase(title).map_values(|c: char| if c == ' ' { '-' } else { c }) + ".md"@
}

/// The categories after pushing `item` into the first category named `name`,
/// or after adding a new category of that name holding just `item`.
pub open spec fn cats_with_item(cats: Seq<CategoryView>, name: Seq<char>, item: ItemView) -> Seq<CategoryView> {
    if exists|i: int| 0 <= i < cats.len() && cats[i].name == name {
        let i = choose|i: int| 0 <= i < cats.len() && cats[i].name == name && forall|j: int| 0 <= j < i ==> cats[j].name != name;
        cats.update(i, CategoryView { name, items: cats[i].items.push(item) })
    } else {
        cats.push(CategoryView { name, items: seq![item] })
    }
}

/// Pushing a category pushes its view.
pub proof fn lemma_categories_view_push(s: Seq<Category>, x: Category)
    ensures
        categories_view(s.push(x)) == categories_view(s).push(x@),
{
    assert(categories_view(s.push(x)) =~= categories_view(s).push(x@));
}

/// Replacing a category replaces its view.
pub proof fn lemma_categories_view_update(s: Seq<Category>, i: int, x: Category)
    requires
        0 <= i < s.len(),
    ensures
        categories_view(s.update(i, x)) == categories_view(s).update(i, x@),
{
    assert(categories_view(s.update(i, x)) =~= categories_view(s).update(i, x@));
}

impl List {
    /// The position of the first category named `name`, if any.
    pub fn category_index(&self, name: &str) -> (r: Option<usize>)
        ensures
            match r {
                Some(i) => i < self.cats().len() && self.cats()[i as int].name == name@
                    && forall|j: int| 0 <= j < i ==> (#[trigger] self.cats()[j]).name != name@,
                None => forall|j: int| 0 <= j < self.cats().len() ==> (#[trigger] self.cats()[j]).name != name@,
            },
    {
        let mut i: usize = 0;
        while i < self.categories.len()
            invariant
                i <= self.categories@.len(),
                forall|j: int| 0 <= j < i ==> (#[trigger] self.cats()[j]).name != name@,
            decreases self.categories@.len() - i,
        {
            assert(self.cats()[i as int] == self.categories@[i as int]@);
            if str_eq(self.categories[i].name.as_str(), name) {
                return Some(i);
            }
            i = i + 1;
        }
        None
    }

    /// Add a new to-do item with a fresh anchor to the uncategorized items.
    pub fn add_item(&mut self, text: String) -> (r: ListItem)
        ensures
            r.text@ == text@,
            r.status == ItemStatus::Todo,
            generated_anchor(r.anchor@),
            final(self).uncategorized() == old(self).uncategorized().push(r@),
            final(self).cats() == old(self).cats(),
            final(self).metadata.title == old(self).metadata.title,
            final(self).metadata.id == old(self).metadata.id,
    {
        let anchor = generate_anchor();
        let item = ListItem { text, status: ItemStatus::Todo, anchor };
        let r = copy_item(&item);
        let ghost old_v = self.uncategorized_items@;
        self.uncategorized_items.push(item);
        proof {
            lemma_items_view_push(old_v, item);
        }
        self.metadata.updated = now_rfc3339();
        ListItem { text: r.text, status: r.status, anchor: r.anchor }
    }

    /// Add a new to-do item with a fresh anchor to the named category (which
    /// is created when missing), or to the uncategorized items.
    pub fn add_item_to_category(&mut self, text: String, category: Option<&str>) -> (r: ListItem)
        ensures
            r.text@ == text@,
            r.status == ItemStatus::Todo,
            generated_anchor(r.anchor@),
            match category {
                Some(name) => final(self).cats() == cats_with_item(old(self).cats(), name@, r@)
                    && final(self).uncategorized() == old(self).uncategorized(),
                None => final(self).uncategorized() == old(self).uncategorized().push(r@)
                    && final(self).cats() == old(self).cats(),
            },
            final(self).metadata.title == old(self).metadata.title,
            final(self).metadata.id == old(self).metadata.id,
    {
        let anchor = generate_anchor();
        let item = ListItem { text, status: ItemStatus::Todo, anchor };
        let r = copy_item(&item);
        self.place_item(item, category);
        ListItem { text: r.text, status: r.status, anchor: r.anchor }
    }

    /// Put an item at the end of the named category (created when missing),
    /// or at the end of the uncategorized items.
    pub fn place_item(&mut self, item: ListItem, category: Option<&str>)
        ensures
            match category {
                Some(name) => final(self).cats() == cats_with_item(old(self).cats(), name@, item@)
                    && final(self).uncategorized() == old(self).uncategorized(),
                None => final(self).uncategorized() == old(self).uncategorized().push(item@)
                    && final(self).cats() == old(self).cats(),
            },
            final(self).metadata.title == old(self).metadata.title,
            final(self).metadata.id == old(self).metadata.id,
            final(self).metadata.sharing == old(self).metadata.sharing,
    {
        let ghost r = item;
        self.metadata.updated = now_rfc3339();
        match category {
            Some(name) => {
                match self.category_index(name) {
                    Some(i) => {
                        let ghost cats0 = self.categories@;
                        let mut cat = Category { name: String::new(), items: Vec::new() };
                        self.categories.set_and_swap(i, &mut cat);
                        let ghost old_items = cat.items@;
                        cat.items.push(item);
                        proof {
                            lemma_items_view_push(old_items, item);
                        }
                        let ghost c2 = cat;
                        self.categories.set_and_swap(i, &mut cat);
                        proof {
                            assert(self.categories@ == cats0.update(i as int, c2));
                            lemma_categories_view_update(cats0, i as int, c2);
                            let cv = categories_view(cats0);
                            assert(exists|k: int| 0 <= k < cv.len() && cv[k].name == name@) by {
                                assert(cv[i as int].name == name@);
                            }
                            let k = choose|k: int| 0 <= k < cv.len() && cv[k].name == name@ && forall|j: int| 0 <= j < k ==> cv[j].name != name@;
                            if k < i {
                                assert(cv[k].name != name@);
                            } else if k > i {
                                assert(cv[i as int].name != name@);
                            }
                            assert(c2@ == CategoryView { name: name@, items: cv[i as int].items.push(r@) });
                        }
                    },
                    None => {
                        let mut items: Vec<ListItem> = Vec::new();
                        items.push(item);
                        let cat = Category { name: owned(name), items };
                        let ghost cats0 = self.categories@;
                        proof {
                            assert(items_view(cat.items@) =~= seq![r@]);
                        }
                        self.categories.push(cat);
                        proof {
                            lemma_categories_view_push(cats0, cat);
                        }
                    },
                }
            },
            None => {
                let ghost old_v = self.uncategorized_items@;
                self.uncategorized_items.push(item);
                proof {
                    lemma_items_view_push(old_v, item);
                }
            },
        }
    }

    /// Get the file name for this list.
    pub fn file_name(&self) -> (r: String)
        ensures
            r@ == list_file_name(self.metadata.title@),
    {
        let lower = to_lowercase(self.metadata.title.as_str());
        let cs = chars_of(lower.as_str());
        let mut out: Vec<char> = Vec::new();
        let mut i: usize = 0;
        while i < cs.len()
            invariant
                i <= cs@.len(),
                cs@ == lowercase(self.metadata.title@),
                out@ == cs@.take(i as int).map_values(|c: char| if c == ' ' { '-' } else { c }),
            decreases cs@.len() - i,
        {
            let c = cs[i];
            out.push(if c == ' ' { '-' } else { c });
            assert(out@ =~= cs@.take(i + 1).map_values(|c: char| if c == ' ' { '-' } else { c }));
            i = i + 1;
        }
        assert(cs@.take(i as int) =~= cs@);
        let mut r = string_of(&out);
        r.append(".md");
        r
    }
}

/// `fuzzy_matcher`'s `SkimMatcherV2::default().fuzzy_match(choice, pattern)`:
/// the skim score of `pattern` against `choice`, when it matches at all.
pub uninterp spec fn skim_score(choice: Seq<char>, pattern: Seq<char>) -> Option<i64>;

/// `SkimMatcherV2::default().fuzzy_match`.
#[verifier::external_body]
pub(crate) fn skim_fuzzy_match(choice: &str, pattern: &str) -> (r: Option<i64>)
    ensures
        r == skim_score(choice@, pattern@),
{
    fuzzy_matcher::skim::SkimMatcherV2::default().fuzzy_match(choice, pattern)
}

/// Whether `needle` occurs in `hay`.
pub open spec fn occurs_in(hay: Seq<char>, needle: Seq<char>) -> bool {
    exists|i: int| 0 <= i && i + needle.len() <= hay.len() && #[trigger] hay.subrange(i, i + needle.len()) == needle
}

/// Whether `needle` occurs in `hay`.
pub fn contains_chars(hay: &Vec<char>, needle: &Vec<char>) -> (r: bool)
    ensures
        r == occurs_in(hay@, needle@),
{
    if needle.len() > hay.len() {
        return false;
    }
    let mut i: usize = 0;
    while i <= hay.len() - needle.len()
        invariant
            needle.len() <= hay.len(),
            i <= hay.len() - needle.len() + 1,
            forall|k: int| 0 <= k < i ==> #[trigger] hay@.subrange(k, k + needle@.len()) != needle@,
        decreases hay.len() - i,
    {
        let mut j: usize = 0;
        let mut same = true;
        while j < needle.len()
            invariant
                i + needle.len() <= hay.len(),
                j <= needle.len(),
                same == forall|m: int| 0 <= m < j ==> hay@[i + m] == needle@[m],
            decreases needle.len() - j,
        {
            if hay[i + j] != needle[j] {
                same = false;
            }
            j = j + 1;
        }
        if same {
            assert(hay@.subrange(i as int, i + needle@.len()) =~= needle@);
            return true;
        }
        proof {
            if hay@.subrange(i as int, i + needle@.len()) == needle@ {
                assert forall|m: int| 0 <= m < needle@.len() implies hay@[i + m] == needle@[m] by {
                    assert(hay@.subrange(i as int, i + needle@.len())[m] == hay@[i + m]);
                }
            }
        }
        i = i + 1;
    }
    proof {
        assert forall|k: int| 0 <= k && k + needle@.len() <= hay@.len() implies #[trigger] hay@.subrange(k, k + needle@.len()) != needle@ by {
            assert(k < i);
        }
    }
    false
}

/// The score with which an item enters a fuzzy search, if it does: its skim
/// score when that reaches the threshold, else, for queries of at most three
/// bytes that occur in its text (ignoring case), fifty per query byte.
pub open spec fn fuzzy_score(text: Seq<char>, query: Seq<char>, threshold: i64) -> Option<int> {
    match skim_score(text, query) {
        Some(s) if s >= threshold => Some(s as int),
        _ => if byte_len(query) <= 3 && occurs_in(lowercase(text), lowercase(query)) {
            Some((byte_len(query) * 50) as int)
        } else {
            None
        },
    }
}

/// Whether item `a` ranks before item `b`: a higher score first, and on equal
/// scores the earlier item first.
pub open spec fn ranks_before(a: int, sa: int, b: int, sb: int) -> bool {
    sa > sb || (sa == sb && a < b)
}

/// Whether `r` lists, without repetition and best first, exactly the items
/// that enter a fuzzy search for `query`.
pub open spec fn fuzzy_ranking(r: Seq<usize>, items: Seq<ItemView>, query: Seq<char>, threshold: i64) -> bool {
    &&& query.len() == 0 ==> r.len() == 0
    &&& query.len() > 0 ==> {
        &&& forall|i: int| 0 <= i < r.len() ==> r[i] < items.len() && (#[trigger] fuzzy_score(items[r[i] as int].text, query, threshold)) is Some
        &&& forall|k: int| 0 <= k < items.len() && (#[trigger] fuzzy_score(items[k].text, query, threshold)) is Some ==> exists|i: int| 0 <= i < r.len() && r[i] == k
        &&& r.no_duplicates()
        &&& forall|i: int, j: int| 0 <= i < j < r.len() ==> ranks_before(
            r[i] as int,
            fuzzy_score(items[r[i] as int].text, query, threshold)->0,
            r[j] as int,
            fuzzy_score(items[r[j] as int].text, query, threshold)->0,
        )
    }
}

/// Find items by fuzzy matching text with scoring and ranking; returns the
/// indices of the matching items, best first.
pub fn fuzzy_find(items: &[ListItem], query: &str, threshold: i64) -> (r: Vec<usize>)
    ensures
        fuzzy_ranking(r@, items_view(items@), query@, threshold),
{
    let ghost iv = items_view(items@);
    if query.is_empty() {
        return Vec::new();
    }
    let qlen = query.len();
    let short = qlen <= 3;
    let lq = to_lowercase(query);
    let lqc = chars_of(lq.as_str());
    // ranked (index, score) pairs, best first
    let mut ranked: Vec<(usize, i64)> = Vec::new();
    let mut index: usize = 0;
    while index < items.len()
        invariant
            index <= items@.len(),
            iv == items_view(items@),
            query@.len() > 0,
            qlen == query.len(),
            short == (qlen <= 3),
            lqc@ == lowercase(query@),
            forall|i: int| 0 <= i < ranked@.len() ==> (#[trigger] ranked@[i]).0 < index
                && fuzzy_score(iv[ranked@[i].0 as int].text, query@, threshold) == Some(ranked@[i].1 as int),
            forall|k: int| 0 <= k < index && (#[trigger] fuzzy_score(iv[k].text, query@, threshold)) is Some
                ==> exists|i: int| 0 <= i < ranked@.len() && ranked@[i].0 == k,
            forall|i: int, j: int| 0 <= i < j < ranked@.len() ==> ranks_before(
                ranked@[i].0 as int, ranked@[i].1 as int, ranked@[j].0 as int, ranked@[j].1 as int),
        decreases items@.len() - index,
    {
        let item = &items[index];
        assert(iv[index as int] == item@);
        let mut score: Option<i64> = None;
        match skim_fuzzy_match(item.text.as_str(), query) {
            Some(s) => {
                if s >= threshold {
                    score = Some(s);
                }
            },
            None => {},
        }
        if score.is_none() && short {
            let lt = to_lowercase(item.text.as_str());
            let ltc = chars_of(lt.as_str());
            if contains_chars(&ltc, &lqc) {
                score = Some((qlen * 50) as i64);
            }
        }
        assert(score == match fuzzy_score(iv[index as int].text, query@, threshold) {
            Some(s) => Some(s as i64),
            None => None::<i64>,
        });
        match score {
            Some(s) => {
                // insert after every entry that ranks at least as high
                let mut p: usize = 0;
                while p < ranked.len() && ranked[p].1 >= s
                    invariant
                        p <= ranked@.len(),
                        forall|m: int| 0 <= m < p ==> (#[trigger] ranked@[m]).1 >= s,
                    decreases ranked@.len() - p,
                {
                    p = p + 1;
                }
                proof {
                    assert forall|m: int| p <= m < ranked@.len() implies (#[trigger] ranked@[m]).1 < s by {
                        if ranked@[p as int].1 < s && m > p {
                            assert(ranks_before(ranked@[p as int].0 as int, ranked@[p as int].1 as int, ranked@[m].0 as int, ranked@[m].1 as int));
                        }
                    }
                }
                let ghost before = ranked@;
                ranked.insert(p, (index, s));
                proof {
                    assert forall|i: int, j: int| 0 <= i < j < ranked@.len() implies ranks_before(
                        ranked@[i].0 as int, ranked@[i].1 as int, ranked@[j].0 as int, ranked@[j].1 as int) by {
                        if i < p && j > p {
                            assert(ranked@[j] == before[j - 1]);
                            assert(ranked@[i] == before[i]);
                        } else if j == p as int {
                            assert(ranked@[i] == before[i]);
                        } else if i == p as int {
                            assert(ranked@[j] == before[j - 1]);
                        } else if j < p {
                            assert(ranked@[i] == before[i] && ranked@[j] == before[j]);
                        } else {
                            assert(ranked@[i] == before[i - 1] && ranked@[j] == before[j - 1]);
                        }
                    }
                    assert forall|k: int| 0 <= k < index + 1 && (#[trigger] fuzzy_score(iv[k].text, query@, threshold)) is Some
                        implies exists|i: int| 0 <= i < ranked@.len() && ranked@[i].0 == k by {
                        if k == index as int {
                            assert(ranked@[p as int].0 == k);
                        } else {
                            let i0 = choose|i: int| 0 <= i < before.len() && before[i].0 == k;
                            if i0 < p {
                                assert(ranked@[i0] == before[i0]);
                            } else {
                                assert(ranked@[i0 + 1] == before[i0]);
                            }
                        }
                    }
                    assert forall|i: int| 0 <= i < ranked@.len() implies (#[trigger] ranked@[i]).0 < index + 1
                        && fuzzy_score(iv[ranked@[i].0 as int].text, query@, threshold) == Some(ranked@[i].1 as int) by {
                        if i < p {
                            assert(ranked@[i] == before[i]);
                        } else if i > p {
                            assert(ranked@[i] == before[i - 1]);
                        }
                    }
                }
            },
            None => {},
        }
        index = index + 1;
    }
    let mut r: Vec<usize> = Vec::new();
    let mut i: usize = 0;
    while i < ranked.len()
        invariant
            i <= ranked@.len(),
            r@.len() == i,
            forall|m: int| 0 <= m < i ==> r@[m] == (#[trigger] ranked@[m]).0,
        decreases ranked@.len() - i,
    {
        r.push(ranked[i].0);
        i = i + 1;
    }
    proof {
        assert forall|m: int| 0 <= m < r@.len() implies r@[m] < iv.len() && (#[trigger] fuzzy_score(iv[r@[m] as int].text, query@, threshold)) is Some by {
            assert(r@[m] == ranked@[m].0);
        }
        assert forall|a: int, b: int| 0 <= a < b < r@.len() implies r@[a] != r@[b] by {
            assert(ranks_before(ranked@[a].0 as int, ranked@[a].1 as int, ranked@[b].0 as int, ranked@[b].1 as int));
            if r@[a] == r@[b] {
                assert(ranked@[a].1 == ranked@[b].1);
            }
        }
        assert(r@.no_duplicates()) by {
            assert forall|a: int, b: int| 0 <= a < r@.len() && 0 <= b < r@.len() && a != b implies r@[a] != r@[b] by {
                if a < b {
                    assert(r@[a] != r@[b]);
                } else {
                    assert(r@[b] != r@[a]);
                }
            }
        }
        assert forall|k: int| 0 <= k < iv.len() && (#[trigger] fuzzy_score(iv[k].text, query@, threshold)) is Some implies exists|i: int| 0 <= i < r@.len() && r@[i] == k by {
            let i0 = choose|i: int| 0 <= i < ranked@.len() && ranked@[i].0 == k;
            assert(r@[i0] == k);
        }
        assert forall|a: int, b: int| 0 <= a < b < r@.len() implies ranks_before(
            r@[a] as int,
            fuzzy_score(iv[r@[a] as int].text, query@, threshold)->0,
            r@[b] as int,
            fuzzy_score(iv[r@[b] as int].text, query@, threshold)->0,
        ) by {
            assert(ranks_before(ranked@[a].0 as int, ranked@[a].1 as int, ranked@[b].0 as int, ranked@[b].1 as int));
        }
    }
    r
}

} // verus!
