//! The markdown form of a list: parsing item lines and category headlines,
//! formatting a list back into markdown, and locating, marking and removing
//! items.

use vstd::prelude::*;

use crate::lines::{join_lines, lacks, lemma_lines_of_join, lines_of, split_lines, strip_cr};
use crate::list::{
    categories_view, generate_anchor, generated_anchor, is_anchor_char, items_view,
    lemma_categories_view_push, lemma_categories_view_update, lemma_items_view_push, valid_anchor,
    Category, CategoryView, ItemStatus, ItemView, List, ListItem, ListMetadata,
};
use crate::text::{
    chars_of, is_white_space, lemma_trim_end_index_bounds, lemma_trim_end_index_is_last,
    lemma_trim_start_index_bounds, lemma_trim_start_index_is_first,
    owned, slice_chars, string_of, trim_chars, trim_end_index, trim_end_spec, trim_spec,
    trim_start_index, trim_start_spec,
};

verus! {

broadcast use vstd::string::group_string_axioms;

/// An item as read from a line: its anchor when the line carries one.
pub struct ParsedItem {
    pub status: ItemStatus,
    pub text: Seq<char>,
    pub anchor: Option<Seq<char>>,
}

/// What has been read of a list so far: the category that the next items go
/// to, the uncategorized items, and the categories with their items.
pub struct ParseState {
    pub current: Option<Seq<char>>,
    pub uncategorized: Seq<ParsedItem>,
    pub categories: Seq<(Seq<char>, Seq<ParsedItem>)>,
}

/// Nothing read yet.
pub open spec fn initial_state() -> ParseState {
    ParseState { current: None, uncategorized: Seq::empty(), categories: Seq::empty() }
}

/// Start of the longest run of anchor characters that ends `s`.
pub open spec fn anchor_run_start(s: Seq<char>) -> int
    decreases s.len(),
{
    if s.len() == 0 {
        0
    } else if is_anchor_char(s.last()) {
        anchor_run_start(s.drop_last())
    } else {
        s.len() as int
    }
}

/// The item that a trimmed line holds, if it is one: `- [ ] text`,
/// `- [x] text` or `- [X] text`, optionally ending in two spaces and an
/// anchor (`^` and at least four of `[A-Za-z0-9-]`).
pub open spec fn item_of_line(t: Seq<char>) -> Option<ParsedItem> {
    if t.len() >= 6 && t[0] == '-' && t[1] == ' ' && t[2] == '[' && (t[3] == ' ' || t[3] == 'x'
        || t[3] == 'X') && t[4] == ']' && t[5] == ' ' {
        let rest = t.subrange(6, t.len() as int);
        let status = if t[3] == ' ' {
            ItemStatus::Todo
        } else {
            ItemStatus::Done
        };
        let q = anchor_run_start(rest);
        if q >= 3 && rest.len() - q >= 4 && rest[q - 3] == ' ' && rest[q - 2] == ' ' && rest[q - 1]
            == '^' {
            Some(
                ParsedItem {
                    status,
                    text: rest.subrange(0, q - 3),
                    anchor: Some(rest.subrange(q - 1, rest.len() as int)),
                },
            )
        } else {
            Some(ParsedItem { status, text: rest, anchor: None })
        }
    } else {
        None
    }
}

/// The category name that a trimmed line announces, if it is a headline
/// (`## ` followed by at least one character).
pub open spec fn headline_of_line(t: Seq<char>) -> Option<Seq<char>> {
    if t.len() >= 4 && t[0] == '#' && t[1] == '#' && t[2] == ' ' {
        Some(trim_spec(t.subrange(3, t.len() as int)))
    } else {
        None
    }
}

/// The names of read categories.
pub open spec fn cat_names(cats: Seq<(Seq<char>, Seq<ParsedItem>)>) -> Seq<Seq<char>> {
    cats.map_values(|c: (Seq<char>, Seq<ParsedItem>)| c.0)
}

/// The position of the first occurrence of `name` in `names`, if any.
pub open spec fn first_in(names: Seq<Seq<char>>, name: Seq<char>) -> Option<int> {
    if exists|i: int| 0 <= i < names.len() && names[i] == name {
        Some(choose|i: int| 0 <= i < names.len() && names[i] == name && forall|j: int| 0 <= j < i ==> names[j] != name)
    } else {
        None
    }
}

/// The position of the first category named `name`, if any.
pub open spec fn first_named(cats: Seq<(Seq<char>, Seq<ParsedItem>)>, name: Seq<char>) -> Option<int> {
    first_in(cat_names(cats), name)
}

/// `first_in` is the first position that holds `name`.
pub proof fn lemma_first_in(names: Seq<Seq<char>>, name: Seq<char>, k: int)
    requires
        0 <= k < names.len(),
        names[k] == name,
        forall|j: int| 0 <= j < k ==> names[j] != name,
    ensures
        first_in(names, name) == Some(k),
{
    let f = first_in(names, name)->0;
    if f < k {
        assert(names[f] != name);
    } else if f > k {
        assert(names[k] == name);
    }
}

/// Reading one line: a headline makes its category current (adding it when
/// new); an item goes to the current category, or is uncategorized before
/// the first headline; other lines are skipped.
pub open spec fn parse_step(st: ParseState, line: Seq<char>) -> ParseState {
    let t = trim_spec(line);
    match headline_of_line(t) {
        Some(name) => ParseState {
            current: Some(name),
            uncategorized: st.uncategorized,
            categories: if first_named(st.categories, name) is Some {
                st.categories
            } else {
                st.categories.push((name, Seq::empty()))
            },
        },
        None => match item_of_line(t) {
            Some(it) => match st.current {
                Some(c) => match first_named(st.categories, c) {
                    Some(k) => ParseState {
                        categories: st.categories.update(k, (st.categories[k].0, st.categories[k].1.push(it))),
                        ..st
                    },
                    None => st,
                },
                None => ParseState { uncategorized: st.uncategorized.push(it), ..st },
            },
            None => st,
        },
    }
}

/// Reading lines in order.
pub open spec fn parse_from(st: ParseState, lines: Seq<Seq<char>>) -> ParseState
    decreases lines.len(),
{
    if lines.len() == 0 {
        st
    } else {
        parse_from(parse_step(st, lines[0]), lines.drop_first())
    }
}

/// What the markdown text `content` holds.
pub open spec fn parse_content(content: Seq<char>) -> ParseState {
    parse_from(initial_state(), lines_of(content))
}

/// Whether an item is what was read: same text and status, and the anchor
/// read, or a fresh generated one where the line had none.
pub open spec fn item_matches(a: ItemView, p: ParsedItem) -> bool {
    &&& a.text == p.text
    &&& a.status == p.status
    &&& match p.anchor {
        Some(x) => a.anchor == x,
        None => generated_anchor(a.anchor),
    }
}

/// Whether items are, one by one, what was read.
pub open spec fn items_match(a: Seq<ItemView>, p: Seq<ParsedItem>) -> bool {
    &&& a.len() == p.len()
    &&& forall|i: int| 0 <= i < a.len() ==> item_matches(#[trigger] a[i], p[i])
}

/// Whether categories are, one by one, what was read.
pub open spec fn cats_match(a: Seq<CategoryView>, p: Seq<(Seq<char>, Seq<ParsedItem>)>) -> bool {
    &&& a.len() == p.len()
    &&& forall|i: int| 0 <= i < a.len() ==> (#[trigger] a[i]).name == p[i].0 && items_match(a[i].items, p[i].1)
}

pub proof fn lemma_parse_from_push(st: ParseState, a: Seq<Seq<char>>, x: Seq<char>)
    ensures
        parse_from(st, a.push(x)) == parse_step(parse_from(st, a), x),
    decreases a.len(),
{
    if a.len() == 0 {
        assert(a.push(x).drop_first() =~= Seq::<Seq<char>>::empty());
        assert(a.push(x)[0] == x);
        assert(parse_from(parse_step(st, x), Seq::<Seq<char>>::empty()) == parse_step(st, x));
        assert(parse_from(st, a) == st);
    } else {
        assert(a.push(x).drop_first() =~= a.drop_first().push(x));
        assert(a.push(x)[0] == a[0]);
        lemma_parse_from_push(parse_step(st, a[0]), a.drop_first(), x);
        assert(parse_from(st, a) == parse_from(parse_step(st, a[0]), a.drop_first()));
        assert(parse_from(st, a.push(x)) == parse_from(parse_step(st, a[0]), a.drop_first().push(x)));
    }
}

pub proof fn lemma_parse_from_concat(st: ParseState, a: Seq<Seq<char>>, b: Seq<Seq<char>>)
    ensures
        parse_from(st, a + b) == parse_from(parse_from(st, a), b),
    decreases a.len(),
{
    if a.len() == 0 {
        assert(a + b =~= b);
    } else {
        assert((a + b).drop_first() =~= a.drop_first() + b);
        lemma_parse_from_concat(parse_step(st, a[0]), a.drop_first(), b);
    }
}

proof fn lemma_anchor_run_start(s: Seq<char>)
    ensures
        0 <= anchor_run_start(s) <= s.len(),
        forall|j: int| anchor_run_start(s) <= j < s.len() ==> is_anchor_char(#[trigger] s[j]),
        anchor_run_start(s) > 0 ==> !is_anchor_char(s[anchor_run_start(s) - 1]),
    decreases s.len(),
{
    if s.len() > 0 && is_anchor_char(s.last()) {
        lemma_anchor_run_start(s.drop_last());
        assert forall|j: int| anchor_run_start(s) <= j < s.len() implies is_anchor_char(#[trigger] s[j]) by {
            if j < s.len() - 1 {
                assert(s[j] == s.drop_last()[j]);
            }
        }
    }
}

pub proof fn lemma_anchor_run_start_is(s: Seq<char>, k: int)
    requires
        0 <= k <= s.len(),
        forall|j: int| k <= j < s.len() ==> is_anchor_char(#[trigger] s[j]),
        k > 0 ==> !is_anchor_char(s[k - 1]),
    ensures
        anchor_run_start(s) == k,
    decreases s.len(),
{
    if s.len() > 0 && k < s.len() {
        assert(is_anchor_char(s[s.len() - 1]));
        assert forall|j: int| k <= j < s.len() - 1 implies is_anchor_char(#[trigger] s.drop_last()[j]) by {
            assert(s.drop_last()[j] == s[j]);
        }
        if k > 0 {
            assert(s.drop_last()[k - 1] == s[k - 1]);
        }
        lemma_anchor_run_start_is(s.drop_last(), k);
    }
}

fn is_anchor_character(c: char) -> (r: bool)
    ensures
        r == is_anchor_char(c),
{
    ('a' <= c && c <= 'z') || ('A' <= c && c <= 'Z') || ('0' <= c && c <= '9') || c == '-'
}

fn anchor_run(s: &Vec<char>) -> (r: usize)
    ensures
        r == anchor_run_start(s@),
{
    let mut k = s.len();
    while k > 0 && is_anchor_character(s[k - 1])
        invariant
            k <= s@.len(),
            forall|j: int| k <= j < s@.len() ==> is_anchor_char(#[trigger] s@[j]),
        decreases k,
    {
        k = k - 1;
    }
    proof {
        lemma_anchor_run_start_is(s@, k as int);
    }
    k
}

/// The item a trimmed line holds, if it is one.
pub fn parse_item_line(t: &Vec<char>) -> (r: Option<(ItemStatus, Vec<char>, Option<Vec<char>>)>)
    ensures
        match item_of_line(t@) {
            Some(p) => r matches Some((s, text, a)) && s == p.status && text@ == p.text && match p.anchor {
                Some(x) => a matches Some(av) && av@ == x,
                None => a is None,
            },
            None => r is None,
        },
{
    if !(t.len() >= 6 && t[0] == '-' && t[1] == ' ' && t[2] == '[' && (t[3] == ' ' || t[3] == 'x'
        || t[3] == 'X') && t[4] == ']' && t[5] == ' ') {
        return None;
    }
    let rest = slice_chars(t, 6, t.len());
    let status = if t[3] == ' ' {
        ItemStatus::Todo
    } else {
        ItemStatus::Done
    };
    let q = anchor_run(&rest);
    proof {
        lemma_anchor_run_start(rest@);
    }
    if q >= 3 && rest.len() - q >= 4 && rest[q - 3] == ' ' && rest[q - 2] == ' ' && rest[q - 1] == '^' {
        let text = slice_chars(&rest, 0, q - 3);
        let anchor = slice_chars(&rest, q - 1, rest.len());
        Some((status, text, Some(anchor)))
    } else {
        Some((status, rest, None))
    }
}

/// The category name a trimmed line announces, if it is a headline.
pub fn parse_headline(t: &Vec<char>) -> (r: Option<Vec<char>>)
    ensures
        match headline_of_line(t@) {
            Some(n) => r matches Some(v) && v@ == n,
            None => r is None,
        },
{
    if t.len() >= 4 && t[0] == '#' && t[1] == '#' && t[2] == ' ' {
        let rest = slice_chars(t, 3, t.len());
        Some(trim_chars(&rest))
    } else {
        None
    }
}

/// Parse list items from markdown content, replacing the list's items and
/// categories; items without an anchor get a fresh one.
pub fn parse_items(list: &mut List, content: &str)
    ensures
        items_match(final(list).uncategorized(), parse_content(content@).uncategorized),
        cats_match(final(list).cats(), parse_content(content@).categories),
        final(list).metadata == old(list).metadata,
        final(list).items == old(list).items,
{
    list.uncategorized_items.clear();
    list.categories.clear();
    let cs = chars_of(content);
    let lines = split_lines(&cs);
    let ghost ls = lines@.map_values(|l: Vec<char>| l@);
    let mut current: Option<String> = None;
    let mut i: usize = 0;
    assert(ls.take(0) =~= Seq::<Seq<char>>::empty());
    while i < lines.len()
        invariant
            i <= lines@.len(),
            ls == lines@.map_values(|l: Vec<char>| l@),
            ls == lines_of(content@),
            list.metadata == old(list).metadata,
            list.items == old(list).items,
            ({
                let st = parse_from(initial_state(), ls.take(i as int));
                &&& items_match(list.uncategorized(), st.uncategorized)
                &&& cats_match(list.cats(), st.categories)
                &&& match st.current {
                    Some(c) => current matches Some(cur) && cur@ == c,
                    None => current is None,
                }
            }),
        decreases lines@.len() - i,
    {
        let ghost st = parse_from(initial_state(), ls.take(i as int));
        proof {
            assert(ls.take(i + 1) =~= ls.take(i as int).push(ls[i as int]));
            lemma_parse_from_push(initial_state(), ls.take(i as int), ls[i as int]);
        }
        let ghost st2 = parse_step(st, ls[i as int]);
        let t = trim_chars(&lines[i]);
        assert(t@ == trim_spec(ls[i as int]));
        match parse_headline(&t) {
            Some(name_chars) => {
                let name = string_of(&name_chars);
                match list.category_index(name.as_str()) {
                    Some(_) => {
                        proof {
                            assert(exists|k: int| 0 <= k < cat_names(st.categories).len() && cat_names(st.categories)[k] == name@) by {
                                let k = choose|k: int| 0 <= k < list.cats().len() && list.cats()[k].name == name@;
                                assert(list.cats()[k].name == st.categories[k].0);
                                assert(cat_names(st.categories)[k] == st.categories[k].0);
                            }
                        }
                    },
                    None => {
                        proof {
                            assert forall|k: int| 0 <= k < cat_names(st.categories).len() implies cat_names(st.categories)[k] != name@ by {
                                assert(list.cats()[k].name == st.categories[k].0);
                            }
                        }
                        let cat = Category { name: name.clone(), items: Vec::new() };
                        let ghost cats0 = list.categories@;
                        list.categories.push(cat);
                        proof {
                            lemma_categories_view_push(cats0, cat);
                            assert(items_view(cat.items@) =~= Seq::<ItemView>::empty());
                            let nc = st.categories.push((name@, Seq::<ParsedItem>::empty()));
                            assert forall|k: int| 0 <= k < list.cats().len() implies (#[trigger] list.cats()[k]).name == nc[k].0 && items_match(list.cats()[k].items, nc[k].1) by {
                                if k < cats0.len() {
                                    assert(list.cats()[k] == categories_view(cats0)[k]);
                                }
                            }
                        }
                    },
                }
                current = Some(name);
            },
            None => {
                match parse_item_line(&t) {
                    Some((status, text_chars, anchor_opt)) => {
                        let anchor = match anchor_opt {
                            Some(a) => string_of(&a),
                            None => generate_anchor(),
                        };
                        let item = ListItem { text: string_of(&text_chars), status, anchor };
                        let ghost pit = item_of_line(t@)->0;
                        assert(item_matches(item@, pit));
                        match &current {
                            Some(c) => {
                                match list.category_index(c.as_str()) {
                                    Some(k) => {
                                        proof {
                                            assert(st.categories[k as int].0 == c@);
                                            assert forall|j: int| 0 <= j < k implies st.categories[j].0 != c@ by {
                                                assert(list.cats()[j].name == st.categories[j].0);
                                            }
                                            assert forall|j: int| 0 <= j < k implies cat_names(st.categories)[j] != c@ by {
                                                assert(cat_names(st.categories)[j] == st.categories[j].0);
                                            }
                                            lemma_first_in(cat_names(st.categories), c@, k as int);
                                        }
                                        let ghost cats0 = list.categories@;
                                        let mut cat = Category { name: String::new(), items: Vec::new() };
                                        list.categories.set_and_swap(k, &mut cat);
                                        let ghost old_items = cat.items@;
                                        cat.items.push(item);
                                        proof {
                                            lemma_items_view_push(old_items, item);
                                        }
                                        let ghost c2 = cat;
                                        list.categories.set_and_swap(k, &mut cat);
                                        proof {
                                            lemma_categories_view_update(cats0, k as int, c2);
                                            let nc = st2.categories;
                                            assert forall|m: int| 0 <= m < list.cats().len() implies (#[trigger] list.cats()[m]).name == nc[m].0 && items_match(list.cats()[m].items, nc[m].1) by {
                                                if m == k as int {
                                                    let a = list.cats()[m].items;
                                                    let p = nc[m].1;
                                                    assert forall|x: int| 0 <= x < a.len() implies item_matches(#[trigger] a[x], p[x]) by {
                                                        if x < a.len() - 1 {
                                                            assert(a[x] == categories_view(cats0)[m].items[x]);
                                                        }
                                                    }
                                                } else {
                                                    assert(list.cats()[m] == categories_view(cats0)[m]);
                                                }
                                            }
                                        }
                                    },
                                    None => {
                                        proof {
                                            assert forall|j: int| 0 <= j < cat_names(st.categories).len() implies cat_names(st.categories)[j] != c@ by {
                                                assert(list.cats()[j].name == st.categories[j].0);
                                            }
                                        }
                                    },
                                }
                            },
                            None => {
                                let ghost old_v = list.uncategorized_items@;
                                list.uncategorized_items.push(item);
                                proof {
                                    lemma_items_view_push(old_v, item);
                                    let a = list.uncategorized();
                                    let p = st2.uncategorized;
                                    assert forall|x: int| 0 <= x < a.len() implies item_matches(#[trigger] a[x], p[x]) by {
                                        if x < a.len() - 1 {
                                            assert(a[x] == items_view(old_v)[x]);
                                        }
                                    }
                                }
                            },
                        }
                    },
                    None => {},
                }
            },
        }
        i = i + 1;
    }
    assert(ls.take(lines@.len() as int) =~= ls);
}

/// The status mark written between the brackets.
pub open spec fn status_mark(s: ItemStatus) -> Seq<char> {
    match s {
        ItemStatus::Todo => " "@,
        ItemStatus::Done => "x"@,
    }
}

/// The markdown line of an item.
pub open spec fn item_text_line(it: ItemView) -> Seq<char> {
    "- ["@ + status_mark(it.status) + "] "@ + it.text + "  "@ + it.anchor
}

/// The markdown lines of items.
pub open spec fn item_lines(items: Seq<ItemView>) -> Seq<Seq<char>> {
    items.map_values(|it: ItemView| item_text_line(it))
}

/// The markdown lines of a category: its headline, its items, a blank line.
pub open spec fn category_lines(c: CategoryView) -> Seq<Seq<char>> {
    seq!["## "@ + c.name] + item_lines(c.items) + seq![Seq::<char>::empty()]
}

/// The markdown lines of categories, in order.
pub open spec fn categories_lines(cats: Seq<CategoryView>) -> Seq<Seq<char>>
    decreases cats.len(),
{
    if cats.len() == 0 {
        Seq::empty()
    } else {
        categories_lines(cats.drop_last()) + category_lines(cats.last())
    }
}

/// The markdown lines of a list's items: uncategorized items, a blank line
/// when categories follow them, then the categories.
pub open spec fn body_lines(uncat: Seq<ItemView>, cats: Seq<CategoryView>) -> Seq<Seq<char>> {
    item_lines(uncat) + (if uncat.len() > 0 && cats.len() > 0 {
        seq![Seq::<char>::empty()]
    } else {
        Seq::empty()
    }) + categories_lines(cats)
}

/// The markdown document of a list: the frontmatter between `---` lines,
/// a blank line, then the item lines.
pub open spec fn list_markdown(frontmatter: Seq<char>, uncat: Seq<ItemView>, cats: Seq<CategoryView>) -> Seq<char> {
    "---\n"@ + frontmatter + "---\n\n"@ + join_lines(body_lines(uncat, cats))
}

pub proof fn lemma_join_single(l: Seq<char>)
    ensures
        join_lines(seq![l]) == l + seq!['\n'],
{
    assert(seq![l].drop_first() =~= Seq::<Seq<char>>::empty());
    assert(seq![l][0] == l);
    assert(join_lines(Seq::<Seq<char>>::empty()) == Seq::<char>::empty());
    assert(join_lines(seq![l]) == l + seq!['\n'] + join_lines(seq![l].drop_first()));
    assert(join_lines(seq![l]) =~= l + seq!['\n']);
}

pub proof fn lemma_join_push(ls: Seq<Seq<char>>, l: Seq<char>)
    ensures
        join_lines(ls.push(l)) == join_lines(ls) + l + seq!['\n'],
    decreases ls.len(),
{
    if ls.len() == 0 {
        assert(ls.push(l).drop_first() =~= Seq::<Seq<char>>::empty());
        assert(join_lines(ls.push(l)) == l + seq!['\n'] + join_lines(Seq::<Seq<char>>::empty()));
        assert(join_lines(ls.push(l)) =~= join_lines(ls) + l + seq!['\n']);
    } else {
        assert(ls.push(l).drop_first() =~= ls.drop_first().push(l));
        lemma_join_push(ls.drop_first(), l);
        assert(join_lines(ls.push(l)) == ls[0] + seq!['\n'] + join_lines(ls.drop_first().push(l)));
        assert(join_lines(ls.push(l)) =~= join_lines(ls) + l + seq!['\n']);
    }
}

pub proof fn lemma_join_concat(a: Seq<Seq<char>>, b: Seq<Seq<char>>)
    ensures
        join_lines(a + b) == join_lines(a) + join_lines(b),
    decreases a.len(),
{
    if a.len() == 0 {
        assert(a + b =~= b);
        assert(join_lines(a) + join_lines(b) =~= join_lines(b));
    } else {
        assert((a + b).drop_first() =~= a.drop_first() + b);
        lemma_join_concat(a.drop_first(), b);
        assert(join_lines(a + b) =~= join_lines(a) + join_lines(b));
    }
}

fn push_line(out: &mut String, line: &str)
    ensures
        final(out)@ == old(out)@ + line@ + seq!['\n'],
{
    out.append(line);
    out.append("\n");
    proof {
        reveal_strlit("\n");
        assert("\n"@ =~= seq!['\n']);
    }
}

fn item_line_string(item: &ListItem) -> (r: String)
    ensures
        r@ == item_text_line(item@),
{
    let mut line = owned("- [");
    match item.status {
        ItemStatus::Todo => line.append(" "),
        ItemStatus::Done => line.append("x"),
    }
    line.append("] ");
    line.append(item.text.as_str());
    line.append("  ");
    line.append(item.anchor.as_str());
    line
}

fn push_items(out: &mut String, items: &Vec<ListItem>)
    ensures
        final(out)@ == old(out)@ + join_lines(item_lines(items_view(items@))),
{
    let ghost start = out@;
    let mut i: usize = 0;
    assert(item_lines(items_view(items@)).take(0) =~= Seq::<Seq<char>>::empty());
    while i < items.len()
        invariant
            i <= items@.len(),
            out@ == start + join_lines(item_lines(items_view(items@)).take(i as int)),
        decreases items@.len() - i,
    {
        let line = item_line_string(&items[i]);
        push_line(out, line.as_str());
        proof {
            let ls = item_lines(items_view(items@));
            assert(ls.take(i + 1) =~= ls.take(i as int).push(ls[i as int]));
            lemma_join_push(ls.take(i as int), ls[i as int]);
        }
        i = i + 1;
    }
    assert(item_lines(items_view(items@)).take(i as int) =~= item_lines(items_view(items@)));
}

/// Format a list as markdown, with the given frontmatter (the list's
/// metadata in YAML, ending in a newline).
pub fn format_list_as_markdown(list: &List, frontmatter: &str) -> (r: String)
    ensures
        r@ == list_markdown(frontmatter@, list.uncategorized(), list.cats()),
{
    let mut content = owned("---\n");
    content.append(frontmatter);
    content.append("---\n\n");
    let ghost head = content@;
    push_items(&mut content, &list.uncategorized_items);
    let ghost u = item_lines(list.uncategorized());
    let sep = list.uncategorized_items.len() > 0 && list.categories.len() > 0;
    let ghost sl = if sep {
        seq![Seq::<char>::empty()]
    } else {
        Seq::<Seq<char>>::empty()
    };
    if sep {
        push_line(&mut content, "");
        proof {
            reveal_strlit("");
        }
    }
    assert(content@ == head + join_lines(u) + join_lines(sl)) by {
        if sep {
            lemma_join_single(Seq::<char>::empty());
            assert(join_lines(sl) =~= seq!['\n']);
            assert(""@ =~= Seq::<char>::empty());
        } else {
            assert(join_lines(u) + join_lines(sl) =~= join_lines(u));
        }
    }
    let mut i: usize = 0;
    let ghost cv = list.cats();
    assert(cv.take(0) =~= Seq::<CategoryView>::empty());
    while i < list.categories.len()
        invariant
            i <= list.categories@.len(),
            cv == list.cats(),
            content@ == head + join_lines(u) + join_lines(sl) + join_lines(categories_lines(cv.take(i as int))),
        decreases list.categories@.len() - i,
    {
        let cat = &list.categories[i];
        let ghost before = content@;
        let mut h = owned("## ");
        h.append(cat.name.as_str());
        push_line(&mut content, h.as_str());
        push_items(&mut content, &cat.items);
        push_line(&mut content, "");
        proof {
            reveal_strlit("");
            let c = cv[i as int];
            assert(c == cat@);
            let cl = category_lines(c);
            lemma_join_push(seq!["## "@ + c.name], Seq::<char>::empty());
            lemma_join_concat(seq!["## "@ + c.name], item_lines(c.items) + seq![Seq::<char>::empty()]);
            lemma_join_concat(item_lines(c.items), seq![Seq::<char>::empty()]);
            lemma_join_single("## "@ + c.name);
            lemma_join_single(Seq::<char>::empty());
            assert(cl =~= seq!["## "@ + c.name] + (item_lines(c.items) + seq![Seq::<char>::empty()]));
            assert(join_lines(cl) =~= "## "@ + c.name + seq!['\n'] + join_lines(item_lines(c.items)) + seq!['\n']);
            assert(cv.take(i + 1).drop_last() =~= cv.take(i as int));
            assert(categories_lines(cv.take(i + 1)) == categories_lines(cv.take(i as int)) + cl);
            lemma_join_concat(categories_lines(cv.take(i as int)), cl);
            assert(""@ =~= Seq::<char>::empty());
            assert(content@ =~= head + join_lines(u) + join_lines(sl) + join_lines(categories_lines(cv.take(i + 1))));
        }
        i = i + 1;
    }
    proof {
        assert(cv.take(i as int) =~= cv);
        lemma_join_concat(u, sl);
        lemma_join_concat(u + sl, categories_lines(cv));
        assert(body_lines(list.uncategorized(), cv) == u + sl + categories_lines(cv));
        assert(content@ =~= list_markdown(frontmatter@, list.uncategorized(), cv));
    }
    content
}

/// An item that survives being written and read back: its text holds no
/// line break and its anchor is valid.
pub open spec fn item_well_formed(it: ItemView) -> bool {
    lacks(it.text, '\n') && valid_anchor(it.anchor)
}

/// A category that survives being written and read back: a non-empty name
/// without surrounding white space or line breaks, and well-formed items.
pub open spec fn category_well_formed(c: CategoryView) -> bool {
    &&& c.name.len() > 0
    &&& trim_spec(c.name) == c.name
    &&& lacks(c.name, '\n')
    &&& forall|i: int| 0 <= i < c.items.len() ==> item_well_formed(#[trigger] c.items[i])
}

/// A list that survives being written and read back: well-formed items and
/// categories, with distinct category names.
pub open spec fn list_well_formed(uncat: Seq<ItemView>, cats: Seq<CategoryView>) -> bool {
    &&& forall|i: int| 0 <= i < uncat.len() ==> item_well_formed(#[trigger] uncat[i])
    &&& forall|i: int| 0 <= i < cats.len() ==> category_well_formed(#[trigger] cats[i])
    &&& forall|i: int, j: int| 0 <= i < j < cats.len() ==> (#[trigger] cats[i]).name != (#[trigger] cats[j]).name
}

/// An item as read back from its line.
pub open spec fn parsed_item(it: ItemView) -> ParsedItem {
    ParsedItem { status: it.status, text: it.text, anchor: Some(it.anchor) }
}

/// Items as read back from their lines.
pub open spec fn parsed_items(items: Seq<ItemView>) -> Seq<ParsedItem> {
    items.map_values(|it: ItemView| parsed_item(it))
}

/// Categories as read back from their lines.
pub open spec fn parsed_cats(cats: Seq<CategoryView>) -> Seq<(Seq<char>, Seq<ParsedItem>)> {
    cats.map_values(|c: CategoryView| (c.name, parsed_items(c.items)))
}

/// What reading back a written list gives.
pub open spec fn expected_state(uncat: Seq<ItemView>, cats: Seq<CategoryView>) -> ParseState {
    ParseState {
        current: if cats.len() > 0 {
            Some(cats.last().name)
        } else {
            None
        },
        uncategorized: parsed_items(uncat),
        categories: parsed_cats(cats),
    }
}

proof fn lemma_trim_plain(s: Seq<char>)
    requires
        s.len() > 0,
        !is_white_space(s[0]),
        !is_white_space(s.last()),
    ensures
        trim_spec(s) == s,
{
    lemma_trim_start_index_is_first(s, 0);
    assert(trim_start_spec(s) =~= s);
    lemma_trim_end_index_is_last(s, s.len() as int);
    assert(trim_end_spec(s) =~= s);
}

proof fn lemma_trimmed_ends(s: Seq<char>)
    requires
        s.len() > 0,
        trim_spec(s) == s,
    ensures
        !is_white_space(s[0]),
        !is_white_space(s.last()),
{
    lemma_trim_start_index_bounds(s);
    let t = trim_start_spec(s);
    lemma_trim_end_index_bounds(t);
    if is_white_space(s[0]) {
        assert(trim_spec(s).len() < s.len());
    }
    if is_white_space(s.last()) {
        if trim_start_index(s) == s.len() {
            assert(t.len() == 0);
        } else {
            assert(t.last() == s.last());
            assert(trim_end_index(t) < t.len());
        }
        assert(trim_spec(s).len() < s.len());
    }
}

proof fn lemma_empty_line_step(st: ParseState)
    ensures
        parse_step(st, Seq::empty()) == st,
{
    let e = Seq::<char>::empty();
    assert(trim_start_index(e) == 0);
    assert(trim_end_index(e.subrange(0, 0)) == 0);
    assert(trim_spec(e) =~= e);
}

proof fn lemma_item_line_read(it: ItemView)
    requires
        item_well_formed(it),
    ensures
        trim_spec(item_text_line(it)) == item_text_line(it),
        headline_of_line(item_text_line(it)) is None,
        item_of_line(item_text_line(it)) == Some(parsed_item(it)),
        lacks(item_text_line(it), '\n'),
        strip_cr(item_text_line(it)) == item_text_line(it),
{
    reveal_strlit("- [");
    reveal_strlit(" ");
    reveal_strlit("x");
    reveal_strlit("] ");
    reveal_strlit("  ");
    let m = status_mark(it.status);
    let l = item_text_line(it);
    let n: int = it.text.len() as int;
    assert(m.len() == 1);
    assert(l.len() == 6 + n + 2 + it.anchor.len());
    assert(l[0] == '-' && l[1] == ' ' && l[2] == '[' && l[3] == m[0] && l[4] == ']' && l[5] == ' ');
    let rest = l.subrange(6, l.len() as int);
    assert(rest =~= it.text + "  "@ + it.anchor);
    assert(l.last() == it.anchor.last());
    assert(is_anchor_char(it.anchor.last()));
    lemma_trim_plain(l);
    assert forall|j: int| n + 3 <= j < rest.len() implies is_anchor_char(#[trigger] rest[j]) by {
        assert(rest[j] == it.anchor[j - n - 2]);
    }
    assert(rest[n + 2] == '^');
    lemma_anchor_run_start_is(rest, n + 3);
    assert(rest.subrange(0, n as int) =~= it.text);
    assert(rest.subrange(n + 2, rest.len() as int) =~= it.anchor);
    assert forall|j: int| 0 <= j < l.len() implies l[j] != '\n' by {
        if 6 <= j < 6 + n {
            assert(l[j] == it.text[j - 6]);
        } else if j >= 8 + n {
            assert(l[j] == it.anchor[j - 8 - n]);
            if j > 8 + n {
                assert(is_anchor_char(it.anchor[j - 8 - n]));
            }
        }
    }
    if it.status == ItemStatus::Todo {
        assert(l[3] == ' ');
    } else {
        assert(l[3] == 'x');
    }
}

proof fn lemma_headline_read(name: Seq<char>)
    requires
        name.len() > 0,
        trim_spec(name) == name,
        lacks(name, '\n'),
    ensures
        trim_spec("## "@ + name) == "## "@ + name,
        headline_of_line("## "@ + name) == Some(name),
        lacks("## "@ + name, '\n'),
        strip_cr("## "@ + name) == "## "@ + name,
{
    reveal_strlit("## ");
    let h = "## "@ + name;
    lemma_trimmed_ends(name);
    assert(h[0] == '#');
    assert(h.last() == name.last());
    lemma_trim_plain(h);
    assert(h.subrange(3, h.len() as int) =~= name);
    assert forall|j: int| 0 <= j < h.len() implies h[j] != '\n' by {
        if j >= 3 {
            assert(h[j] == name[j - 3]);
        }
    }
}

proof fn lemma_uncategorized_lines(st: ParseState, items: Seq<ItemView>)
    requires
        st.current is None,
        forall|i: int| 0 <= i < items.len() ==> item_well_formed(#[trigger] items[i]),
    ensures
        parse_from(st, item_lines(items)) == (ParseState { uncategorized: st.uncategorized + parsed_items(items), ..st }),
    decreases items.len(),
{
    if items.len() == 0 {
        assert(item_lines(items) =~= Seq::<Seq<char>>::empty());
        assert(st.uncategorized + parsed_items(items) =~= st.uncategorized);
    } else {
        let init = items.drop_last();
        let last = items.last();
        lemma_uncategorized_lines(st, init);
        assert(item_lines(items) =~= item_lines(init).push(item_text_line(last)));
        lemma_parse_from_push(st, item_lines(init), item_text_line(last));
        lemma_item_line_read(last);
        assert(st.uncategorized + parsed_items(items) =~= (st.uncategorized + parsed_items(init)).push(parsed_item(last)));
    }
}

proof fn lemma_item_step_in_category(st: ParseState, it: ItemView, k: int)
    requires
        st.current matches Some(c) && first_named(st.categories, c) == Some(k),
        0 <= k < st.categories.len(),
        item_well_formed(it),
    ensures
        parse_step(st, item_text_line(it)) == (ParseState {
            categories: st.categories.update(k, (st.categories[k].0, st.categories[k].1.push(parsed_item(it)))),
            ..st
        }),
{
    lemma_item_line_read(it);
}

proof fn lemma_cat_names_update(cats: Seq<(Seq<char>, Seq<ParsedItem>)>, k: int, items: Seq<ParsedItem>)
    requires
        0 <= k < cats.len(),
    ensures
        cat_names(cats.update(k, (cats[k].0, items))) == cat_names(cats),
{
    assert(cat_names(cats.update(k, (cats[k].0, items))) =~= cat_names(cats));
}

#[verifier::rlimit(30)]
proof fn lemma_category_item_lines(st: ParseState, items: Seq<ItemView>, k: int)
    requires
        st.current matches Some(c) && first_named(st.categories, c) == Some(k),
        0 <= k < st.categories.len(),
        forall|i: int| 0 <= i < items.len() ==> item_well_formed(#[trigger] items[i]),
    ensures
        parse_from(st, item_lines(items)) == (ParseState {
            categories: st.categories.update(k, (st.categories[k].0, st.categories[k].1 + parsed_items(items))),
            ..st
        }),
    decreases items.len(),
{
    if items.len() == 0 {
        assert(item_lines(items) =~= Seq::<Seq<char>>::empty());
        assert(st.categories.update(k, (st.categories[k].0, st.categories[k].1 + parsed_items(items))) =~= st.categories);
    } else {
        let init = items.drop_last();
        let last = items.last();
        assert forall|i: int| 0 <= i < init.len() implies item_well_formed(#[trigger] init[i]) by {
            assert(init[i] == items[i]);
        }
        lemma_category_item_lines(st, init, k);
        let done = st.categories[k].1 + parsed_items(init);
        let mid = parse_from(st, item_lines(init));
        assert(mid == (ParseState { categories: st.categories.update(k, (st.categories[k].0, done)), ..st }));
        lemma_cat_names_update(st.categories, k, done);
        assert(first_named(mid.categories, st.current->0) == Some(k));
        assert(item_lines(items) =~= item_lines(init).push(item_text_line(last)));
        lemma_parse_from_push(st, item_lines(init), item_text_line(last));
        lemma_item_step_in_category(mid, last, k);
        assert(st.categories[k].1 + parsed_items(items) =~= done.push(parsed_item(last)));
        assert(st.categories.update(k, (st.categories[k].0, st.categories[k].1 + parsed_items(items)))
            =~= mid.categories.update(k, (mid.categories[k].0, mid.categories[k].1.push(parsed_item(last)))));
    }
}

proof fn lemma_categories_read(st: ParseState, cats: Seq<CategoryView>)
    requires
        st.categories.len() == 0,
        forall|i: int| 0 <= i < cats.len() ==> category_well_formed(#[trigger] cats[i]),
        forall|i: int, j: int| 0 <= i < j < cats.len() ==> (#[trigger] cats[i]).name != (#[trigger] cats[j]).name,
    ensures
        parse_from(st, categories_lines(cats)) == (ParseState {
            current: if cats.len() > 0 { Some(cats.last().name) } else { st.current },
            uncategorized: st.uncategorized,
            categories: parsed_cats(cats),
        }),
    decreases cats.len(),
{
    if cats.len() == 0 {
        assert(parsed_cats(cats) =~= st.categories);
    } else {
        let init = cats.drop_last();
        let c = cats.last();
        let k = init.len() as int;
        lemma_categories_read(st, init);
        let mid = parse_from(st, categories_lines(init));
        lemma_parse_from_concat(st, categories_lines(init), category_lines(c));
        // headline
        assert(category_well_formed(c));
        lemma_headline_read(c.name);
        assert forall|j: int| 0 <= j < cat_names(mid.categories).len() implies cat_names(mid.categories)[j] != c.name by {
            assert(cat_names(mid.categories)[j] == init[j].name);
            assert(init[j] == cats[j]);
        }
        let s1 = parse_step(mid, "## "@ + c.name);
        assert(s1.categories == mid.categories.push((c.name, Seq::<ParsedItem>::empty())));
        assert(s1.current == Some(c.name));
        assert forall|j: int| 0 <= j < k implies cat_names(s1.categories)[j] != c.name by {
            assert(cat_names(s1.categories)[j] == init[j].name);
            assert(init[j] == cats[j]);
        }
        lemma_first_in(cat_names(s1.categories), c.name, k);
        lemma_parse_from_concat(mid, seq!["## "@ + c.name], item_lines(c.items) + seq![Seq::<char>::empty()]);
        assert(seq!["## "@ + c.name].drop_first() =~= Seq::<Seq<char>>::empty());
        assert(parse_from(mid, seq!["## "@ + c.name]) == parse_from(s1, Seq::<Seq<char>>::empty()));
        assert(category_lines(c) =~= seq!["## "@ + c.name] + (item_lines(c.items) + seq![Seq::<char>::empty()]));
        // items
        assert forall|i: int| 0 <= i < c.items.len() implies item_well_formed(#[trigger] c.items[i]) by {}
        lemma_category_item_lines(s1, c.items, k);
        let s2 = parse_from(s1, item_lines(c.items));
        lemma_parse_from_concat(s1, item_lines(c.items), seq![Seq::<char>::empty()]);
        // blank line
        lemma_empty_line_step(s2);
        assert(seq![Seq::<char>::empty()].drop_first() =~= Seq::<Seq<char>>::empty());
        assert(parse_from(s2, seq![Seq::<char>::empty()]) == parse_from(parse_step(s2, Seq::<char>::empty()), Seq::<Seq<char>>::empty()));
        assert(s2.categories =~= parsed_cats(cats));
    }
}

/// Written item lines read back as the list they were written from: for a
/// well-formed list, reading the lines that [`format_list_as_markdown`]
/// writes after the frontmatter gives its items with their texts, statuses
/// and anchors, and its categories with their names and items, in order.
pub proof fn lemma_body_roundtrip(uncat: Seq<ItemView>, cats: Seq<CategoryView>)
    requires
        list_well_formed(uncat, cats),
    ensures
        parse_content(join_lines(body_lines(uncat, cats))) == expected_state(uncat, cats),
{
    let bl = body_lines(uncat, cats);
    let sep = if uncat.len() > 0 && cats.len() > 0 {
        seq![Seq::<char>::empty()]
    } else {
        Seq::<Seq<char>>::empty()
    };
    // every line survives the split into lines
    assert forall|i: int| 0 <= i < bl.len() implies lacks(#[trigger] bl[i], '\n') && strip_cr(bl[i]) == bl[i] by {
        lemma_body_line_plain(uncat, cats, i);
    }
    assert forall|i: int| 0 <= i < bl.len() implies lacks(#[trigger] bl[i], '\n') by {
        lemma_body_line_plain(uncat, cats, i);
    }
    assert forall|i: int| 0 <= i < bl.len() implies strip_cr(#[trigger] bl[i]) == bl[i] by {
        lemma_body_line_plain(uncat, cats, i);
    }
    lemma_lines_of_join(bl);
    let st0 = initial_state();
    lemma_uncategorized_lines(st0, uncat);
    let s1 = parse_from(st0, item_lines(uncat));
    assert(s1.uncategorized =~= parsed_items(uncat));
    lemma_parse_from_concat(st0, item_lines(uncat), sep + categories_lines(cats));
    assert(bl =~= item_lines(uncat) + (sep + categories_lines(cats)));
    lemma_parse_from_concat(s1, sep, categories_lines(cats));
    if uncat.len() > 0 && cats.len() > 0 {
        lemma_empty_line_step(s1);
        assert(sep.drop_first() =~= Seq::<Seq<char>>::empty());
        assert(parse_from(s1, sep) == parse_from(parse_step(s1, Seq::<char>::empty()), Seq::<Seq<char>>::empty()));
    }
    lemma_categories_read(s1, cats);
}

proof fn lemma_category_line_plain(c: CategoryView, i: int)
    requires
        category_well_formed(c),
        0 <= i < category_lines(c).len(),
    ensures
        lacks(category_lines(c)[i], '\n'),
        strip_cr(category_lines(c)[i]) == category_lines(c)[i],
{
    let cl = category_lines(c);
    if i == 0 {
        lemma_headline_read(c.name);
    } else if i < cl.len() - 1 {
        assert(cl[i] == item_text_line(c.items[i - 1]));
        lemma_item_line_read(c.items[i - 1]);
    } else {
        assert(cl[i] == Seq::<char>::empty());
    }
}

proof fn lemma_categories_line_plain(cats: Seq<CategoryView>, i: int)
    requires
        forall|k: int| 0 <= k < cats.len() ==> category_well_formed(#[trigger] cats[k]),
        0 <= i < categories_lines(cats).len(),
    ensures
        lacks(categories_lines(cats)[i], '\n'),
        strip_cr(categories_lines(cats)[i]) == categories_lines(cats)[i],
    decreases cats.len(),
{
    if cats.len() > 0 {
        let init = cats.drop_last();
        let a = categories_lines(init);
        assert forall|k: int| 0 <= k < init.len() implies category_well_formed(#[trigger] init[k]) by {
            assert(init[k] == cats[k]);
        }
        if i < a.len() {
            lemma_categories_line_plain(init, i);
        } else {
            lemma_category_line_plain(cats.last(), i - a.len());
        }
    }
}

proof fn lemma_body_line_plain(uncat: Seq<ItemView>, cats: Seq<CategoryView>, i: int)
    requires
        list_well_formed(uncat, cats),
        0 <= i < body_lines(uncat, cats).len(),
    ensures
        lacks(body_lines(uncat, cats)[i], '\n'),
        strip_cr(body_lines(uncat, cats)[i]) == body_lines(uncat, cats)[i],
{
    let u = item_lines(uncat);
    let sep = if uncat.len() > 0 && cats.len() > 0 {
        seq![Seq::<char>::empty()]
    } else {
        Seq::<Seq<char>>::empty()
    };
    let bl = body_lines(uncat, cats);
    if i < u.len() {
        assert(bl[i] == item_text_line(uncat[i]));
        lemma_item_line_read(uncat[i]);
    } else if i < u.len() + sep.len() {
        assert(bl[i] == Seq::<char>::empty());
    } else {
        assert(bl[i] == categories_lines(cats)[i - u.len() - sep.len()]);
        lemma_categories_line_plain(cats, i - u.len() - sep.len());
    }
}

/// Whether `---` starts at position `i` of `s`.
pub open spec fn dashes_at(s: Seq<char>, i: int) -> bool {
    0 <= i && i + 3 <= s.len() && s[i] == '-' && s[i + 1] == '-' && s[i + 2] == '-'
}

/// The first position at or after `from` where `---` starts, if any.
pub open spec fn next_dashes(s: Seq<char>, from: int) -> Option<int>
    decreases s.len() - from,
{
    if from < 0 || from + 3 > s.len() {
        None
    } else if dashes_at(s, from) {
        Some(from)
    } else {
        next_dashes(s, from + 1)
    }
}

/// The frontmatter and the body of a document, as the second and third
/// pieces of `str::splitn(3, "---")`; `None` when `---` occurs less than
/// twice.
pub open spec fn frontmatter_split(s: Seq<char>) -> Option<(Seq<char>, Seq<char>)> {
    match next_dashes(s, 0) {
        Some(a) => match next_dashes(s, a + 3) {
            Some(b) => Some((s.subrange(a + 3, b), s.subrange(b + 3, s.len() as int))),
            None => None,
        },
        None => None,
    }
}

proof fn lemma_next_dashes(s: Seq<char>, from: int)
    requires
        0 <= from,
    ensures
        match next_dashes(s, from) {
            Some(i) => from <= i && dashes_at(s, i) && forall|j: int| from <= j < i ==> !dashes_at(s, j),
            None => forall|j: int| from <= j ==> !dashes_at(s, j),
        },
    decreases s.len() - from,
{
    if from + 3 <= s.len() && !dashes_at(s, from) {
        lemma_next_dashes(s, from + 1);
    }
}

proof fn lemma_next_dashes_is(s: Seq<char>, from: int, k: int)
    requires
        0 <= from <= k,
        dashes_at(s, k),
        forall|j: int| from <= j < k ==> !dashes_at(s, j),
    ensures
        next_dashes(s, from) == Some(k),
    decreases k - from,
{
    if from < k {
        lemma_next_dashes_is(s, from + 1, k);
    }
}

fn find_dashes(s: &Vec<char>, from: usize) -> (r: Option<usize>)
    ensures
        match next_dashes(s@, from as int) {
            Some(i) => r == Some(i as usize),
            None => r is None,
        },
{
    let mut i = from;
    while i < s.len() && s.len() - i >= 3
        invariant
            from <= i,
            next_dashes(s@, from as int) == next_dashes(s@, i as int),
        decreases s@.len() - i,
    {
        if s[i] == '-' && s[i + 1] == '-' && s[i + 2] == '-' {
            return Some(i);
        }
        i = i + 1;
    }
    None
}

/// Split a document into its frontmatter and its body at the first two
/// `---`; `None` when there are fewer.
pub fn split_frontmatter(content: &str) -> (r: Option<(String, String)>)
    ensures
        match frontmatter_split(content@) {
            Some((f, b)) => r matches Some((fr, br)) && fr@ == f && br@ == b,
            None => r is None,
        },
{
    let cs = chars_of(content);
    proof {
        lemma_next_dashes(cs@, 0);
    }
    match find_dashes(&cs, 0) {
        Some(a) => {
            proof {
                lemma_next_dashes(cs@, a + 3);
            }
            match find_dashes(&cs, a + 3) {
                Some(b) => {
                    let f = slice_chars(&cs, a + 3, b);
                    let body = slice_chars(&cs, b + 3, cs.len());
                    Some((string_of(&f), string_of(&body)))
                },
                None => None,
            }
        },
        None => None,
    }
}

/// Frontmatter that a document can carry: no `---` inside, and a final
/// line break unless it is empty.
pub open spec fn plain_frontmatter(fm: Seq<char>) -> bool {
    &&& forall|i: int| !dashes_at(fm, i)
    &&& (fm.len() == 0 || fm.last() == '\n')
}

/// A written list reads back as itself: for a well-formed list and
/// frontmatter without `---`, the document that
/// [`format_list_as_markdown`] writes splits into that frontmatter and a
/// body, and the body reads back as the list's items and categories.
pub proof fn lemma_document_roundtrip(fm: Seq<char>, uncat: Seq<ItemView>, cats: Seq<CategoryView>)
    requires
        list_well_formed(uncat, cats),
        plain_frontmatter(fm),
    ensures
        frontmatter_split(list_markdown(fm, uncat, cats)) == Some(
            ("\n"@ + fm, "\n\n"@ + join_lines(body_lines(uncat, cats))),
        ),
        parse_content("\n\n"@ + join_lines(body_lines(uncat, cats))) == expected_state(uncat, cats),
{
    reveal_strlit("---\n");
    reveal_strlit("---\n\n");
    reveal_strlit("\n");
    reveal_strlit("\n\n");
    let body = join_lines(body_lines(uncat, cats));
    let s = list_markdown(fm, uncat, cats);
    let n = fm.len() as int;
    assert(s =~= "---\n"@ + fm + "---\n\n"@ + body);
    assert(dashes_at(s, 0));
    lemma_next_dashes_is(s, 0, 0);
    assert(dashes_at(s, 4 + n));
    assert forall|j: int| 3 <= j < 4 + n implies !dashes_at(s, j) by {
        if dashes_at(s, j) {
            if j == 3 {
                assert(s[3] == '\n');
            } else if j + 3 <= 4 + n {
                assert(dashes_at(fm, j - 4)) by {
                    assert(s[j] == fm[j - 4]);
                    assert(s[j + 1] == fm[j - 3]);
                    assert(s[j + 2] == fm[j - 2]);
                }
            } else {
                // the dashes would start in the frontmatter's last line
                assert(fm.last() == '\n');
                assert(s[3 + n] == fm.last());
            }
        }
    }
    lemma_next_dashes_is(s, 3, 4 + n);
    assert(s.subrange(3, 4 + n) =~= "\n"@ + fm);
    assert(s.subrange(4 + n + 3, s.len() as int) =~= "\n\n"@ + body);
    // the two blank lines in front of the body read as nothing
    let bl = body_lines(uncat, cats);
    let two = seq![Seq::<char>::empty(), Seq::<char>::empty()];
    lemma_join_concat(two, bl);
    assert(two.drop_first() =~= seq![Seq::<char>::empty()]);
    lemma_join_single(Seq::<char>::empty());
    assert(join_lines(two) =~= "\n\n"@);
    assert forall|i: int| 0 <= i < (two + bl).len() implies lacks(#[trigger] (two + bl)[i], '\n') && strip_cr((two + bl)[i]) == (two + bl)[i] by {
        if i >= 2 {
            assert((two + bl)[i] == bl[i - 2]);
            lemma_body_line_plain(uncat, cats, i - 2);
        }
    }
    lemma_lines_of_join(two + bl);
    lemma_parse_from_concat(initial_state(), two, bl);
    lemma_empty_line_step(initial_state());
    assert(parse_from(initial_state(), two) == initial_state()) by {
        let e = Seq::<char>::empty();
        let one = two.drop_first();
        assert(two[0] == e);
        assert(parse_from(initial_state(), two) == parse_from(parse_step(initial_state(), e), one));
        assert(one[0] == e);
        assert(one.drop_first() =~= Seq::<Seq<char>>::empty());
        assert(parse_from(initial_state(), one) == parse_from(parse_step(initial_state(), e), one.drop_first()));
    }
    assert forall|i: int| 0 <= i < bl.len() implies lacks(#[trigger] bl[i], '\n') && strip_cr(bl[i]) == bl[i] by {
        lemma_body_line_plain(uncat, cats, i);
    }
    lemma_lines_of_join(bl);
    lemma_body_roundtrip(uncat, cats);
}

/// Items read back from the lines of well-formed items are those items.
proof fn lemma_items_read_back(read: Seq<ItemView>, items: Seq<ItemView>)
    requires
        items_match(read, parsed_items(items)),
    ensures
        read == items,
{
    assert forall|i: int| 0 <= i < read.len() implies read[i] == items[i] by {
        assert(item_matches(read[i], parsed_items(items)[i]));
    }
    assert(read =~= items);
}

/// A written list reads back as itself through the whole document: for a
/// well-formed list and frontmatter without `---`, the items and categories
/// that [`list_from_parts`] reads from the body that [`split_frontmatter`]
/// finds in the document [`format_list_as_markdown`] writes are the list's
/// own, in the same order, with the same texts, statuses and anchors.
pub proof fn lemma_list_read_back(
    fm: Seq<char>,
    uncat: Seq<ItemView>,
    cats: Seq<CategoryView>,
    read_uncat: Seq<ItemView>,
    read_cats: Seq<CategoryView>,
)
    requires
        list_well_formed(uncat, cats),
        plain_frontmatter(fm),
        frontmatter_split(list_markdown(fm, uncat, cats)) matches Some((f, b)) && items_match(
            read_uncat,
            parse_content(b).uncategorized,
        ) && cats_match(read_cats, parse_content(b).categories),
    ensures
        read_uncat == uncat,
        read_cats == cats,
{
    lemma_document_roundtrip(fm, uncat, cats);
    lemma_items_read_back(read_uncat, uncat);
    assert forall|i: int| 0 <= i < read_cats.len() implies read_cats[i] == cats[i] by {
        assert(parsed_cats(cats)[i] == (cats[i].name, parsed_items(cats[i].items)));
        lemma_items_read_back(read_cats[i].items, cats[i].items);
    }
    assert(read_cats =~= cats);
}

/// A list from its frontmatter metadata and its body: the legacy `items`
/// field is emptied, and the items and categories are those of the body.
pub fn list_from_parts(metadata: ListMetadata, legacy_items: Vec<ListItem>, body: &str) -> (r: List)
    ensures
        r.metadata == metadata,
        r.items@.len() == 0,
        items_match(r.uncategorized(), parse_content(body@).uncategorized),
        cats_match(r.cats(), parse_content(body@).categories),
{
    let mut list = List {
        metadata,
        uncategorized_items: legacy_items,
        categories: Vec::new(),
        items: Vec::new(),
    };
    parse_items(&mut list, body);
    list
}

/// A list read from a document without frontmatter: a new list with the
/// given title whose items and categories are those of the content.
pub fn list_without_frontmatter(title: String, content: &str) -> (r: List)
    ensures
        r.metadata.title == title,
        r.items@.len() == 0,
        items_match(r.uncategorized(), parse_content(content@).uncategorized),
        cats_match(r.cats(), parse_content(content@).categories),
{
    let mut list = List::new(title);
    parse_items(&mut list, content);
    list
}


/// The frontmatter written for a list whose metadata cannot be written as
/// YAML: its title alone.
pub open spec fn title_frontmatter(title: Seq<char>) -> Seq<char> {
    "title: \""@ + title + "\"\n"@
}

/// A list as the mobile app sends it to the sync daemon: its metadata as
/// YAML frontmatter (`frontmatter`, or its title alone when the metadata
/// could not be written), then its items.
pub fn list_to_markdown(list: &List, frontmatter: Option<&str>) -> (r: String)
    ensures
        r@ == list_markdown(
            match frontmatter {
                Some(f) => f@,
                None => title_frontmatter(list.metadata.title@),
            },
            list.uncategorized(),
            list.cats(),
        ),
{
    match frontmatter {
        Some(f) => format_list_as_markdown(list, f),
        None => {
            let mut fm = crate::text::owned("title: \"");
            fm.append(list.metadata.title.as_str());
            fm.append("\"\n");
            format_list_as_markdown(list, fm.as_str())
        },
    }
}

} // verus!
