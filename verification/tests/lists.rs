use lst::commands::{add_items, normalize_list_on, normalize_note_on, trim_suffixes};
use lst::edit::{
    add_item, add_item_to_category, delete_item, edit_item_text, find_item_for_removal,
    find_item_location_by_anchor, find_item_location_by_global_index, find_item_location_by_text,
    mark_done, mark_undone, parse_usize, remove_item_at_location, reorder_item, reset_list,
    wipe_list, EditError, FindError, ItemLocation,
};
use lst::list::{fuzzy_find, is_valid_anchor, ItemStatus, List, ListItem};
use lst::markdown::{
    format_list_as_markdown, list_from_parts, list_without_frontmatter, parse_items,
    split_frontmatter,
};

const SAMPLE: &str = "- [ ] milk  ^milk1\n- [x] bread  ^brd22\n\n## Fruit\n- [ ] apples  ^app33\n- [ ] pears  ^pear4\n\n## Tools\n- [X] hammer  ^hamm5\n";

fn sample() -> List {
    let mut list = List::new("groceries".to_string());
    parse_items(&mut list, SAMPLE);
    list
}

fn texts(list: &List) -> Vec<String> {
    list.all_items().into_iter().map(|i| i.text).collect()
}

fn statuses(list: &List) -> Vec<ItemStatus> {
    list.all_items().into_iter().map(|i| i.status).collect()
}

#[test]
fn parse_reads_items_categories_and_anchors() {
    let list = sample();
    assert_eq!(list.uncategorized_items.len(), 2);
    assert_eq!(list.uncategorized_items[0].text, "milk");
    assert_eq!(list.uncategorized_items[0].anchor, "^milk1");
    assert_eq!(list.uncategorized_items[1].status, ItemStatus::Done);
    assert_eq!(list.categories.len(), 2);
    assert_eq!(list.categories[0].name, "Fruit");
    assert_eq!(list.categories[0].items.len(), 2);
    assert_eq!(list.categories[1].name, "Tools");
    assert_eq!(list.categories[1].items[0].status, ItemStatus::Done);
    assert_eq!(texts(&list), vec!["milk", "bread", "apples", "pears", "hammer"]);
}

#[test]
fn parse_gives_fresh_anchors_to_items_without_one() {
    let mut list = List::new("x".to_string());
    parse_items(&mut list, "- [ ] eggs\n  - [ ] ham   \nnot an item\n");
    assert_eq!(list.uncategorized_items.len(), 2);
    assert_eq!(list.uncategorized_items[0].text, "eggs");
    assert_eq!(list.uncategorized_items[1].text, "ham");
    for item in &list.uncategorized_items {
        assert!(is_valid_anchor(&item.anchor));
        assert_eq!(item.anchor.len(), 6);
    }
}

#[test]
fn repeated_headline_reuses_category() {
    let mut list = List::new("x".to_string());
    parse_items(&mut list, "## A\n- [ ] one  ^aaaa\n## B\n- [ ] two  ^bbbb\n## A\n- [ ] three  ^cccc\n");
    assert_eq!(list.categories.len(), 2);
    assert_eq!(list.categories[0].items.len(), 2);
    assert_eq!(list.categories[0].items[1].text, "three");
}

#[test]
fn format_writes_frontmatter_items_and_categories() {
    let list = sample();
    let md = format_list_as_markdown(&list, "title: groceries\n");
    assert_eq!(
        md,
        "---\ntitle: groceries\n---\n\n- [ ] milk  ^milk1\n- [x] bread  ^brd22\n\n## Fruit\n- [ ] apples  ^app33\n- [ ] pears  ^pear4\n\n## Tools\n- [x] hammer  ^hamm5\n\n"
    );
}

#[test]
fn written_list_reads_back() {
    let list = sample();
    let md = format_list_as_markdown(&list, "title: groceries\n");
    let (front, body) = split_frontmatter(&md).unwrap();
    assert_eq!(front, "\ntitle: groceries\n");
    let mut back = List::new("groceries".to_string());
    parse_items(&mut back, &body);
    assert_eq!(texts(&back), texts(&list));
    assert_eq!(statuses(&back), statuses(&list));
    let anchors: Vec<String> = back.all_items().into_iter().map(|i| i.anchor).collect();
    assert_eq!(anchors, vec!["^milk1", "^brd22", "^app33", "^pear4", "^hamm5"]);
    assert_eq!(back.categories[1].name, "Tools");
}

#[test]
fn split_frontmatter_needs_two_separators() {
    assert_eq!(split_frontmatter("no frontmatter"), None);
    assert_eq!(split_frontmatter("---\ntitle: x\n"), None);
    assert_eq!(
        split_frontmatter("---\na\n---\nbody---more"),
        Some(("\na\n".to_string(), "\nbody---more".to_string()))
    );
}

#[test]
fn list_from_parts_drops_legacy_items() {
    let meta = List::new("t".to_string()).metadata;
    let legacy = vec![ListItem { text: "old".to_string(), status: ItemStatus::Todo, anchor: "^oldd".to_string() }];
    let list = list_from_parts(meta, legacy, "- [ ] new  ^neww\n");
    assert!(list.items.is_empty());
    assert_eq!(texts(&list), vec!["new"]);
    let plain = list_without_frontmatter("plain".to_string(), "- [x] done  ^done\n");
    assert_eq!(plain.metadata.title, "plain");
    assert_eq!(statuses(&plain), vec![ItemStatus::Done]);
}

#[test]
fn locations_by_index_anchor_and_text() {
    let list = sample();
    assert!(matches!(find_item_location_by_global_index(&list, 1), Some(ItemLocation::Uncategorized(1))));
    assert!(matches!(
        find_item_location_by_global_index(&list, 3),
        Some(ItemLocation::Categorized { category_index: 0, item_index: 1 })
    ));
    assert!(matches!(
        find_item_location_by_global_index(&list, 4),
        Some(ItemLocation::Categorized { category_index: 1, item_index: 0 })
    ));
    assert!(find_item_location_by_global_index(&list, 5).is_none());
    assert!(matches!(
        find_item_location_by_anchor(&list, "^hamm5"),
        Some(ItemLocation::Categorized { category_index: 1, item_index: 0 })
    ));
    assert!(matches!(
        find_item_location_by_text(&list, "APPLES"),
        Some(ItemLocation::Categorized { category_index: 0, item_index: 0 })
    ));
    assert!(find_item_location_by_text(&list, "kiwi").is_none());
}

#[test]
fn targets_resolve_in_order() {
    let list = sample();
    assert!(matches!(find_item_for_removal(&list, "^pear4", 50), Ok(ItemLocation::Categorized { category_index: 0, item_index: 1 })));
    assert!(matches!(find_item_for_removal(&list, "Bread", 50), Ok(ItemLocation::Uncategorized(1))));
    assert!(matches!(find_item_for_removal(&list, "#3", 50), Ok(ItemLocation::Categorized { category_index: 0, item_index: 0 })));
    assert!(matches!(find_item_for_removal(&list, "#0", 50), Err(_)));
    assert!(matches!(find_item_for_removal(&list, "", 50), Err(FindError::NotFound)));
    assert!(matches!(find_item_for_removal(&list, "zzzzzz", 50), Err(FindError::NotFound)));
}

#[test]
fn fuzzy_target_with_one_match() {
    let list = sample();
    assert!(matches!(find_item_for_removal(&list, "hamer", 0), Ok(ItemLocation::Categorized { category_index: 1, item_index: 0 })));
}

#[test]
fn fuzzy_target_with_several_matches_is_ambiguous() {
    let mut list = List::new("x".to_string());
    parse_items(&mut list, "- [ ] apple pie  ^aaaa\n- [ ] apple tart  ^bbbb\n");
    assert!(matches!(find_item_for_removal(&list, "appl", 0), Err(FindError::Ambiguous)));
}

#[test]
fn fuzzy_find_ranks_matches() {
    let list = sample();
    let items = list.all_items();
    assert!(fuzzy_find(&items, "", 0).is_empty());
    let found = fuzzy_find(&items, "pe", 1000);
    assert_eq!(found, vec![3]);
}

#[test]
fn mark_done_marks_only_the_target() {
    let mut list = sample();
    let marked = mark_done(&mut list, "milk", 50).unwrap();
    assert_eq!(marked.len(), 1);
    assert_eq!(marked[0].text, "milk");
    assert_eq!(marked[0].status, ItemStatus::Done);
    assert_eq!(
        statuses(&list),
        vec![ItemStatus::Done, ItemStatus::Done, ItemStatus::Todo, ItemStatus::Todo, ItemStatus::Done]
    );
}

#[test]
fn mark_done_with_several_targets() {
    let mut list = sample();
    let marked = mark_done(&mut list, "apples, ^pear4 ,nothing-here-at-all", 50).unwrap();
    let names: Vec<String> = marked.into_iter().map(|i| i.text).collect();
    assert_eq!(names, vec!["apples", "pears"]);
    assert_eq!(list.categories[0].items[0].status, ItemStatus::Done);
    assert_eq!(list.categories[0].items[1].status, ItemStatus::Done);
}

#[test]
fn mark_errors() {
    let mut list = sample();
    assert!(matches!(mark_done(&mut list, "qqqqqqqq", 50), Err(EditError::NoMatchingItem)));
    assert!(matches!(mark_done(&mut list, "qqqqqqqq,xxxxxxxxx", 50), Err(EditError::NoMatchingItems)));
    assert_eq!(texts(&list), texts(&sample()));
}

#[test]
fn mark_done_then_undone_restores() {
    let mut list = sample();
    let before = statuses(&list);
    mark_done(&mut list, "^app33", 50).unwrap();
    let undone = mark_undone(&mut list, "^app33", 50).unwrap();
    assert_eq!(undone[0].status, ItemStatus::Todo);
    assert_eq!(statuses(&list), before);
}

#[test]
fn remove_at_location_removes_that_item() {
    let mut list = sample();
    let removed = remove_item_at_location(&mut list, ItemLocation::Categorized { category_index: 0, item_index: 0 });
    assert_eq!(removed.text, "apples");
    assert_eq!(texts(&list), vec!["milk", "bread", "pears", "hammer"]);
    let removed = remove_item_at_location(&mut list, ItemLocation::Uncategorized(0));
    assert_eq!(removed.text, "milk");
    assert_eq!(texts(&list), vec!["bread", "pears", "hammer"]);
}

#[test]
fn delete_single_and_several() {
    let mut list = sample();
    let removed = delete_item(&mut list, "#2", 50).unwrap();
    assert_eq!(removed[0].text, "bread");
    let removed = delete_item(&mut list, "milk, hammer", 50).unwrap();
    assert_eq!(removed.len(), 2);
    assert_eq!(texts(&list), vec!["apples", "pears"]);
    assert!(matches!(delete_item(&mut list, "qqqqqqqq", 50), Err(EditError::NoMatchingItem)));
    assert!(matches!(delete_item(&mut list, "qqqqqqqq,", 50), Err(EditError::NoMatchingItems)));
}

#[test]
fn reset_sets_everything_todo() {
    let mut list = sample();
    let reset = reset_list(&mut list).unwrap();
    let names: Vec<String> = reset.into_iter().map(|i| i.text).collect();
    assert_eq!(names, vec!["bread", "hammer"]);
    assert!(statuses(&list).into_iter().all(|s| s == ItemStatus::Todo));
    assert!(matches!(reset_list(&mut list), Err(EditError::NoCompletedItems)));
}

#[test]
fn wipe_counts_and_clears() {
    let mut list = sample();
    assert_eq!(wipe_list(&mut list), 5);
    assert!(list.all_items().is_empty());
    assert_eq!(wipe_list(&mut list), 0);
}

#[test]
fn reorder_moves_to_uncategorized() {
    let mut list = sample();
    reorder_item(&mut list, "^hamm5", 0, 50).unwrap();
    assert_eq!(list.uncategorized_items[0].text, "hammer");
    assert!(list.categories[1].items.is_empty());
    reorder_item(&mut list, "^app33", 99, 50).unwrap();
    assert_eq!(list.uncategorized_items.last().unwrap().text, "apples");
    assert!(matches!(reorder_item(&mut list, "qqqqqqqq", 0, 50), Err(EditError::NoMatchingItem)));
}

#[test]
fn edit_text_by_anchor_and_text() {
    let mut list = sample();
    edit_item_text(&mut list, "^milk1", "oat milk").unwrap();
    assert_eq!(list.uncategorized_items[0].text, "oat milk");
    edit_item_text(&mut list, "PEARS", "nashi").unwrap();
    assert_eq!(list.categories[0].items[1].text, "nashi");
    assert_eq!(list.categories[0].items[1].anchor, "^pear4");
    assert!(matches!(edit_item_text(&mut list, "^milk1", "   "), Err(EditError::EmptyText)));
    assert!(matches!(edit_item_text(&mut list, "qqqq", "x"), Err(EditError::NoMatchingItem)));
}

#[test]
fn add_items_in_memory() {
    let mut list = sample();
    let item = add_item(&mut list, "cheese");
    assert_eq!(item.text, "cheese");
    assert_eq!(item.status, ItemStatus::Todo);
    assert_eq!(list.uncategorized_items.last().unwrap().anchor, item.anchor);
    let item = add_item_to_category(&mut list, "plums", Some("Fruit"));
    assert_eq!(list.categories[0].items.last().unwrap().text, "plums");
    assert_eq!(item.text, "plums");
    add_item_to_category(&mut list, "saw", Some("Garage"));
    assert_eq!(list.categories.len(), 3);
    assert_eq!(list.categories[2].name, "Garage");
}

#[test]
fn add_items_splits_on_commas() {
    let mut list = List::new("x".to_string());
    let added = add_items(&mut list, "apples, oranges,, bananas ,");
    let names: Vec<String> = added.iter().map(|i| i.text.clone()).collect();
    assert_eq!(names, vec!["apples", "oranges", "bananas"]);
    assert_eq!(list.uncategorized_items.len(), 3);
    for i in &added {
        assert!(is_valid_anchor(&i.anchor));
    }
}

#[test]
fn usize_parsing_follows_std() {
    let p = |s: &str| parse_usize(&s.chars().collect());
    assert_eq!(p("42"), Some(42));
    assert_eq!(p("+7"), Some(7));
    assert_eq!(p("007"), Some(7));
    assert_eq!(p(""), None);
    assert_eq!(p("+"), None);
    assert_eq!(p("-1"), None);
    assert_eq!(p("4a"), None);
    assert_eq!(p("99999999999999999999999"), None);
}

#[test]
fn list_names() {
    assert_eq!(trim_suffixes("groceries.md.md", ".md"), "groceries");
    assert_eq!(normalize_list_on("dl", "20240131"), "daily_lists/20240131_daily_list");
    assert_eq!(normalize_list_on("dl.md", "20240131"), "daily_lists/20240131_daily_list");
    assert_eq!(normalize_list_on("shopping.md", "20240131"), "shopping");
    assert_eq!(normalize_note_on("dn", "20240131"), "daily_notes/20240131_daily_note");
    assert_eq!(normalize_note_on("ideas", "20240131"), "ideas");
}

#[test]
fn file_name_lowercases_and_dashes() {
    let list = List::new("My Big List".to_string());
    assert_eq!(list.file_name(), "my-big-list.md");
}

#[test]
fn adding_then_deleting_by_anchor_restores_the_items() {
    let mut list = sample();
    let before = texts(&list);
    let item = add_item(&mut list, "cheese");
    assert_eq!(texts(&list).len(), before.len() + 1);
    let removed = delete_item(&mut list, &item.anchor, 75).unwrap();
    assert_eq!(removed.len(), 1);
    assert_eq!(removed[0].text, "cheese");
    assert_eq!(texts(&list), before);
}
