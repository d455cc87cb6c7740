use grocery::formatter::ShoppingList;
use grocery::item::{ItemSource, ShoppingItem};
use grocery::types::Category;

fn make_item(name: &str, qty: u32, category: Category, source: ItemSource) -> ShoppingItem {
    ShoppingItem { name: name.to_string(), quantity: qty, category, source, note: None }
}

fn sample_list() -> ShoppingList {
    ShoppingList::new(vec![
        make_item("English Cucumber", 1, Category::Produce, ItemSource::Staple),
        make_item("Cilantro", 1, Category::Produce, ItemSource::Staple),
        make_item("Garlic", 1, Category::Produce, ItemSource::Recipe("Sambal Noodles".to_string())),
        make_item("Yogurt Cup", 3, Category::Dairy, ItemSource::Staple),
        make_item("Ground Chicken", 1, Category::Meat, ItemSource::Staple),
    ])
}

#[test]
fn test_shopping_list_len() {
    let list = sample_list();
    assert_eq!(list.len(), 5);
    assert!(!list.is_empty());
}

#[test]
fn test_shopping_list_empty() {
    let list = ShoppingList::new(vec![]);
    assert!(list.is_empty());
    assert_eq!(list.len(), 0);
}

#[test]
fn test_by_category_groups_correctly() {
    let list = sample_list();
    let groups = list.by_category();
    assert_eq!(groups.len(), 3);
    let get = |name: &str| groups.iter().find(|(k, _)| k == name).map(|(_, v)| v.len());
    assert_eq!(get("Produce"), Some(3));
    assert_eq!(get("Dairy"), Some(1));
    assert_eq!(get("Meat"), Some(1));
    let names: Vec<&str> = groups.iter().map(|(k, _)| k.as_str()).collect();
    assert_eq!(names, vec!["Dairy", "Meat", "Produce"]);
}

#[test]
fn test_format_text_contains_categories() {
    let text = sample_list().format_text();
    assert!(text.contains("## Produce"));
    assert!(text.contains("## Dairy"));
    assert!(text.contains("## Meat"));
}

#[test]
fn test_format_text_contains_items() {
    let text = sample_list().format_text();
    assert!(text.contains("English Cucumber"));
    assert!(text.contains("[staple]"));
    assert!(text.contains("[Sambal Noodles]"));
    assert!(text.contains("Yogurt Cup (3)"));
}

#[test]
fn test_format_text_has_checkboxes() {
    let text = sample_list().format_text();
    assert_eq!(text.matches("- [ ]").count(), 5);
}

#[test]
fn format_text_exact_shape() {
    let list = ShoppingList::new(vec![
        make_item("Milk", 2, Category::Dairy, ItemSource::UserRequest),
        make_item("Basil", 1, Category::Other("Herbs".to_string()), ItemSource::FrequencyTrigger),
    ]);
    assert_eq!(
        list.format_text(),
        "## Dairy\n- [ ] Milk (2) [requested]\n\n## Herbs\n- [ ] Basil (1) [frequency]\n\n"
    );
}

#[test]
fn test_format_compact_header() {
    let compact = sample_list().format_compact();
    assert!(compact.starts_with("Shopping List (5 items)"));
}

#[test]
fn test_format_compact_categories_uppercase() {
    let compact = sample_list().format_compact();
    assert!(compact.contains("PRODUCE:"));
    assert!(compact.contains("DAIRY:"));
    assert!(compact.contains("MEAT:"));
}

#[test]
fn test_format_compact_quantity_notation() {
    let compact = sample_list().format_compact();
    assert!(compact.contains("Yogurt Cup x3"));
    assert!(!compact.contains("English Cucumber x1"));
}

#[test]
fn format_compact_exact_shape() {
    assert_eq!(
        sample_list().format_compact(),
        "Shopping List (5 items)\nDAIRY: Yogurt Cup x3\nMEAT: Ground Chicken\nPRODUCE: English Cucumber, Cilantro, Garlic\n"
    );
}

#[test]
fn test_format_empty_list() {
    let list = ShoppingList::new(vec![]);
    let text = list.format_text();
    assert!(text.is_empty() || text.trim().is_empty());
    let compact = list.format_compact();
    assert!(compact.contains("0 items"));
}
