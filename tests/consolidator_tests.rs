use grocery::consolidator::consolidate;
use grocery::item::{ItemSource, ShoppingItem};
use grocery::types::Category;

fn make_item(name: &str, qty: u32, category: Category, source: ItemSource) -> ShoppingItem {
    ShoppingItem { name: name.to_string(), quantity: qty, category, source, note: None }
}

#[test]
fn test_consolidate_no_duplicates() {
    let items = vec![
        make_item("Cucumber", 1, Category::Produce, ItemSource::Staple),
        make_item("Garlic", 1, Category::Produce, ItemSource::Recipe("Test".to_string())),
    ];
    let result = consolidate(items);
    assert_eq!(result.len(), 2);
}

#[test]
fn test_consolidate_merges_duplicates() {
    let items = vec![
        make_item("Cilantro Fresh", 1, Category::Produce, ItemSource::Staple),
        make_item("Cilantro Fresh", 1, Category::Produce, ItemSource::Recipe("Noodles".to_string())),
    ];
    let result = consolidate(items);
    assert_eq!(result.len(), 1);
    assert_eq!(result[0].name, "Cilantro Fresh");
}

#[test]
fn test_consolidate_case_insensitive() {
    let items = vec![
        make_item("English Cucumber", 1, Category::Produce, ItemSource::Staple),
        make_item("english cucumber", 1, Category::Produce, ItemSource::Recipe("Test".to_string())),
    ];
    let result = consolidate(items);
    assert_eq!(result.len(), 1);
    assert_eq!(result[0].name, "English Cucumber");
}

#[test]
fn test_consolidate_staple_takes_priority() {
    let items = vec![
        make_item("Garlic", 1, Category::Produce, ItemSource::Recipe("Test".to_string())),
        make_item("Garlic", 1, Category::Produce, ItemSource::Staple),
    ];
    let result = consolidate(items);
    assert_eq!(result.len(), 1);
    assert_eq!(result[0].source, ItemSource::Staple);
}

#[test]
fn test_consolidate_takes_max_quantity() {
    let items = vec![
        make_item("Yogurt", 3, Category::Dairy, ItemSource::Staple),
        make_item("Yogurt", 1, Category::Dairy, ItemSource::Recipe("Test".to_string())),
    ];
    let result = consolidate(items);
    assert_eq!(result.len(), 1);
    assert_eq!(result[0].quantity, 3);
}

#[test]
fn test_consolidate_combines_notes() {
    let mut item1 = make_item("Chicken", 1, Category::Meat, ItemSource::Staple);
    item1.note = Some("99% lean".to_string());
    let mut item2 = make_item("Chicken", 1, Category::Meat, ItemSource::Recipe("Test".to_string()));
    item2.note = Some("for meatballs".to_string());
    let result = consolidate(vec![item1, item2]);
    assert_eq!(result.len(), 1);
    let note = result[0].note.as_deref().unwrap_or("");
    assert!(note.contains("99% lean"));
    assert!(note.contains("for meatballs"));
    assert_eq!(note, "99% lean; for meatballs");
}

#[test]
fn test_consolidate_empty_input() {
    let result = consolidate(vec![]);
    assert!(result.is_empty());
}

#[test]
fn test_consolidate_sorted_by_category_then_name() {
    let items = vec![
        make_item("Yogurt", 1, Category::Dairy, ItemSource::Staple),
        make_item("Banana", 1, Category::Produce, ItemSource::Staple),
        make_item("Apple", 1, Category::Produce, ItemSource::Staple),
        make_item("Chicken", 1, Category::Meat, ItemSource::Staple),
    ];
    let result = consolidate(items);
    assert_eq!(result[0].category, Category::Dairy);
    assert_eq!(result[1].category, Category::Meat);
    assert_eq!(result[2].name, "Apple");
    assert_eq!(result[3].name, "Banana");
}

#[test]
fn consolidate_twice_changes_nothing() {
    let mut a = make_item("Chicken", 1, Category::Meat, ItemSource::Staple);
    a.note = Some("lean".to_string());
    let mut b = make_item("chicken", 2, Category::Meat, ItemSource::Recipe("R".to_string()));
    b.note = Some("thighs".to_string());
    let c = make_item("Basil", 1, Category::Other("mapped".to_string()), ItemSource::Recipe("R".to_string()));
    let once = consolidate(vec![a, b, c]);
    let twice = consolidate(once.clone());
    assert_eq!(once.len(), twice.len());
    for (x, y) in once.iter().zip(twice.iter()) {
        assert_eq!(x.name, y.name);
        assert_eq!(x.quantity, y.quantity);
        assert_eq!(x.category, y.category);
        assert_eq!(x.source, y.source);
        assert_eq!(x.note, y.note);
    }
    assert_eq!(twice[0].note.as_deref(), Some("lean; thighs"));
}

#[test]
fn consolidate_never_grows_the_list() {
    let items = vec![
        make_item("Milk", 1, Category::Dairy, ItemSource::Staple),
        make_item("MILK", 1, Category::Dairy, ItemSource::UserRequest),
        make_item("milk", 4, Category::Dairy, ItemSource::FrequencyTrigger),
        make_item("Eggs", 1, Category::Dairy, ItemSource::Staple),
    ];
    let result = consolidate(items);
    assert_eq!(result.len(), 2);
    assert_eq!(result[0].name, "Eggs");
    assert_eq!(result[1].name, "Milk");
    assert_eq!(result[1].quantity, 4);
    assert_eq!(result[1].source, ItemSource::Staple);
}

#[test]
fn consolidate_orders_other_categories_by_debug_name() {
    let items = vec![
        make_item("Zest", 1, Category::Other("unknown".to_string()), ItemSource::Staple),
        make_item("Oats", 1, Category::Pasta, ItemSource::Staple),
        make_item("Kale", 1, Category::Other("mapped".to_string()), ItemSource::Staple),
        make_item("Bread", 1, Category::Bread, ItemSource::Staple),
    ];
    let result = consolidate(items);
    let names: Vec<&str> = result.iter().map(|i| i.name.as_str()).collect();
    assert_eq!(names, vec!["Bread", "Kale", "Zest", "Oats"]);
}

#[test]
fn consolidate_orders_open_categories_as_debug_text() {
    let items = vec![
        make_item("A", 1, Category::Other("a\"b".to_string()), ItemSource::Staple),
        make_item("B", 1, Category::Other("a#b".to_string()), ItemSource::Staple),
    ];
    let result = consolidate(items);
    let mut keys: Vec<String> = result.iter().map(|i| format!("{:?}", i.category)).collect();
    let sorted = {
        let mut k = keys.clone();
        k.sort();
        k
    };
    assert_eq!(keys, sorted);
    keys.dedup();
    assert_eq!(keys.len(), 2);
}
