use grocery::generator::{clean_ingredient_name, generate_list, resolve_ingredient};
use grocery::household::{FamilyProfile, FamilyMember, GiantItem, HouseholdModel, Stores};
use grocery::item::ItemSource;
use grocery::recipe::Recipe;
use grocery::scoring::{IngredientMapping, ScoringConfig};
use grocery::types::Category;

fn giant(item: &str, category: Category, frequency: &str) -> GiantItem {
    GiantItem {
        item: item.to_string(),
        category,
        frequency: Some(frequency.to_string()),
        typical_qty: None,
        price: None,
        store: None,
        oos_count: None,
        note: None,
    }
}

fn empty_household() -> HouseholdModel {
    HouseholdModel {
        family: FamilyProfile { members: vec![] },
        stores: Stores { giant: None, acme: None, amazon: None },
        amazon_recurring: vec![],
        giant_recurring: vec![],
        acme_recurring: vec![],
        meal_plan_source: None,
    }
}

fn test_household() -> HouseholdModel {
    let mut h = empty_household();
    h.family.members.push(FamilyMember { name: "Test".to_string(), age: None });
    h.giant_recurring = vec![
        giant("English Cucumber", Category::Produce, "14/18"),
        giant("Cilantro Fresh", Category::Produce, "13/18"),
        giant("Ground Chicken", Category::Meat, "14/18"),
        giant("Rare Item", Category::Snacks, "1/18"),
    ];
    h
}

fn mapping(model: &str, tier: u8, aliases: &[&str]) -> IngredientMapping {
    IngredientMapping {
        model_item: Some(model.to_string()),
        tier,
        aliases: aliases.iter().map(|a| a.to_string()).collect(),
        note: None,
    }
}

fn test_config() -> ScoringConfig {
    ScoringConfig {
        protein_scores: vec![],
        cuisine_scores: vec![],
        ingredient_map: vec![
            ("cucumber".to_string(), mapping("English Cucumber", 1, &["cucumber", "english cucumber"])),
            ("cilantro".to_string(), mapping("Cilantro Fresh", 1, &["cilantro", "fresh cilantro"])),
            ("garlic".to_string(), mapping("Garlic", 3, &["garlic", "garlic cloves", "minced garlic"])),
            ("ground_chicken".to_string(), mapping("Ground Chicken", 1, &["ground chicken", "chicken mince"])),
        ],
        flavor_boosters: None,
        untapped: vec![],
        sources: vec![],
    }
}

fn test_recipe(name: &str, ingredients: &[&str]) -> Recipe {
    Recipe {
        name: name.to_string(),
        url: Some("https://example.com".to_string()),
        tags: vec![],
        rating: None,
        needs_fixing: false,
        last_made: None,
        times_made: 0,
        feedback: vec![],
        source: None,
        ingredients: ingredients.iter().map(|i| i.to_string()).collect(),
        cook_time: None,
        servings: None,
        primary_protein: None,
    }
}

#[test]
fn test_generate_staples_only() {
    let household = test_household();
    let config = test_config();
    let recipes: Vec<&Recipe> = vec![];
    let items = generate_list(&recipes, &household, &config);
    assert_eq!(items.len(), 3);
    assert!(items.iter().all(|i| i.source == ItemSource::Staple));
}

#[test]
fn test_generate_recipes_only() {
    let household = empty_household();
    let config = test_config();
    let recipe = test_recipe("Test Dish", &["2 english cucumber", "4 garlic cloves", "truffle oil"]);
    let recipes = vec![&recipe];
    let items = generate_list(&recipes, &household, &config);
    assert_eq!(items.len(), 3);
    assert!(items.iter().all(|i| matches!(&i.source, ItemSource::Recipe(name) if name == "Test Dish")));
}

#[test]
fn test_generate_recipes_and_staples() {
    let household = test_household();
    let config = test_config();
    let recipe = test_recipe("Garlic Dish", &["4 garlic cloves", "fresh cilantro"]);
    let recipes = vec![&recipe];
    let items = generate_list(&recipes, &household, &config);
    assert_eq!(items.len(), 5);
    assert_eq!(items.iter().filter(|i| i.source == ItemSource::Staple).count(), 3);
    assert_eq!(items.iter().filter(|i| matches!(&i.source, ItemSource::Recipe(_))).count(), 2);
}

#[test]
fn test_generate_empty_inputs() {
    let household = empty_household();
    let config = test_config();
    let recipes: Vec<&Recipe> = vec![];
    let items = generate_list(&recipes, &household, &config);
    assert!(items.is_empty());
}

#[test]
fn test_resolve_ingredient_known() {
    let config = test_config();
    let item = resolve_ingredient("4 garlic cloves, minced", "Test", &config);
    assert_eq!(item.name, "Garlic");
    assert!(matches!(item.source, ItemSource::Recipe(ref name) if name == "Test"));
    assert_eq!(item.category, Category::Other("mapped".to_string()));
    assert_eq!(item.quantity, 1);
}

#[test]
fn test_resolve_ingredient_unknown() {
    let config = test_config();
    let item = resolve_ingredient("2 Tbsp. fish sauce", "Test", &config);
    assert_eq!(item.name, "fish sauce");
    assert_eq!(item.category, Category::Other("unknown".to_string()));
}

#[test]
fn test_resolve_ingredient_uses_model_item_name() {
    let config = test_config();
    let item = resolve_ingredient("fresh cilantro", "Test", &config);
    assert_eq!(item.name, "Cilantro Fresh");
}

#[test]
fn resolve_prefers_the_longest_alias() {
    let mut config = test_config();
    config.ingredient_map.push((
        "cucumber_english".to_string(),
        mapping("Seedless English Cucumber", 2, &["english cucumber salad"]),
    ));
    let item = resolve_ingredient("1 English Cucumber Salad kit", "R", &config);
    assert_eq!(item.name, "Seedless English Cucumber");
    let mut no_model = test_config();
    no_model.ingredient_map[2].1.model_item = None;
    let item = resolve_ingredient("8 garlic cloves, sliced", "R", &no_model);
    assert_eq!(item.name, "garlic cloves, sliced");
}

#[test]
fn test_clean_strips_quantity_and_unit() {
    assert_eq!(clean_ingredient_name("2 Tbsp. olive oil"), "olive oil");
    assert_eq!(clean_ingredient_name("1/2 cup coconut milk"), "coconut milk");
    assert_eq!(clean_ingredient_name("8 garlic cloves"), "garlic cloves");
    assert_eq!(clean_ingredient_name("1 lemon"), "lemon");
}

#[test]
fn test_clean_no_quantity() {
    assert_eq!(clean_ingredient_name("salt and pepper"), "salt and pepper");
    assert_eq!(clean_ingredient_name("cilantro"), "cilantro");
}

#[test]
fn test_clean_empty_string() {
    assert_eq!(clean_ingredient_name(""), "");
    assert_eq!(clean_ingredient_name("  "), "");
}

#[test]
fn clean_edge_cases() {
    assert_eq!(clean_ingredient_name("2 Tbsp. extra-virgin olive oil, or as needed"), "extra-virgin olive oil, or as needed");
    assert_eq!(clean_ingredient_name("3 cups"), "3 cups");
    assert_eq!(clean_ingredient_name("12"), "12");
    assert_eq!(clean_ingredient_name("1 cupcake"), "cupcake");
    assert_eq!(clean_ingredient_name("2 lbs. chicken thighs"), "chicken thighs");
    assert_eq!(clean_ingredient_name("1\" piece ginger"), "piece ginger");
    assert_eq!(clean_ingredient_name("  basil leaves  "), "basil leaves");
}

#[test]
fn clean_is_idempotent_without_leading_quantity() {
    for x in ["olive oil", "  fresh basil ", "cups of tea", "salt and pepper"] {
        let once = clean_ingredient_name(x);
        assert_eq!(clean_ingredient_name(&once), once);
    }
}

#[test]
fn clean_knows_units_of_weight_and_size() {
    assert_eq!(clean_ingredient_name("1 lb ground pork"), "ground pork");
    assert_eq!(clean_ingredient_name("2 lb. potatoes"), "potatoes");
    assert_eq!(clean_ingredient_name("3 oz. feta"), "feta");
    assert_eq!(clean_ingredient_name("2 cupcakes"), "cupcakes");
    assert_eq!(clean_ingredient_name("2\" piece ginger"), "piece ginger");
}
