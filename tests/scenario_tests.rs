use grocery::consolidator::consolidate;
use grocery::formatter::ShoppingList;
use grocery::generator::generate_list;
use grocery::household::{FamilyProfile, GiantItem, HouseholdModel, Stores};
use grocery::item::ItemSource;
use grocery::plan::OutputFormat;
use grocery::recipe::Recipe;
use grocery::scoring::{IngredientMapping, ScoringConfig};
use grocery::types::Category;

#[test]
fn staple_and_recipe_end_to_end() {
    let household = HouseholdModel {
        family: FamilyProfile { members: vec![] },
        stores: Stores { giant: None, acme: None, amazon: None },
        amazon_recurring: vec![],
        giant_recurring: vec![GiantItem {
            item: "Cucumber".to_string(),
            category: Category::Produce,
            frequency: Some("14/18".to_string()),
            typical_qty: None,
            price: None,
            store: None,
            oos_count: None,
            note: None,
        }],
        acme_recurring: vec![],
        meal_plan_source: None,
    };
    let config = ScoringConfig {
        protein_scores: vec![],
        cuisine_scores: vec![],
        ingredient_map: vec![(
            "garlic".to_string(),
            IngredientMapping {
                model_item: Some("Garlic".to_string()),
                tier: 3,
                aliases: vec!["garlic".to_string()],
                note: None,
            },
        )],
        flavor_boosters: None,
        untapped: vec![],
        sources: vec![],
    };
    let recipe = Recipe {
        name: "Dinner".to_string(),
        url: None,
        tags: vec![],
        rating: None,
        needs_fixing: false,
        last_made: None,
        times_made: 0,
        feedback: vec![],
        source: None,
        ingredients: vec!["2 Tbsp. olive oil".to_string(), "4 garlic cloves".to_string()],
        cook_time: None,
        servings: None,
        primary_protein: None,
    };
    let raw = generate_list(&[&recipe], &household, &config);
    assert_eq!(raw.len(), 3);
    assert_eq!(raw[0].source, ItemSource::Staple);
    assert_eq!(raw[1].name, "olive oil");
    assert_eq!(raw[2].name, "Garlic");
    let items = consolidate(raw);
    assert_eq!(items.len(), 3);
    let names: Vec<&str> = items.iter().map(|i| i.name.as_str()).collect();
    assert_eq!(names, vec!["Garlic", "olive oil", "Cucumber"]);
    assert!(items.iter().all(|i| i.quantity == 1));
    let list = ShoppingList::new(items);
    let compact = list.format_compact();
    assert!(compact.starts_with("Shopping List (3 items)\n"));
    assert!(compact.contains("PRODUCE: Cucumber\n"));
    let text = list.format_text();
    assert!(text.contains("## Produce\n- [ ] Cucumber (1) [staple]\n"));
    assert!(text.contains("- [ ] Garlic (1) [Dinner]"));
}

#[test]
fn output_format_parsing() {
    assert_eq!(OutputFormat::parse("TEXT"), Ok(OutputFormat::Text));
    assert_eq!(OutputFormat::parse("json"), Ok(OutputFormat::Json));
    assert_eq!("Compact".parse::<OutputFormat>(), Ok(OutputFormat::Compact));
    assert_eq!(
        OutputFormat::parse("Yaml"),
        Err("unknown format: yaml (expected text, json, or compact)".to_string())
    );
    assert_eq!(OutputFormat::default(), OutputFormat::Text);
}
