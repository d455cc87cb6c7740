use grocery::collection::RecipeCollection;
use grocery::context::household_context;
use grocery::household::{AmazonItem, FamilyMember, FamilyProfile, GiantItem, HouseholdModel, Stores};
use grocery::recipe::Recipe;
use grocery::types::Category;

fn recipe(name: &str, protein: Option<&str>, ingredients: &[&str]) -> Recipe {
    Recipe {
        name: name.to_string(),
        url: None,
        tags: vec![],
        rating: None,
        needs_fixing: false,
        last_made: None,
        times_made: 0,
        feedback: vec![],
        source: None,
        ingredients: ingredients.iter().map(|i| i.to_string()).collect(),
        cook_time: None,
        servings: None,
        primary_protein: protein.map(|p| p.to_string()),
    }
}

#[test]
fn household_context_summarizes_everything() {
    let household = HouseholdModel {
        family: FamilyProfile {
            members: vec![
                FamilyMember { name: "Alex".to_string(), age: None },
                FamilyMember { name: "Sam".to_string(), age: Some(7) },
            ],
        },
        stores: Stores { giant: None, acme: None, amazon: None },
        amazon_recurring: vec![AmazonItem {
            item: "Coffee".to_string(),
            category: Category::Beverages,
            cycle_days: None,
            last_seen: None,
            note: None,
        }],
        giant_recurring: vec![
            GiantItem {
                item: "Milk".to_string(),
                category: Category::Dairy,
                frequency: Some("18/18".to_string()),
                typical_qty: None,
                price: None,
                store: None,
                oos_count: None,
                note: None,
            },
            GiantItem {
                item: "Kale".to_string(),
                category: Category::Produce,
                frequency: Some("2/18".to_string()),
                typical_qty: None,
                price: None,
                store: None,
                oos_count: None,
                note: None,
            },
        ],
        acme_recurring: vec![],
        meal_plan_source: None,
    };
    let collection = RecipeCollection::new(vec![
        recipe("A", Some("tofu"), &["tofu"]),
        recipe("B", Some("pork"), &[]),
        recipe("C", Some("pork"), &["pork"]),
        recipe("D", None, &[]),
    ]);
    let ctx = household_context(&household, &collection, "/data");
    assert_eq!(
        ctx,
        "## Household Context\n\nFamily: Alex, Sam (age 7)\n\nGiant: 2 recurring items (1 staples/every-order)\nAmazon: 1 recurring items\n\nRecipes: 4 total (2 with ingredients)\nTop proteins: pork (2), tofu (1)\n\nData directory: /data\nKey files: household-model.yaml, recipe-links.json, recipe-scoring-config.yaml\n"
    );
}

#[test]
fn top_proteins_ranks_by_count_then_first_seen() {
    let collection = RecipeCollection::new(vec![
        recipe("A", Some("beef"), &[]),
        recipe("B", Some("tofu"), &[]),
        recipe("C", Some("tofu"), &[]),
        recipe("D", Some("fish"), &[]),
        recipe("E", Some("beef"), &[]),
        recipe("F", Some("egg"), &[]),
    ]);
    let top = grocery::context::top_proteins(&collection, 3);
    let names: Vec<(&str, usize)> = top.iter().map(|(p, c)| (p.as_str(), *c)).collect();
    assert_eq!(names, vec![("beef", 2), ("tofu", 2), ("fish", 1)]);
}
