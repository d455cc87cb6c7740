use grocery::collection::RecipeCollection;
use grocery::recipe::Recipe;

fn recipe(name: &str, tags: &[&str], protein: &str, ingredients: &[&str]) -> Recipe {
    Recipe {
        name: name.to_string(),
        url: Some("https://example.com".to_string()),
        tags: tags.iter().map(|t| t.to_string()).collect(),
        rating: None,
        needs_fixing: false,
        last_made: None,
        times_made: 0,
        feedback: vec![],
        source: None,
        ingredients: ingredients.iter().map(|i| i.to_string()).collect(),
        cook_time: None,
        servings: None,
        primary_protein: Some(protein.to_string()),
    }
}

fn small_collection() -> RecipeCollection {
    RecipeCollection::new(vec![
        recipe("Sambal Noodles", &["Pork"], "pork", &["sambal oelek", "ground pork", "soy sauce"]),
        recipe("Tofu Stir Fry", &["Tofu", "Quick"], "tofu", &["firm tofu", "garlic", "soy sauce"]),
        recipe("Family Chicken", &["Easy"], "chicken", &[]),
    ])
}

#[test]
fn test_with_ingredients_filters_correctly() {
    let coll = small_collection();
    let with = coll.with_ingredients();
    assert_eq!(with.len(), 2);
    assert!(with[0].has_ingredients());
}

#[test]
fn test_filter_by_protein_case_insensitive() {
    let coll = small_collection();
    let tofu = coll.filter_by_protein("Tofu");
    assert_eq!(tofu.len(), 1);
    assert_eq!(tofu[0].name, "Tofu Stir Fry");
}

#[test]
fn test_filter_by_protein_no_match() {
    let coll = small_collection();
    assert!(coll.filter_by_protein("lamb").is_empty());
}

#[test]
fn test_filter_by_tag_case_insensitive() {
    let coll = small_collection();
    let pork = coll.filter_by_tag("pork");
    assert_eq!(pork.len(), 1);
    assert_eq!(pork[0].name, "Sambal Noodles");
}

#[test]
fn test_filter_by_tag_no_match() {
    let coll = small_collection();
    assert!(coll.filter_by_tag("Nonexistent").is_empty());
}

#[test]
fn test_recipes_accessor() {
    let coll = small_collection();
    let slice = coll.recipes();
    assert_eq!(slice.len(), 3);
    assert_eq!(slice[0].name, "Sambal Noodles");
    assert_eq!(coll.len(), 3);
    assert!(!coll.is_empty());
    assert!(RecipeCollection::new(vec![]).is_empty());
}
