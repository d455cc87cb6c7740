use grocery::recipe::Recipe;
use grocery::scorer::{extract_first_number, score_dimensions, score_label, DimensionTally, OverlapTally};
use grocery::scoring::{FlavorBoosters, IngredientMapping, ScoringConfig};

fn strings(v: &[&str]) -> Vec<String> {
    v.iter().map(|s| s.to_string()).collect()
}

fn test_config() -> ScoringConfig {
    let m = |tier: u8, aliases: &[&str]| IngredientMapping { model_item: None, tier, aliases: strings(aliases), note: None };
    ScoringConfig {
        protein_scores: vec![
            ("ground_chicken".to_string(), 100),
            ("tofu".to_string(), 80),
            ("pork".to_string(), 15),
            ("sausage".to_string(), 20),
        ],
        cuisine_scores: vec![
            ("southeast_asian".to_string(), 90),
            ("korean".to_string(), 85),
            ("general".to_string(), 50),
        ],
        ingredient_map: vec![
            ("cucumber".to_string(), m(1, &["cucumber", "english cucumber"])),
            ("limes".to_string(), m(1, &["lime", "limes"])),
            ("cilantro".to_string(), m(1, &["cilantro", "fresh cilantro"])),
            ("garlic".to_string(), m(3, &["garlic", "garlic cloves"])),
            ("tofu".to_string(), m(2, &["tofu", "firm tofu"])),
            ("sausage".to_string(), m(0, &["sausage", "italian sausage"])),
            ("ginger".to_string(), m(0, &["ginger", "fresh ginger"])),
        ],
        flavor_boosters: Some(FlavorBoosters {
            high: strings(&["sambal", "gochujang", "cilantro", "lime", "soy sauce", "sesame"]),
            medium: strings(&["sriracha", "curry", "coconut", "avocado", "goat cheese"]),
        }),
        untapped: vec![],
        sources: vec![],
    }
}

fn make_recipe() -> Recipe {
    Recipe {
        name: "T".to_string(),
        url: Some("https://x.com".to_string()),
        tags: vec![],
        rating: None,
        needs_fixing: false,
        last_made: None,
        times_made: 0,
        feedback: vec![],
        source: None,
        ingredients: vec![],
        cook_time: None,
        servings: None,
        primary_protein: None,
    }
}

fn with_ingredients(ings: &[&str]) -> Recipe {
    let mut r = make_recipe();
    r.ingredients = strings(ings);
    r
}

fn overlap_score(t: &OverlapTally) -> f64 {
    if t.max_half_points == 0 {
        return 0.0;
    }
    let base = (t.half_points as f64) / (t.max_half_points as f64) * 100.0;
    (base + t.booster_bonus as f64).clamp(0.0, 100.0)
}

fn dims(r: &Recipe) -> DimensionTally {
    score_dimensions(r, &test_config())
}

#[test]
fn test_score_ingredient_overlap_all_tier1() {
    let d = dims(&with_ingredients(&["cucumber", "limes", "cilantro"]));
    assert_eq!(d.ingredient_overlap.half_points, 18);
    assert_eq!(d.ingredient_overlap.max_half_points, 18);
    assert!(overlap_score(&d.ingredient_overlap) >= 100.0 - f64::EPSILON);
}

#[test]
fn test_score_ingredient_overlap_mixed_tiers() {
    let d = dims(&with_ingredients(&["cucumber", "garlic cloves", "firm tofu"]));
    let s = overlap_score(&d.ingredient_overlap);
    assert!(s > 60.0 && s < 75.0, "expected ~67, got {}", s);
}

#[test]
fn test_score_ingredient_overlap_no_matches() {
    let d = dims(&with_ingredients(&["truffle oil", "saffron", "wagyu"]));
    assert!(overlap_score(&d.ingredient_overlap) < f64::EPSILON);
}

#[test]
fn test_score_ingredient_overlap_empty_ingredients() {
    let d = dims(&make_recipe());
    assert_eq!(d.ingredient_overlap.max_half_points, 0);
    assert!(overlap_score(&d.ingredient_overlap) < f64::EPSILON);
}

#[test]
fn test_score_ingredient_overlap_flavor_boosters() {
    let d = dims(&with_ingredients(&["fresh cilantro", "lime juice", "garlic"]));
    assert_eq!(d.ingredient_overlap.half_points, 14);
    assert_eq!(d.ingredient_overlap.booster_bonus, 20);
    assert!(overlap_score(&d.ingredient_overlap) > 77.0);
}

#[test]
fn test_score_ingredient_overlap_capped_at_100() {
    let d = dims(&with_ingredients(&["cilantro", "limes", "cucumber", "sambal oelek", "soy sauce", "sesame oil"]));
    assert!(d.ingredient_overlap.booster_bonus <= 100);
    assert!(overlap_score(&d.ingredient_overlap) <= 100.0);
}

#[test]
fn test_score_protein_known() {
    let mut r = make_recipe();
    r.primary_protein = Some("ground_chicken".to_string());
    assert_eq!(dims(&r).protein_alignment, 100);
}

#[test]
fn test_score_protein_no_protein_defaults_to_50() {
    assert_eq!(dims(&make_recipe()).protein_alignment, 50);
}

#[test]
fn test_score_protein_unknown_defaults_to_50() {
    let mut r = make_recipe();
    r.primary_protein = Some("ostrich".to_string());
    assert_eq!(dims(&r).protein_alignment, 50);
}

#[test]
fn test_score_protein_partial_match() {
    let mut r = make_recipe();
    r.primary_protein = Some("sweet Italian sausage".to_string());
    assert_eq!(dims(&r).protein_alignment, 20);
}

#[test]
fn test_score_cuisine_matching_tag() {
    let mut r = make_recipe();
    r.tags = strings(&["Korean"]);
    assert_eq!(dims(&r).cuisine_affinity, 85);
}

#[test]
fn test_score_cuisine_no_match_falls_back_to_general() {
    let mut r = make_recipe();
    r.tags = strings(&["Grill", "Summer"]);
    assert_eq!(dims(&r).cuisine_affinity, 50);
}

#[test]
fn cuisine_takes_the_best_tag_and_normalizes_spaces() {
    let mut r = make_recipe();
    r.tags = strings(&["Korean", "Southeast Asian"]);
    assert_eq!(dims(&r).cuisine_affinity, 90);
}

#[test]
fn test_score_friction_all_known() {
    assert_eq!(dims(&with_ingredients(&["cucumber", "garlic", "limes"])).practical_friction, 80);
}

#[test]
fn test_score_friction_unknown_ingredients() {
    assert_eq!(dims(&with_ingredients(&["truffle oil", "saffron", "wagyu"])).practical_friction, 65);
}

#[test]
fn test_score_friction_tier0_ingredients() {
    assert_eq!(dims(&with_ingredients(&["italian sausage", "fresh ginger"])).practical_friction, 60);
}

#[test]
fn test_score_friction_floor_at_zero() {
    let names: Vec<String> = (0..20).map(|i| format!("exotic_ingredient_{i}")).collect();
    let mut r = make_recipe();
    r.ingredients = names;
    assert_eq!(dims(&r).practical_friction, 0);
}

#[test]
fn test_score_family_fit_large_servings_quick_cook() {
    let mut r = make_recipe();
    r.servings = Some("6-8 servings".to_string());
    r.cook_time = Some("25 minutes".to_string());
    assert_eq!(dims(&r).family_fit, 90);
}

#[test]
fn test_score_family_fit_no_info() {
    assert_eq!(dims(&make_recipe()).family_fit, 60);
}

#[test]
fn test_score_family_fit_hours_no_quick_bonus() {
    let mut r = make_recipe();
    r.cook_time = Some("3 hours 15 minutes".to_string());
    assert_eq!(dims(&r).family_fit, 60);
}

#[test]
fn test_score_family_fit_easy_tag() {
    let mut r = make_recipe();
    r.tags = strings(&["Easy", "Summer"]);
    assert_eq!(dims(&r).family_fit, 70);
}

#[test]
fn family_fit_all_bonuses() {
    let mut r = make_recipe();
    r.tags = strings(&["QUICK"]);
    r.servings = Some("serves 4".to_string());
    r.cook_time = Some("30 min".to_string());
    assert_eq!(dims(&r).family_fit, 100);
}

#[test]
fn test_score_labels() {
    assert_eq!(score_label(95.0_f64 as u32), "Perfect fit");
    assert_eq!(score_label(80.0_f64 as u32), "Perfect fit");
    assert_eq!(score_label(79.9_f64 as u32), "Good fit");
    assert_eq!(score_label(60.0_f64 as u32), "Good fit");
    assert_eq!(score_label(59.9_f64 as u32), "Moderate fit");
    assert_eq!(score_label(40.0_f64 as u32), "Moderate fit");
    assert_eq!(score_label(39.9_f64 as u32), "Stretch");
    assert_eq!(score_label(20.0_f64 as u32), "Stretch");
    assert_eq!(score_label(19.9_f64 as u32), "Adventure");
    assert_eq!(score_label(0.0_f64 as u32), "Adventure");
}

#[test]
fn test_extract_first_number_various() {
    assert_eq!(extract_first_number("6-8 servings"), Some(6));
    assert_eq!(extract_first_number("45 minutes"), Some(45));
    assert_eq!(extract_first_number("2 to 3 servings"), Some(2));
    assert_eq!(extract_first_number("no numbers here"), None);
    assert_eq!(extract_first_number(""), None);
    assert_eq!(extract_first_number("about 30min"), Some(30));
}

#[test]
fn extract_first_number_overflow_and_unicode() {
    assert_eq!(extract_first_number("99999999999 grams"), None);
    assert_eq!(extract_first_number("4294967295"), Some(4294967295));
    assert_eq!(extract_first_number("éé 12 min"), Some(12));
}

#[test]
fn protein_exact_key_wins_even_at_zero() {
    let mut c = test_config();
    c.protein_scores = vec![("pork".to_string(), 15), ("pork_belly".to_string(), 0)];
    let mut r = make_recipe();
    r.primary_protein = Some("Pork Belly".to_string());
    assert_eq!(score_dimensions(&r, &c).protein_alignment, 0);
}

#[test]
fn cuisine_match_scoring_zero_is_not_a_fallback() {
    let mut c = test_config();
    c.cuisine_scores = vec![("french".to_string(), 0), ("general".to_string(), 50)];
    let mut r = make_recipe();
    r.tags = strings(&["French"]);
    assert_eq!(score_dimensions(&r, &c).cuisine_affinity, 0);
    r.tags = strings(&["Grill"]);
    assert_eq!(score_dimensions(&r, &c).cuisine_affinity, 50);
}
