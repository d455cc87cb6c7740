use vstd::prelude::*;

verus! {

/// A recipe from the collection.
#[derive(Debug, Clone)]
pub struct Recipe {
    pub name: String,
    pub url: Option<String>,
    pub tags: Vec<String>,
    pub rating: Option<u8>,
    pub needs_fixing: bool,
    pub last_made: Option<String>,
    pub times_made: u32,
    pub feedback: Vec<String>,
    pub source: Option<String>,
    pub ingredients: Vec<String>,
    pub cook_time: Option<String>,
    pub servings: Option<String>,
    pub primary_protein: Option<String>,
}

impl Recipe {
    /// Whether this recipe has ingredient data (needed for list generation).
    pub fn has_ingredients(&self) -> (r: bool)
        ensures
            r == (self.ingredients@.len() > 0),
    {
        self.ingredients.len() > 0
    }
}

} // verus!
