use vstd::prelude::*;

use crate::recipe::Recipe;
use crate::text::{contains, is_substring, lower_of, lowercase};

verus! {

/// A collection of recipes.
#[derive(Debug, Clone)]
pub struct RecipeCollection {
    recipes: Vec<Recipe>,
}

/// The recipes that a sequence of references points to.
pub open spec fn recipes_of(r: Seq<&Recipe>) -> Seq<Recipe> {
    r.map_values(|x: &Recipe| *x)
}

/// The recipe has ingredient data.
pub open spec fn has_ingredient_data() -> spec_fn(Recipe) -> bool {
    |r: Recipe| r.ingredients@.len() > 0
}

/// The recipe's primary protein, lowercased, contains `lower`.
pub open spec fn protein_contains(lower: Seq<char>) -> spec_fn(Recipe) -> bool {
    |r: Recipe| match r.primary_protein {
        Some(p) => is_substring(lower, lower_of(p@)),
        None => false,
    }
}

/// Some tag of the recipe, lowercased, equals `lower`.
pub open spec fn tagged(lower: Seq<char>) -> spec_fn(Recipe) -> bool {
    |r: Recipe| exists|i: int| 0 <= i < r.tags@.len() && lower_of(#[trigger] r.tags@[i]@) == lower
}

impl View for RecipeCollection {
    type V = Seq<Recipe>;

    closed spec fn view(&self) -> Seq<Recipe> {
        self.recipes@
    }
}

/// Whether some tag, lowercased, equals `lower`.
fn has_tag(r: &Recipe, lower: &String) -> (b: bool)
    ensures
        b == tagged(lower@)(*r),
{
    let mut i: usize = 0;
    while i < r.tags.len()
        invariant
            i <= r.tags@.len(),
            forall|k: int| 0 <= k < i ==> lower_of(#[trigger] r.tags@[k]@) != lower@,
        decreases r.tags@.len() - i,
    {
        let t = lowercase(r.tags[i].as_str());
        if t == *lower {
            assert(lower_of(r.tags@[i as int]@) == lower@);
            return true;
        }
        i = i + 1;
    }
    false
}

impl RecipeCollection {
    /// A collection holding the given recipes, in order.
    pub fn new(recipes: Vec<Recipe>) -> (r: Self)
        ensures
            r@ == recipes@,
    {
        RecipeCollection { recipes }
    }

    /// All recipes that have ingredient data, in order.
    pub fn with_ingredients(&self) -> (r: Vec<&Recipe>)
        ensures
            recipes_of(r@) == self@.filter(has_ingredient_data()),
    {
        let mut out: Vec<&Recipe> = Vec::new();
        let mut i: usize = 0;
        while i < self.recipes.len()
            invariant
                i <= self.recipes@.len(),
                recipes_of(out@) == self.recipes@.take(i as int).filter(has_ingredient_data()),
            decreases self.recipes@.len() - i,
        {
            let r = &self.recipes[i];
            assert(self.recipes@.take(i + 1) == self.recipes@.take(i as int).push(*r));
            proof {
                self.recipes@.take(i as int).lemma_filter_push(*r, has_ingredient_data());
            }
            let ghost before = out@;
            if r.has_ingredients() {
                out.push(r);
                assert(recipes_of(out@) =~= recipes_of(before).push(*r));
            }
            i = i + 1;
        }
        assert(self.recipes@.take(i as int) == self.recipes@);
        out
    }

    /// Recipes whose primary protein contains `protein`, ignoring case.
    pub fn filter_by_protein(&self, protein: &str) -> (r: Vec<&Recipe>)
        ensures
            recipes_of(r@) == self@.filter(protein_contains(lower_of(protein@))),
    {
        let lower = lowercase(protein);
        let mut out: Vec<&Recipe> = Vec::new();
        let mut i: usize = 0;
        while i < self.recipes.len()
            invariant
                i <= self.recipes@.len(),
                lower@ == lower_of(protein@),
                recipes_of(out@) == self.recipes@.take(i as int).filter(protein_contains(lower@)),
            decreases self.recipes@.len() - i,
        {
            let r = &self.recipes[i];
            assert(self.recipes@.take(i + 1) == self.recipes@.take(i as int).push(*r));
            proof {
                self.recipes@.take(i as int).lemma_filter_push(*r, protein_contains(lower@));
            }
            let keep = match &r.primary_protein {
                Some(p) => {
                    let pl = lowercase(p.as_str());
                    contains(pl.as_str(), lower.as_str())
                },
                None => false,
            };
            assert(keep == protein_contains(lower@)(*r));
            let ghost before = out@;
            if keep {
                out.push(r);
                assert(recipes_of(out@) =~= recipes_of(before).push(*r));
            }
            i = i + 1;
        }
        assert(self.recipes@.take(i as int) == self.recipes@);
        out
    }

    /// Recipes with a tag equal to `tag`, ignoring case.
    pub fn filter_by_tag(&self, tag: &str) -> (r: Vec<&Recipe>)
        ensures
            recipes_of(r@) == self@.filter(tagged(lower_of(tag@))),
    {
        let lower = lowercase(tag);
        let mut out: Vec<&Recipe> = Vec::new();
        let mut i: usize = 0;
        while i < self.recipes.len()
            invariant
                i <= self.recipes@.len(),
                lower@ == lower_of(tag@),
                recipes_of(out@) == self.recipes@.take(i as int).filter(tagged(lower@)),
            decreases self.recipes@.len() - i,
        {
            let r = &self.recipes[i];
            assert(self.recipes@.take(i + 1) == self.recipes@.take(i as int).push(*r));
            proof {
                self.recipes@.take(i as int).lemma_filter_push(*r, tagged(lower@));
            }
            let ghost before = out@;
            if has_tag(r, &lower) {
                out.push(r);
                assert(recipes_of(out@) =~= recipes_of(before).push(*r));
            }
            i = i + 1;
        }
        assert(self.recipes@.take(i as int) == self.recipes@);
        out
    }

    /// Number of recipes in the collection.
    pub fn len(&self) -> (r: usize)
        ensures
            r == self@.len(),
    {
        self.recipes.len()
    }

    /// Whether the collection is empty.
    pub fn is_empty(&self) -> (r: bool)
        ensures
            r == (self@.len() == 0),
    {
        self.recipes.len() == 0
    }

    /// The recipes, in order.
    pub fn recipes(&self) -> (r: &[Recipe])
        ensures
            r@ == self@,
    {
        self.recipes.as_slice()
    }
}

} // verus!
