use vstd::prelude::*;

use crate::text::{lower_of, lowercase};

verus! {

/// Ingredient mapping entry: aliases that name one household item, and its tier.
#[derive(Debug, Clone)]
pub struct IngredientMapping {
    pub model_item: Option<String>,
    pub tier: u8,
    pub aliases: Vec<String>,
    pub note: Option<String>,
}

/// Flavor booster keywords grouped by impact level.
#[derive(Debug, Clone)]
pub struct FlavorBoosters {
    pub high: Vec<String>,
    pub medium: Vec<String>,
}

/// Untapped ingredient opportunity (descriptive only).
#[derive(Debug, Clone)]
pub struct UntappedOpportunity {
    pub ingredient: String,
    pub frequency: Option<String>,
    pub recipes_using: Option<u32>,
    pub note: Option<String>,
}

/// Recipe source configuration (descriptive only).
#[derive(Debug, Clone)]
pub struct RecipeSource {
    pub name: String,
    pub base_url: Option<String>,
    pub scrape_method: Option<String>,
    pub proxy_url: Option<String>,
    pub search_url: Option<String>,
    pub fallback: Option<String>,
    pub note: Option<String>,
}

/// The scoring tables. Each table is a list of `(key, value)` entries, read in
/// order; a lookup takes the first entry whose key matches. Tables read from
/// a configuration document have distinct keys (`well_formed`); the lookups
/// are defined for any list, and on distinct keys the first match is the only one.
#[derive(Debug, Clone)]
pub struct ScoringConfig {
    pub protein_scores: Vec<(String, u32)>,
    pub cuisine_scores: Vec<(String, u32)>,
    pub ingredient_map: Vec<(String, IngredientMapping)>,
    pub flavor_boosters: Option<FlavorBoosters>,
    pub untapped: Vec<UntappedOpportunity>,
    pub sources: Vec<RecipeSource>,
}

/// No two entries share a key.
pub open spec fn distinct_keys<V>(entries: Seq<(String, V)>) -> bool {
    forall|a: int, b: int| 0 <= a < entries.len() && 0 <= b < entries.len() && a != b ==> #[trigger] entries[a].0@ != #[trigger] entries[b].0@
}

impl ScoringConfig {
    /// Every table has distinct keys, as a table read from a document does.
    pub open spec fn well_formed(&self) -> bool {
        &&& distinct_keys(self.protein_scores@)
        &&& distinct_keys(self.cuisine_scores@)
        &&& distinct_keys(self.ingredient_map@)
    }
}

/// The value of the first entry whose key is `k`.
pub open spec fn lookup(entries: Seq<(String, u32)>, k: Seq<char>) -> Option<u32>
    decreases entries.len(),
{
    if entries.len() == 0 {
        None
    } else if entries[0].0@ == k {
        Some(entries[0].1)
    } else {
        lookup(entries.drop_first(), k)
    }
}

/// Some alias of `m`, lowercased, is exactly `lower`.
pub open spec fn has_alias_equal(m: IngredientMapping, lower: Seq<char>) -> bool {
    exists|j: int| 0 <= j < m.aliases@.len() && lower_of(#[trigger] m.aliases@[j]@) == lower
}

/// The tier of the first mapping with an alias equal to `lower`.
pub open spec fn alias_tier(map: Seq<(String, IngredientMapping)>, lower: Seq<char>) -> Option<u8>
    decreases map.len(),
{
    if map.len() == 0 {
        None
    } else if has_alias_equal(map[0].1, lower) {
        Some(map[0].1.tier)
    } else {
        alias_tier(map.drop_first(), lower)
    }
}

/// The value of the first entry whose key is `k`.
pub fn find_entry(entries: &Vec<(String, u32)>, k: &str) -> (r: Option<u32>)
    ensures
        r == lookup(entries@, k@),
{
    let key = k.to_owned();
    let mut i: usize = 0;
    assert(entries@.subrange(0, entries@.len() as int) == entries@);
    while i < entries.len()
        invariant
            i <= entries@.len(),
            key@ == k@,
            lookup(entries@, k@) == lookup(entries@.subrange(i as int, entries@.len() as int), k@),
        decreases entries@.len() - i,
    {
        let ghost rest = entries@.subrange(i as int, entries@.len() as int);
        assert(rest.drop_first() == entries@.subrange(i + 1, entries@.len() as int));
        if entries[i].0 == key {
            return Some(entries[i].1);
        }
        i = i + 1;
    }
    None
}

impl ScoringConfig {
    /// The protein score for a protein key, or 0 when the key is absent.
    pub fn protein_score(&self, protein: &str) -> (r: u32)
        ensures
            r == match lookup(self.protein_scores@, protein@) {
                Some(v) => v,
                None => 0,
            },
    {
        match find_entry(&self.protein_scores, protein) {
            Some(v) => v,
            None => 0,
        }
    }

    /// The cuisine score for a cuisine key; when absent, the `"general"` score,
    /// and 50 when that is absent too.
    pub fn cuisine_score(&self, cuisine: &str) -> (r: u32)
        ensures
            r == match lookup(self.cuisine_scores@, cuisine@) {
                Some(v) => v,
                None => general_cuisine_score(self.cuisine_scores@),
            },
    {
        match find_entry(&self.cuisine_scores, cuisine) {
            Some(v) => v,
            None => self.general_score(),
        }
    }

    /// The `"general"` cuisine score, or 50 when absent.
    fn general_score(&self) -> (r: u32)
        ensures
            r == general_cuisine_score(self.cuisine_scores@),
    {
        proof {
            reveal_strlit("general");
        }
        assert("general"@ == seq!['g', 'e', 'n', 'e', 'r', 'a', 'l']);
        match find_entry(&self.cuisine_scores, "general") {
            Some(v) => v,
            None => 50,
        }
    }

    /// The tier of the first mapping that has an alias equal to the ingredient,
    /// both lowercased; `None` when no alias is equal.
    pub fn ingredient_tier(&self, ingredient: &str) -> (r: Option<u8>)
        ensures
            r == alias_tier(self.ingredient_map@, lower_of(ingredient@)),
    {
        let lower = lowercase(ingredient);
        let mut i: usize = 0;
        assert(self.ingredient_map@.subrange(0, self.ingredient_map@.len() as int) == self.ingredient_map@);
        while i < self.ingredient_map.len()
            invariant
                i <= self.ingredient_map@.len(),
                lower@ == lower_of(ingredient@),
                alias_tier(self.ingredient_map@, lower@) == alias_tier(
                    self.ingredient_map@.subrange(i as int, self.ingredient_map@.len() as int),
                    lower@,
                ),
            decreases self.ingredient_map@.len() - i,
        {
            let ghost rest = self.ingredient_map@.subrange(i as int, self.ingredient_map@.len() as int);
            assert(rest.drop_first() == self.ingredient_map@.subrange(i + 1, self.ingredient_map@.len() as int));
            let m = &self.ingredient_map[i].1;
            let mut j: usize = 0;
            while j < m.aliases.len()
                invariant
                    j <= m.aliases@.len(),
                    lower@ == lower_of(ingredient@),
                    i < self.ingredient_map@.len(),
                    rest == self.ingredient_map@.subrange(i as int, self.ingredient_map@.len() as int),
                    *m == self.ingredient_map@[i as int].1,
                    alias_tier(self.ingredient_map@, lower@) == alias_tier(rest, lower@),
                    forall|q: int| 0 <= q < j ==> lower_of(#[trigger] m.aliases@[q]@) != lower@,
                decreases m.aliases@.len() - j,
            {
                let a = lowercase(m.aliases[j].as_str());
                if a == lower {
                    assert(rest[0].1 == *m);
                    assert(has_alias_equal(*m, lower@)) by {
                        assert(lower_of(m.aliases@[j as int]@) == lower@);
                    }
                    return Some(m.tier);
                }
                j = j + 1;
            }
            assert(!has_alias_equal(*m, lower@));
            i = i + 1;
        }
        None
    }
}

/// The `"general"` cuisine score, or 50 when absent.
pub open spec fn general_cuisine_score(entries: Seq<(String, u32)>) -> u32 {
    match lookup(entries, seq!['g', 'e', 'n', 'e', 'r', 'a', 'l']) {
        Some(v) => v,
        None => 50,
    }
}

} // verus!
