use vstd::prelude::*;

use crate::recipe::Recipe;
use crate::scoring::{find_entry, general_cuisine_score, lookup, FlavorBoosters, IngredientMapping, ScoringConfig};
use crate::text::{chars_of, contains, digits_value, is_digit, is_substring, lower_of, lowercase, all_digits, string_of};

verus! {

// ── Ingredient tiers ────────────────────────────────────────────

/// Some alias of `m`, lowercased, occurs in `lower`.
pub open spec fn alias_matches(m: IngredientMapping, lower: Seq<char>) -> bool {
    exists|j: int| 0 <= j < m.aliases@.len() && is_substring(lower_of(#[trigger] m.aliases@[j]@), lower)
}

/// The highest tier among the mappings with an alias that occurs in `lower`.
pub open spec fn best_tier(map: Seq<(String, IngredientMapping)>, lower: Seq<char>) -> Option<u8>
    decreases map.len(),
{
    if map.len() == 0 {
        None
    } else {
        let prev = best_tier(map.drop_last(), lower);
        let m = map.last().1;
        if alias_matches(m, lower) {
            match prev {
                Some(p) => if p >= m.tier { Some(p) } else { Some(m.tier) },
                None => Some(m.tier),
            }
        } else {
            prev
        }
    }
}

/// The tier that a raw ingredient string resolves to for scoring.
pub open spec fn ingredient_tier_of(config: ScoringConfig, ingredient: Seq<char>) -> Option<u8> {
    best_tier(config.ingredient_map@, lower_of(ingredient))
}

/// Whether some alias of `m`, lowercased, occurs in `lower`.
pub fn mapping_matches(m: &IngredientMapping, lower: &str) -> (r: bool)
    ensures
        r == alias_matches(*m, lower@),
{
    let mut j: usize = 0;
    while j < m.aliases.len()
        invariant
            j <= m.aliases@.len(),
            forall|q: int| 0 <= q < j ==> !is_substring(lower_of(#[trigger] m.aliases@[q]@), lower@),
        decreases m.aliases@.len() - j,
    {
        let a = lowercase(m.aliases[j].as_str());
        if contains(lower, a.as_str()) {
            assert(is_substring(lower_of(m.aliases@[j as int]@), lower@));
            return true;
        }
        j = j + 1;
    }
    false
}

/// Resolve a raw ingredient description (such as `"8 garlic cloves, sliced"`)
/// to the highest tier among all mappings with an alias that occurs in it.
pub fn resolve_ingredient_tier(ingredient: &str, config: &ScoringConfig) -> (r: Option<u8>)
    ensures
        r == ingredient_tier_of(*config, ingredient@),
{
    let lower = lowercase(ingredient);
    let map = &config.ingredient_map;
    let mut best: Option<u8> = None;
    let mut i: usize = 0;
    while i < map.len()
        invariant
            i <= map@.len(),
            lower@ == lower_of(ingredient@),
            best == best_tier(map@.take(i as int), lower@),
        decreases map@.len() - i,
    {
        let m = &map[i].1;
        assert(map@.take(i + 1).drop_last() == map@.take(i as int));
        if mapping_matches(m, lower.as_str()) {
            match best {
                None => best = Some(m.tier),
                Some(current) => {
                    if m.tier > current {
                        best = Some(m.tier);
                    }
                },
            }
        }
        i = i + 1;
    }
    assert(map@.take(map@.len() as int) == map@);
    best
}

// ── Dimension 1: Ingredient Overlap ─────────────────────────────

/// Points of one ingredient, in half points: tier 1 gives 3, tier 2 gives 2,
/// tier 3 gives 1, tier 0 gives one half, anything else nothing.
pub open spec fn tier_half_points(t: Option<u8>) -> nat {
    match t {
        Some(1) => 6,
        Some(2) => 4,
        Some(3) => 2,
        Some(0) => 1,
        _ => 0,
    }
}

/// Half points of all ingredients.
pub open spec fn half_points_sum(config: ScoringConfig, ings: Seq<String>) -> nat
    decreases ings.len(),
{
    if ings.len() == 0 {
        0
    } else {
        half_points_sum(config, ings.drop_last()) + tier_half_points(
            ingredient_tier_of(config, ings.last()@),
        )
    }
}

/// How many keywords, lowercased, occur in `lower` (a keyword listed twice counts twice).
pub open spec fn keyword_hits(keys: Seq<String>, lower: Seq<char>) -> nat
    decreases keys.len(),
{
    if keys.len() == 0 {
        0
    } else {
        keyword_hits(keys.drop_last(), lower) + if is_substring(lower_of(keys.last()@), lower) {
            1nat
        } else {
            0nat
        }
    }
}

/// Booster bonus of one ingredient: 10 per high-impact keyword in it, 5 per medium one.
pub open spec fn booster_bonus_one(b: FlavorBoosters, ingredient: Seq<char>) -> nat {
    10 * keyword_hits(b.high@, lower_of(ingredient)) + 5 * keyword_hits(b.medium@, lower_of(ingredient))
}

/// Booster bonus of all ingredients.
pub open spec fn booster_sum(b: FlavorBoosters, ings: Seq<String>) -> nat
    decreases ings.len(),
{
    if ings.len() == 0 {
        0
    } else {
        booster_sum(b, ings.drop_last()) + booster_bonus_one(b, ings.last()@)
    }
}

/// The smaller of `a` and 100.
pub open spec fn cap100(a: nat) -> nat {
    if a > 100 { 100 } else { a }
}

/// What the ingredient overlap of a recipe is made of. The score is
/// `100 * half_points / max_half_points + booster_bonus`, clamped to [0, 100],
/// and 0 when the recipe has no ingredients.
#[derive(Debug, Clone, Copy, PartialEq, Eq)]
pub struct OverlapTally {
    /// Points earned by the ingredients' tiers, in half points.
    pub half_points: u128,
    /// The most half points the ingredients could earn: 6 per ingredient.
    pub max_half_points: u128,
    /// Flavor booster bonus, capped at 100 (beyond that the clamp decides anyway).
    pub booster_bonus: u32,
}

/// How many keywords, lowercased, occur in `lower`.
fn count_keyword_hits(keys: &Vec<String>, lower: &str) -> (r: u64)
    ensures
        r as nat == keyword_hits(keys@, lower@),
{
    let mut n: u64 = 0;
    let mut i: usize = 0;
    while i < keys.len()
        invariant
            i <= keys@.len(),
            n as nat == keyword_hits(keys@.take(i as int), lower@),
            n <= i,
        decreases keys@.len() - i,
    {
        assert(keys@.take(i + 1).drop_last() == keys@.take(i as int));
        let k = lowercase(keys[i].as_str());
        if contains(lower, k.as_str()) {
            n = n + 1;
        }
        i = i + 1;
    }
    assert(keys@.take(keys@.len() as int) == keys@);
    n
}

/// The parts of the ingredient overlap score.
pub fn score_ingredient_overlap(recipe: &Recipe, config: &ScoringConfig) -> (r: OverlapTally)
    ensures
        r.half_points == half_points_sum(*config, recipe.ingredients@),
        r.max_half_points == 6 * recipe.ingredients@.len(),
        r.booster_bonus == match config.flavor_boosters {
            Some(b) => cap100(booster_sum(b, recipe.ingredients@)),
            None => 0,
        },
{
    let ings = &recipe.ingredients;
    let mut points: u128 = 0;
    let mut i: usize = 0;
    while i < ings.len()
        invariant
            i <= ings@.len(),
            points == half_points_sum(*config, ings@.take(i as int)),
            points <= 6 * i,
        decreases ings@.len() - i,
    {
        assert(ings@.take(i + 1).drop_last() == ings@.take(i as int));
        let t = resolve_ingredient_tier(ings[i].as_str(), config);
        let p: u128 = match t {
            Some(1) => 6,
            Some(2) => 4,
            Some(3) => 2,
            Some(0) => 1,
            _ => 0,
        };
        points = points + p;
        i = i + 1;
    }
    assert(ings@.take(ings@.len() as int) == ings@);
    let mut bonus: u32 = 0;
    match &config.flavor_boosters {
        Some(b) => {
            let mut k: usize = 0;
            while k < ings.len()
                invariant
                    k <= ings@.len(),
                    config.flavor_boosters == Some(*b),
                    bonus as nat == cap100(booster_sum(*b, ings@.take(k as int))),
                decreases ings@.len() - k,
            {
                assert(ings@.take(k + 1).drop_last() == ings@.take(k as int));
                let lower = lowercase(ings[k].as_str());
                let high = count_keyword_hits(&b.high, lower.as_str());
                let medium = count_keyword_hits(&b.medium, lower.as_str());
                if high >= 10 || medium >= 20 {
                    bonus = 100;
                } else {
                    let add: u32 = (10 * high + 5 * medium) as u32;
                    bonus = if bonus + add > 100 { 100 } else { bonus + add };
                }
                k = k + 1;
            }
            assert(ings@.take(ings@.len() as int) == ings@);
        },
        None => {},
    }
    OverlapTally { half_points: points, max_half_points: 6 * (ings.len() as u128), booster_bonus: bonus }
}

// ── Dimension 2: Protein Alignment ──────────────────────────────

/// Spaces become underscores.
pub open spec fn underscored(s: Seq<char>) -> Seq<char> {
    s.map_values(|c: char| if c == ' ' { '_' } else { c })
}

/// A table key: lowercased, spaces replaced by underscores.
pub open spec fn table_key(s: Seq<char>) -> Seq<char> {
    underscored(lower_of(s))
}

/// Lowercase `s` and replace its spaces by underscores.
pub fn normalize_key(s: &str) -> (r: String)
    ensures
        r@ == table_key(s@),
{
    let lower = lowercase(s);
    let cs = chars_of(lower.as_str());
    let mut out: Vec<char> = Vec::new();
    let mut i: usize = 0;
    while i < cs.len()
        invariant
            i <= cs@.len(),
            out@ == underscored(cs@.take(i as int)),
        decreases cs@.len() - i,
    {
        let c = cs[i];
        out.push(if c == ' ' { '_' } else { c });
        assert(underscored(cs@.take(i + 1)) =~= underscored(cs@.take(i as int)).push(if c == ' ' { '_' } else { c }));
        i = i + 1;
    }
    assert(cs@.take(cs@.len() as int) == cs@);
    string_of(&out)
}

/// Either text occurs in the other.
pub open spec fn overlaps(a: Seq<char>, b: Seq<char>) -> bool {
    is_substring(b, a) || is_substring(a, b)
}

/// The value of the first entry whose key overlaps `k`.
pub open spec fn first_overlap(entries: Seq<(String, u32)>, k: Seq<char>) -> Option<u32>
    decreases entries.len(),
{
    if entries.len() == 0 {
        None
    } else if overlaps(k, entries[0].0@) {
        Some(entries[0].1)
    } else {
        first_overlap(entries.drop_first(), k)
    }
}

/// Protein alignment: 50 without a declared protein; else the score of the
/// normalized protein when it is a key (whatever its score); else the score
/// of the first key that overlaps it; else 50.
pub open spec fn protein_alignment_of(config: ScoringConfig, protein: Option<String>) -> u32 {
    match protein {
        None => 50,
        Some(p) => {
            let k = table_key(p@);
            match lookup(config.protein_scores@, k) {
                Some(v) => v,
                None => match first_overlap(config.protein_scores@, k) {
                    Some(v) => v,
                    None => 50,
                },
            }
        },
    }
}

/// Whether either text occurs in the other.
fn texts_overlap(a: &str, b: &str) -> (r: bool)
    ensures
        r == overlaps(a@, b@),
{
    contains(a, b) || contains(b, a)
}

/// Score how well the recipe's primary protein suits the household.
pub fn score_protein_alignment(recipe: &Recipe, config: &ScoringConfig) -> (r: u32)
    ensures
        r == protein_alignment_of(*config, recipe.primary_protein),
{
    let protein = match &recipe.primary_protein {
        Some(p) => p,
        None => return 50,
    };
    let normalized = normalize_key(protein.as_str());
    if let Some(v) = find_entry(&config.protein_scores, normalized.as_str()) {
        return v;
    }
    let entries = &config.protein_scores;
    let mut i: usize = 0;
    assert(entries@.subrange(0, entries@.len() as int) == entries@);
    while i < entries.len()
        invariant
            i <= entries@.len(),
            recipe.primary_protein == Some(*protein),
            normalized@ == table_key(protein@),
            lookup(config.protein_scores@, normalized@) is None,
            entries == &config.protein_scores,
            first_overlap(entries@, normalized@) == first_overlap(
                entries@.subrange(i as int, entries@.len() as int),
                normalized@,
            ),
        decreases entries@.len() - i,
    {
        let ghost rest = entries@.subrange(i as int, entries@.len() as int);
        assert(rest.drop_first() == entries@.subrange(i + 1, entries@.len() as int));
        if texts_overlap(normalized.as_str(), entries[i].0.as_str()) {
            return entries[i].1;
        }
        i = i + 1;
    }
    50
}

// ── Dimension 3: Cuisine Affinity ───────────────────────────────

/// The larger of two optional scores; a score beats no score.
pub open spec fn max_opt(a: Option<u32>, b: Option<u32>) -> Option<u32> {
    match (a, b) {
        (Some(x), Some(y)) => Some(if x >= y { x } else { y }),
        (Some(x), None) => Some(x),
        (None, _) => b,
    }
}

/// The highest value among entries whose key overlaps `k`; `None` if no key does.
pub open spec fn best_overlap(entries: Seq<(String, u32)>, k: Seq<char>) -> Option<u32>
    decreases entries.len(),
{
    if entries.len() == 0 {
        None
    } else {
        let prev = best_overlap(entries.drop_last(), k);
        let e = entries.last();
        if overlaps(k, e.0@) {
            max_opt(prev, Some(e.1))
        } else {
            prev
        }
    }
}

/// The highest overlapping value over all tags, each normalized; `None` when
/// no tag overlaps any key.
pub open spec fn best_over_tags(entries: Seq<(String, u32)>, tags: Seq<String>) -> Option<u32>
    decreases tags.len(),
{
    if tags.len() == 0 {
        None
    } else {
        max_opt(best_over_tags(entries, tags.drop_last()), best_overlap(entries, table_key(tags.last()@)))
    }
}

/// Cuisine affinity: the highest score among cuisine keys that overlap a
/// normalized tag (an exact key overlaps too); when no tag overlaps any key,
/// the `"general"` score (or 50).
pub open spec fn cuisine_affinity_of(config: ScoringConfig, tags: Seq<String>) -> u32 {
    match best_over_tags(config.cuisine_scores@, tags) {
        Some(b) => b,
        None => general_cuisine_score(config.cuisine_scores@),
    }
}

/// The larger of two optional scores.
fn max_option(a: Option<u32>, b: Option<u32>) -> (r: Option<u32>)
    ensures
        r == max_opt(a, b),
{
    match (a, b) {
        (Some(x), Some(y)) => Some(if x >= y { x } else { y }),
        (Some(x), None) => Some(x),
        (None, _) => b,
    }
}

/// Score how well the recipe's cuisine tags suit the household.
pub fn score_cuisine_affinity(recipe: &Recipe, config: &ScoringConfig) -> (r: u32)
    ensures
        r == cuisine_affinity_of(*config, recipe.tags@),
{
    let entries = &config.cuisine_scores;
    let tags = &recipe.tags;
    let mut best: Option<u32> = None;
    let mut t: usize = 0;
    while t < tags.len()
        invariant
            t <= tags@.len(),
            best == best_over_tags(entries@, tags@.take(t as int)),
        decreases tags@.len() - t,
    {
        assert(tags@.take(t + 1).drop_last() == tags@.take(t as int));
        let normalized = normalize_key(tags[t].as_str());
        let mut tag_best: Option<u32> = None;
        let mut i: usize = 0;
        while i < entries.len()
            invariant
                i <= entries@.len(),
                tag_best == best_overlap(entries@.take(i as int), normalized@),
            decreases entries@.len() - i,
        {
            assert(entries@.take(i + 1).drop_last() == entries@.take(i as int));
            if texts_overlap(normalized.as_str(), entries[i].0.as_str()) {
                tag_best = max_option(tag_best, Some(entries[i].1));
            }
            i = i + 1;
        }
        assert(entries@.take(entries@.len() as int) == entries@);
        best = max_option(best, tag_best);
        t = t + 1;
    }
    assert(tags@.take(tags@.len() as int) == tags@);
    match best {
        Some(b) => b,
        None => {
            proof {
                reveal_strlit("general");
            }
            assert("general"@ == seq!['g', 'e', 'n', 'e', 'r', 'a', 'l']);
            config.cuisine_score("general")
        },
    }
}

// ── Dimension 4: Practical Friction ─────────────────────────────

/// Friction penalty of one ingredient: 10 for tier 0, 5 when unresolved.
pub open spec fn friction_penalty(t: Option<u8>) -> nat {
    match t {
        None => 5,
        Some(0) => 10,
        _ => 0,
    }
}

/// Friction penalties of all ingredients.
pub open spec fn friction_sum(config: ScoringConfig, ings: Seq<String>) -> nat
    decreases ings.len(),
{
    if ings.len() == 0 {
        0
    } else {
        friction_sum(config, ings.drop_last()) + friction_penalty(
            ingredient_tier_of(config, ings.last()@),
        )
    }
}

/// Practical friction: 80 less the penalties, never below 0.
pub open spec fn practical_friction_of(config: ScoringConfig, ings: Seq<String>) -> int {
    let v = 80 - friction_sum(config, ings);
    if v < 0 { 0 } else { v }
}

/// Score how easily the recipe's ingredients are bought.
pub fn score_practical_friction(recipe: &Recipe, config: &ScoringConfig) -> (r: u32)
    ensures
        r as int == practical_friction_of(*config, recipe.ingredients@),
{
    let ings = &recipe.ingredients;
    let mut score: u32 = 80;
    let mut i: usize = 0;
    while i < ings.len()
        invariant
            i <= ings@.len(),
            score as int == practical_friction_of(*config, ings@.take(i as int)),
        decreases ings@.len() - i,
    {
        assert(ings@.take(i + 1).drop_last() == ings@.take(i as int));
        let p: u32 = match resolve_ingredient_tier(ings[i].as_str(), config) {
            None => 5,
            Some(0) => 10,
            _ => 0,
        };
        score = if score >= p { score - p } else { 0 };
        i = i + 1;
    }
    assert(ings@.take(ings@.len() as int) == ings@);
    score
}

// ── Dimension 5: Family Fit ─────────────────────────────────────

/// `i` is where the first run of digits in `s` starts.
pub open spec fn first_digit_at(s: Seq<char>, i: int) -> bool {
    0 <= i < s.len() && is_digit(s[i]) && forall|j: int| 0 <= j < i ==> !is_digit(#[trigger] s[j])
}

/// The run of digits that starts at `i` ends at `j`.
pub open spec fn digit_run(s: Seq<char>, i: int, j: int) -> bool {
    0 <= i < j <= s.len() && all_digits(s.subrange(i, j)) && (j == s.len() || !is_digit(s[j]))
}

/// The first run of digits in `s`, read as a `u32`; `None` when there is no
/// digit or the run exceeds `u32`.
pub open spec fn first_number(s: Seq<char>) -> Option<u32> {
    if exists|i: int, j: int| first_digit_at(s, i) && digit_run(s, i, j) {
        let (i, j) = choose|i: int, j: int| first_digit_at(s, i) && digit_run(s, i, j);
        if digits_value(s.subrange(i, j)) <= u32::MAX {
            Some(digits_value(s.subrange(i, j)) as u32)
        } else {
            None
        }
    } else {
        None
    }
}

/// Extract the first integer of a string: `"6-8 servings"` gives 6. `None`
/// when there is no digit, or when the first run of digits exceeds `u32`.
pub fn extract_first_number(s: &str) -> (r: Option<u32>)
    ensures
        r == first_number(s@),
        (forall|j: int| 0 <= j < s@.len() ==> !is_digit(#[trigger] s@[j])) ==> r is None,
        forall|i: int, j: int|
            first_digit_at(s@, i) && digit_run(s@, i, j) ==> r == if digits_value(s@.subrange(i, j))
                <= u32::MAX {
                Some(digits_value(s@.subrange(i, j)) as u32)
            } else {
                None::<u32>
            },
{
    let cs = chars_of(s);
    let n = cs.len();
    let mut i: usize = 0;
    while i < n && !('0' <= cs[i] && cs[i] <= '9')
        invariant
            i <= n == cs@.len(),
            cs@ == s@,
            forall|j: int| 0 <= j < i ==> !is_digit(#[trigger] cs@[j]),
        decreases n - i,
    {
        i = i + 1;
    }
    if i == n {
        assert forall|a: int, b: int| !(first_digit_at(s@, a) && digit_run(s@, a, b)) by {
            if 0 <= a < s@.len() {
                assert(!is_digit(cs@[a]));
            }
        }
        return None;
    }
    let start = i;
    let mut value: u32 = 0;
    let mut fits = true;
    let mut j: usize = start;
    while j < n && '0' <= cs[j] && cs[j] <= '9'
        invariant
            start < n == cs@.len(),
            cs@ == s@,
            first_digit_at(cs@, start as int),
            start <= j <= n,
            all_digits(cs@.subrange(start as int, j as int)),
            fits == (digits_value(cs@.subrange(start as int, j as int)) <= u32::MAX),
            fits ==> value as nat == digits_value(cs@.subrange(start as int, j as int)),
        decreases n - j,
    {
        let d: u32 = (cs[j] as u32) - ('0' as u32);
        let ghost prefix = cs@.subrange(start as int, j as int);
        let ghost next = cs@.subrange(start as int, j + 1);
        assert(next.drop_last() == prefix);
        assert(next.last() == cs@[j as int]);
        if fits {
            if value > 429496729 || (value == 429496729 && d > 5) {
                fits = false;
                assert(digits_value(next) > u32::MAX);
            } else {
                value = value * 10 + d;
            }
        } else {
            assert(digits_value(next) >= digits_value(prefix));
        }
        j = j + 1;
    }
    proof {
        assert(digit_run(s@, start as int, j as int));
        assert forall|a: int, b: int| first_digit_at(s@, a) && digit_run(s@, a, b) implies a == start && b == j by {
            if a < start {
                assert(!is_digit(s@[a]));
            }
            if start < a {
                assert(!is_digit(s@[start as int]));
            }
            if b < j {
                assert(is_digit(cs@.subrange(start as int, j as int)[b - start]));
            }
            if j < b {
                assert(is_digit(s@.subrange(a, b)[j - a]));
            }
        }
        assert(first_digit_at(s@, start as int) && digit_run(s@, start as int, j as int));
    }
    if fits {
        Some(value)
    } else {
        None
    }
}

/// Family fit: 60, plus 20 when the servings' first number is at least 4,
/// plus 10 when a non-empty cook time that does not mention hours has a first
/// number of at most 30, plus 10 when some tag is `easy` or `quick` in any case.
pub open spec fn family_fit_of(recipe: Recipe) -> int {
    60 + (if servings_bonus(recipe.servings) { 20int } else { 0int }) + (if cook_time_bonus(
        recipe.cook_time,
    ) {
        10int
    } else {
        0int
    }) + (if has_easy_tag(recipe.tags@) { 10int } else { 0int })
}

/// The servings' first number is at least 4.
pub open spec fn servings_bonus(servings: Option<String>) -> bool {
    match servings {
        Some(s) => match first_number(s@) {
            Some(n) => n >= 4,
            None => false,
        },
        None => false,
    }
}

/// The cook time is given in minutes, at most 30.
pub open spec fn cook_time_bonus(cook_time: Option<String>) -> bool {
    match cook_time {
        Some(ct) => ct@.len() > 0 && !is_substring(seq!['h', 'o', 'u', 'r'], lower_of(ct@))
            && match first_number(ct@) {
            Some(n) => n <= 30,
            None => false,
        },
        None => false,
    }
}

/// Some tag, lowercased, is `easy` or `quick`.
pub open spec fn has_easy_tag(tags: Seq<String>) -> bool {
    exists|i: int|
        0 <= i < tags.len() && (lower_of(#[trigger] tags[i]@) == seq!['e', 'a', 's', 'y'] || lower_of(
            tags[i]@,
        ) == seq!['q', 'u', 'i', 'c', 'k'])
}

/// Whether some tag, lowercased, is `easy` or `quick`.
fn any_easy_tag(tags: &Vec<String>) -> (r: bool)
    ensures
        r == has_easy_tag(tags@),
{
    proof {
        reveal_strlit("easy");
        reveal_strlit("quick");
    }
    let e = "easy".to_owned();
    let q = "quick".to_owned();
    assert(e@ == seq!['e', 'a', 's', 'y']);
    assert(q@ == seq!['q', 'u', 'i', 'c', 'k']);
    let mut i: usize = 0;
    while i < tags.len()
        invariant
            i <= tags@.len(),
            e@ == seq!['e', 'a', 's', 'y'],
            q@ == seq!['q', 'u', 'i', 'c', 'k'],
            forall|k: int|
                0 <= k < i ==> lower_of(#[trigger] tags@[k]@) != seq!['e', 'a', 's', 'y'] && lower_of(
                    tags@[k]@,
                ) != seq!['q', 'u', 'i', 'c', 'k'],
        decreases tags@.len() - i,
    {
        let lower = lowercase(tags[i].as_str());
        if lower == e || lower == q {
            assert(lower_of(tags@[i as int]@) == lower@);
            return true;
        }
        i = i + 1;
    }
    false
}

/// Score how well the recipe suits a family: servings, cook time and tags.
pub fn score_family_fit(recipe: &Recipe) -> (r: u32)
    ensures
        r as int == family_fit_of(*recipe),
{
    proof {
        reveal_strlit("hour");
    }
    assert("hour"@ == seq!['h', 'o', 'u', 'r']);
    let mut score: u32 = 60;
    if let Some(s) = &recipe.servings {
        if let Some(n) = extract_first_number(s.as_str()) {
            if n >= 4 {
                score = score + 20;
            }
        }
    }
    if let Some(ct) = &recipe.cook_time {
        if !ct.as_str().is_empty() {
            let lower = lowercase(ct.as_str());
            if !contains(lower.as_str(), "hour") {
                if let Some(minutes) = extract_first_number(ct.as_str()) {
                    if minutes <= 30 {
                        score = score + 10;
                    }
                }
            }
        }
    }
    if any_easy_tag(&recipe.tags) {
        score = score + 10;
    }
    score
}

/// Map a score in whole points to its label; fractions of a point never
/// change the band, as every band starts at a whole number.
pub fn score_label(score: u32) -> (r: &'static str)
    ensures
        r@ == label_of(score as int),
{
    proof {
        reveal_strlit("Perfect fit");
        reveal_strlit("Good fit");
        reveal_strlit("Moderate fit");
        reveal_strlit("Stretch");
        reveal_strlit("Adventure");
    }
    if score >= 80 {
        "Perfect fit"
    } else if score >= 60 {
        "Good fit"
    } else if score >= 40 {
        "Moderate fit"
    } else if score >= 20 {
        "Stretch"
    } else {
        "Adventure"
    }
}

/// The label of a score: bands start at 80, 60, 40 and 20, each inclusive.
pub open spec fn label_of(score: int) -> Seq<char> {
    if score >= 80 {
        "Perfect fit"@
    } else if score >= 60 {
        "Good fit"@
    } else if score >= 40 {
        "Moderate fit"@
    } else if score >= 20 {
        "Stretch"@
    } else {
        "Adventure"@
    }
}

/// The five dimensions of a recipe's score, before weighting. Ingredient
/// overlap is given by its parts; the others are whole numbers in [0, 100].
#[derive(Debug, Clone, Copy, PartialEq, Eq)]
pub struct DimensionTally {
    pub ingredient_overlap: OverlapTally,
    pub protein_alignment: u32,
    pub cuisine_affinity: u32,
    pub practical_friction: u32,
    pub family_fit: u32,
}

/// Compute every dimension of a recipe's score.
pub fn score_dimensions(recipe: &Recipe, config: &ScoringConfig) -> (r: DimensionTally)
    ensures
        r.ingredient_overlap.half_points == half_points_sum(*config, recipe.ingredients@),
        r.ingredient_overlap.max_half_points == 6 * recipe.ingredients@.len(),
        r.ingredient_overlap.booster_bonus == match config.flavor_boosters {
            Some(b) => cap100(booster_sum(b, recipe.ingredients@)),
            None => 0,
        },
        r.protein_alignment == protein_alignment_of(*config, recipe.primary_protein),
        r.cuisine_affinity == cuisine_affinity_of(*config, recipe.tags@),
        r.practical_friction as int == practical_friction_of(*config, recipe.ingredients@),
        r.family_fit as int == family_fit_of(*recipe),
{
    DimensionTally {
        ingredient_overlap: score_ingredient_overlap(recipe, config),
        protein_alignment: score_protein_alignment(recipe, config),
        cuisine_affinity: score_cuisine_affinity(recipe, config),
        practical_friction: score_practical_friction(recipe, config),
        family_fit: score_family_fit(recipe),
    }
}

} // verus!
