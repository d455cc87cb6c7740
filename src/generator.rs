use vstd::prelude::*;

use crate::household::{at_tier, HouseholdModel};
use crate::item::{copy_category, items_view, ItemSource, ItemView, ShoppingItem};
use crate::recipe::Recipe;
use crate::scoring::{IngredientMapping, ScoringConfig};
use crate::text::{chars_of, contains, is_digit, is_substring, lower_of, lowercase, string_of_range, trim, trim_of, lemma_trim_idempotent};
use crate::types::{Category, FrequencyTier};

verus! {

// ── Cleaning ingredient text ────────────────────────────────────

/// A character of a leading quantity: a digit, `/` or `.`.
pub open spec fn is_qty_char(c: char) -> bool {
    is_digit(c) || c == '/' || c == '.'
}

/// How many leading characters of `s` belong to a quantity (`spaces` false)
/// or are spaces (`spaces` true).
pub open spec fn lead_len(s: Seq<char>, spaces: bool) -> nat
    decreases s.len(),
{
    if s.len() > 0 && (if spaces { s[0] == ' ' } else { is_qty_char(s[0]) }) {
        1 + lead_len(s.drop_first(), spaces)
    } else {
        0
    }
}

/// `c` is `l`, or is the ASCII capital of `l`.
pub open spec fn matches_lower(c: char, l: char) -> bool {
    c == l || ('A' <= c && c <= 'Z' && (c as u32) + 32 == (l as u32))
}

/// The units of measure that cleaning strips, longer spellings first.
pub open spec fn units() -> Seq<Seq<char>> {
    seq![
        "tablespoons"@, "tablespoon"@, "teaspoons"@, "teaspoon"@, "tbsp."@, "tbsp"@, "tsp."@,
        "tsp"@, "cups"@, "cup"@, "ounces"@, "ounce"@, "oz."@, "pounds"@, "pound"@, "lbs."@,
        "lbs"@, "lb."@, "lb"@, "inches"@, "inch"@, "\""@,
    ]
}

/// `s` starts with unit `u` (an ASCII capital matching its small letter), followed by the end, a space or a period.
pub open spec fn unit_fits(s: Seq<char>, u: Seq<char>) -> bool {
    &&& u.len() <= s.len()
    &&& forall|k: int| 0 <= k < u.len() ==> matches_lower(#[trigger] s[k], u[k])
    &&& (s.len() == u.len() || s[u.len() as int] == ' ' || s[u.len() as int] == '.')
}

/// How many characters the first fitting unit of `us` takes at the start of
/// `s`, with a period right after it; 0 when none fits.
pub open spec fn unit_skip_in(s: Seq<char>, us: Seq<Seq<char>>) -> nat
    decreases us.len(),
{
    if us.len() == 0 {
        0
    } else if unit_fits(s, us[0]) {
        us[0].len() + if s.len() > us[0].len() && s[us[0].len() as int] == '.' {
            1nat
        } else {
            0nat
        }
    } else {
        unit_skip_in(s, us.drop_first())
    }
}

/// Where the name starts in trimmed text `t`: past a leading quantity, the
/// spaces after it, and a unit with its own trailing spaces if one follows.
pub open spec fn name_start(t: Seq<char>) -> int {
    let qty_end = lead_len(t, false) as int;
    if qty_end == 0 {
        0
    } else {
        let unit_at = qty_end + lead_len(t.skip(qty_end), true);
        let u = unit_skip_in(t.skip(unit_at), units()) as int;
        if u > 0 {
            unit_at + u + lead_len(t.skip(unit_at + u), true)
        } else {
            unit_at
        }
    }
}

/// The cleaned name of a raw ingredient: the trimmed text past its leading
/// quantity and unit; the trimmed text itself when nothing would be left.
pub open spec fn clean_of(raw: Seq<char>) -> Seq<char> {
    let t = trim_of(raw);
    let r = t.skip(name_start(t));
    if r.len() == 0 {
        t
    } else {
        r
    }
}

proof fn lemma_lead_len_bound(s: Seq<char>, spaces: bool)
    ensures
        lead_len(s, spaces) <= s.len(),
    decreases s.len(),
{
    if s.len() > 0 {
        lemma_lead_len_bound(s.drop_first(), spaces);
    }
}

/// `c` is a space (`spaces` true) or a quantity character.
fn in_run(c: char, spaces: bool) -> (r: bool)
    ensures
        r == if spaces { c == ' ' } else { is_qty_char(c) },
{
    if spaces {
        c == ' '
    } else {
        ('0' <= c && c <= '9') || c == '/' || c == '.'
    }
}

/// Past the run of quantity characters (or spaces) that starts at `start`.
fn skip_run(cs: &Vec<char>, start: usize, spaces: bool) -> (r: usize)
    requires
        start <= cs@.len(),
    ensures
        r == start + lead_len(cs@.skip(start as int), spaces),
        r <= cs@.len(),
{
    let mut p: usize = start;
    while p < cs.len() && in_run(cs[p], spaces)
        invariant
            start <= p <= cs@.len(),
            start + lead_len(cs@.skip(start as int), spaces) == p + lead_len(cs@.skip(p as int), spaces),
        decreases cs@.len() - p,
    {
        assert(cs@.skip(p as int).drop_first() == cs@.skip(p + 1));
        p = p + 1;
    }
    proof {
        lemma_lead_len_bound(cs@.skip(p as int), spaces);
    }
    p
}

/// The characters of `s` from `start` on fit unit `u`.
fn fits_unit(cs: &Vec<char>, start: usize, u: &str) -> (r: bool)
    requires
        start <= cs@.len(),
    ensures
        r == unit_fits(cs@.skip(start as int), u@),
{
    let us = chars_of(u);
    let total = cs.len();
    let ghost s = cs@.skip(start as int);
    if us.len() > total - start {
        return false;
    }
    let mut k: usize = 0;
    while k < us.len()
        invariant
            us@ == u@,
            s == cs@.skip(start as int),
            us@.len() + start <= cs@.len(),
            total == cs@.len(),
            s.len() == cs@.len() - start,
            start <= cs@.len(),
            k <= us@.len(),
            forall|q: int| 0 <= q < k ==> matches_lower(#[trigger] s[q], us@[q]),
        decreases us@.len() - k,
    {
        let at = start + k;
        let c = cs[at];
        let l = us[k];
        assert(s[k as int] == cs@[start + k]);
        let same = c == l || ('A' <= c && c <= 'Z' && (c as u32) + 32 == (l as u32));
        assert(same == matches_lower(c, l));
        if !same {
            return false;
        }
        k = k + 1;
    }
    let end = start + us.len();
    end == cs.len() || cs[end] == ' ' || cs[end] == '.'
}

/// If the text from `start` on begins with a unit of measure, how many
/// characters to skip; 0 otherwise.
fn skip_unit(cs: &Vec<char>, start: usize) -> (r: usize)
    requires
        start <= cs@.len(),
    ensures
        r == unit_skip_in(cs@.skip(start as int), units()),
        start + r <= cs@.len(),
{
    let list: Vec<&str> = vec![
        "tablespoons", "tablespoon", "teaspoons", "teaspoon", "tbsp.", "tbsp", "tsp.", "tsp",
        "cups", "cup", "ounces", "ounce", "oz.", "pounds", "pound", "lbs.", "lbs", "lb.", "lb",
        "inches", "inch", "\"",
    ];
    proof {
        reveal_strlit("tablespoons");
        reveal_strlit("tablespoon");
        reveal_strlit("teaspoons");
        reveal_strlit("teaspoon");
        reveal_strlit("tbsp.");
        reveal_strlit("tbsp");
        reveal_strlit("tsp.");
        reveal_strlit("tsp");
        reveal_strlit("cups");
        reveal_strlit("cup");
        reveal_strlit("ounces");
        reveal_strlit("ounce");
        reveal_strlit("oz.");
        reveal_strlit("pounds");
        reveal_strlit("pound");
        reveal_strlit("lbs.");
        reveal_strlit("lbs");
        reveal_strlit("lb.");
        reveal_strlit("lb");
        reveal_strlit("inches");
        reveal_strlit("inch");
        reveal_strlit("\"");
    }
    let ghost all = units();
    assert(list@.map_values(|u: &str| u@) =~= all);
    let ghost s = cs@.skip(start as int);
    assert(all.skip(0) == all);
    let mut i: usize = 0;
    while i < list.len()
        invariant
            i <= list@.len(),
            list@.map_values(|u: &str| u@) == all,
            all == units(),
            s == cs@.skip(start as int),
            start <= cs@.len(),
            unit_skip_in(s, all) == unit_skip_in(s, all.skip(i as int)),
        decreases list@.len() - i,
    {
        let u = list[i];
        assert(all.skip(i as int)[0] == u@);
        assert(all.skip(i as int).drop_first() == all.skip(i + 1));
        if fits_unit(cs, start, u) {
            let n = chars_of(u).len();
            assert(cs@.skip(start as int).len() == cs@.len() - start);
            assert(n <= cs@.len() - start);
            let total = cs.len();
            if n < total - start && cs[start + n] == '.' {
                return n + 1;
            }
            return n;
        }
        i = i + 1;
    }
    0
}

/// Strip a leading quantity and unit from a raw ingredient:
/// `"2 Tbsp. extra-virgin olive oil"` becomes `"extra-virgin olive oil"`.
pub fn clean_ingredient_name(raw: &str) -> (r: String)
    ensures
        r@ == clean_of(raw@),
{
    let cs = trim(raw);
    let n = cs.len();
    if n == 0 {
        assert(cs@.skip(name_start(cs@)).len() == 0);
        return string_of_range(&cs, 0, 0);
    }
    let qty_end = skip_run(&cs, 0, false);
    assert(cs@.skip(0) == cs@);
    let mut pos = qty_end;
    if qty_end > 0 {
        let unit_at = skip_run(&cs, qty_end, true);
        let u = skip_unit(&cs, unit_at);
        if u > 0 {
            pos = skip_run(&cs, unit_at + u, true);
        } else {
            pos = unit_at;
        }
    }
    assert(pos as int == name_start(cs@));
    if pos == n {
        string_of_range(&cs, 0, n)
    } else {
        string_of_range(&cs, pos, n)
    }
}

/// Cleaning is idempotent on text with no leading quantity: cleaning it
/// once more changes nothing.
pub proof fn lemma_clean_idempotent(x: Seq<char>)
    requires
        lead_len(trim_of(x), false) == 0,
    ensures
        clean_of(clean_of(x)) == clean_of(x),
{
    let t = trim_of(x);
    assert(t.skip(0) == t);
    assert(clean_of(x) == t);
    lemma_trim_idempotent(x);
}

// ── Resolving ingredients to shopping items ─────────────────────

/// The length of the longest alias of `m` that, lowercased, occurs in
/// `lower` (counted in characters, after lowercasing); 0 if none.
pub open spec fn longest_alias_in(aliases: Seq<String>, lower: Seq<char>) -> nat
    decreases aliases.len(),
{
    if aliases.len() == 0 {
        0
    } else {
        let prev = longest_alias_in(aliases.drop_last(), lower);
        let a = lower_of(aliases.last()@);
        if is_substring(a, lower) && a.len() > prev {
            a.len()
        } else {
            prev
        }
    }
}

/// Position of the mapping that owns the longest matching alias; the first
/// such mapping on a tie. `None` when no alias of any length above 0 matches.
pub open spec fn longest_mapping(map: Seq<(String, IngredientMapping)>, lower: Seq<char>) -> Option<int>
    decreases map.len(),
{
    if map.len() == 0 {
        None
    } else {
        let prev = longest_mapping(map.drop_last(), lower);
        let prev_len = match prev {
            Some(k) => longest_alias_in(map[k].1.aliases@, lower),
            None => 0,
        };
        if longest_alias_in(map.last().1.aliases@, lower) > prev_len {
            Some(map.len() - 1)
        } else {
            prev
        }
    }
}

/// The shopping item that one ingredient of a recipe resolves to.
pub open spec fn resolved_item(config: ScoringConfig, ingredient: Seq<char>, recipe_name: Seq<char>) -> ItemView {
    let best = longest_mapping(config.ingredient_map@, lower_of(ingredient));
    ItemView {
        name: match best {
            Some(k) => match config.ingredient_map@[k].1.model_item {
                Some(n) => n@,
                None => clean_of(ingredient),
            },
            None => clean_of(ingredient),
        },
        quantity: 1,
        category: (18, if best is Some { "mapped"@ } else { "unknown"@ }),
        source: (0, recipe_name),
        note: None,
    }
}

proof fn lemma_longest_mapping_bound(map: Seq<(String, IngredientMapping)>, lower: Seq<char>)
    ensures
        longest_mapping(map, lower) matches Some(k) ==> 0 <= k < map.len(),
    decreases map.len(),
{
    if map.len() > 0 {
        lemma_longest_mapping_bound(map.drop_last(), lower);
    }
}

/// Resolve a recipe ingredient to a shopping item: the mapping with the
/// longest alias found in the ingredient names it, else the cleaned text.
pub fn resolve_ingredient(ingredient: &str, recipe_name: &str, config: &ScoringConfig) -> (r: ShoppingItem)
    ensures
        r@ == resolved_item(*config, ingredient@, recipe_name@),
{
    let lower = lowercase(ingredient);
    let map = &config.ingredient_map;
    let mut best: Option<usize> = None;
    let mut best_len: usize = 0;
    let mut i: usize = 0;
    while i < map.len()
        invariant
            i <= map@.len(),
            lower@ == lower_of(ingredient@),
            best matches Some(k) ==> k < i,
            best == match longest_mapping(map@.take(i as int), lower@) {
                Some(k) => Some(k as usize),
                None => None::<usize>,
            },
            best_len == match best {
                Some(k) => longest_alias_in(map@[k as int].1.aliases@, lower@),
                None => 0,
            },
        decreases map@.len() - i,
    {
        let ghost pre = map@.take(i as int);
        assert(map@.take(i + 1).drop_last() == pre);
        proof {
            lemma_longest_mapping_bound(pre, lower@);
            if let Some(k) = longest_mapping(pre, lower@) {
                assert(pre[k] == map@[k]);
            }
        }
        let aliases = &map[i].1.aliases;
        let mut here: usize = 0;
        let mut j: usize = 0;
        while j < aliases.len()
            invariant
                j <= aliases@.len(),
                here == longest_alias_in(aliases@.take(j as int), lower@),
            decreases aliases@.len() - j,
        {
            assert(aliases@.take(j + 1).drop_last() == aliases@.take(j as int));
            let a = lowercase(aliases[j].as_str());
            let a_len = chars_of(a.as_str()).len();
            if contains(lower.as_str(), a.as_str()) && a_len > here {
                here = a_len;
            }
            j = j + 1;
        }
        assert(aliases@.take(aliases@.len() as int) == aliases@);
        if here > best_len {
            best = Some(i);
            best_len = here;
        }
        i = i + 1;
    }
    assert(map@.take(map@.len() as int) == map@);
    proof {
        reveal_strlit("mapped");
        reveal_strlit("unknown");
    }
    let source = ItemSource::Recipe(recipe_name.to_owned());
    let ghost lm = longest_mapping(config.ingredient_map@, lower_of(ingredient@));
    proof {
        lemma_longest_mapping_bound(config.ingredient_map@, lower_of(ingredient@));
    }
    assert(lm is Some <==> best is Some);
    match best {
        Some(k) => {
            assert(lm == Some(k as int));
            let name = match &map[k].1.model_item {
                Some(n) => n.clone(),
                None => clean_ingredient_name(ingredient),
            };
            ShoppingItem {
                name,
                quantity: 1,
                category: Category::Other("mapped".to_owned()),
                source,
                note: None,
            }
        },
        None => ShoppingItem {
            name: clean_ingredient_name(ingredient),
            quantity: 1,
            category: Category::Other("unknown".to_owned()),
            source,
            note: None,
        },
    }
}

// ── Generating the raw list ─────────────────────────────────────

/// The shopping item of a staple.
pub open spec fn staple_item(name: Seq<char>, category: (int, Seq<char>)) -> ItemView {
    ItemView { name, quantity: 1, category, source: (1, Seq::empty()), note: None }
}

/// The items of the staples, in the household's order.
pub open spec fn staple_items(household: HouseholdModel) -> Seq<ItemView> {
    household.giant_recurring@.filter(at_tier(FrequencyTier::EveryOrder)).map_values(
        |g: crate::household::GiantItem| staple_item(g.item@, crate::item::category_view(g.category)),
    )
}

/// The items of one recipe's ingredients, in order.
pub open spec fn recipe_items(config: ScoringConfig, r: Recipe) -> Seq<ItemView> {
    r.ingredients@.map_values(|i: String| resolved_item(config, i@, r.name@))
}

/// The items of all recipes, recipe after recipe.
pub open spec fn all_recipe_items(config: ScoringConfig, recipes: Seq<&Recipe>) -> Seq<ItemView>
    decreases recipes.len(),
{
    if recipes.len() == 0 {
        Seq::empty()
    } else {
        all_recipe_items(config, recipes.drop_last()) + recipe_items(config, *recipes.last())
    }
}

/// The raw, not yet consolidated list: one item per staple, then one per
/// ingredient of each recipe, each with quantity 1.
pub fn generate_list(recipes: &[&Recipe], household: &HouseholdModel, config: &ScoringConfig) -> (r: Vec<ShoppingItem>)
    ensures
        items_view(r@) == staple_items(*household) + all_recipe_items(*config, recipes@),
{
    let mut items: Vec<ShoppingItem> = Vec::new();
    let staples = household.staples();
    let mut s: usize = 0;
    while s < staples.len()
        invariant
            s <= staples@.len(),
            crate::household::items_of(staples@) == household.giant_recurring@.filter(at_tier(FrequencyTier::EveryOrder)),
            items_view(items@) == crate::household::items_of(staples@).take(s as int).map_values(
                |g: crate::household::GiantItem| staple_item(g.item@, crate::item::category_view(g.category)),
            ),
        decreases staples@.len() - s,
    {
        let g = staples[s];
        let item = ShoppingItem {
            name: g.item.clone(),
            quantity: 1,
            category: copy_category(&g.category),
            source: ItemSource::Staple,
            note: None,
        };
        let ghost before = items@;
        items.push(item);
        assert(items_view(items@) =~= items_view(before).push(item@));
        assert(crate::household::items_of(staples@).take(s + 1) =~= crate::household::items_of(staples@).take(s as int).push(*g));
        s = s + 1;
    }
    assert(crate::household::items_of(staples@).take(s as int) == crate::household::items_of(staples@));
    let ghost base = items_view(items@);
    let mut k: usize = 0;
    while k < recipes.len()
        invariant
            k <= recipes@.len(),
            base == staple_items(*household),
            items_view(items@) == base + all_recipe_items(*config, recipes@.take(k as int)),
        decreases recipes@.len() - k,
    {
        let recipe = recipes[k];
        assert(recipes@.take(k + 1).drop_last() == recipes@.take(k as int));
        assert(recipes@.take(k + 1).last() == recipe);
        let ghost start = items_view(items@);
        let mut j: usize = 0;
        while j < recipe.ingredients.len()
            invariant
                j <= recipe.ingredients@.len(),
                items_view(items@) == start + recipe_items(*config, *recipe).take(j as int),
            decreases recipe.ingredients@.len() - j,
        {
            let item = resolve_ingredient(recipe.ingredients[j].as_str(), recipe.name.as_str(), config);
            let ghost before = items@;
            items.push(item);
            assert(items_view(items@) =~= items_view(before).push(item@));
            assert(recipe_items(*config, *recipe).take(j + 1) =~= recipe_items(*config, *recipe).take(j as int).push(item@));
            j = j + 1;
        }
        assert(recipe_items(*config, *recipe).take(recipe.ingredients@.len() as int) == recipe_items(*config, *recipe));
        assert(items_view(items@) =~= base + all_recipe_items(*config, recipes@.take(k + 1)));
        k = k + 1;
    }
    assert(recipes@.take(recipes@.len() as int) == recipes@);
    items
}

} // verus!
