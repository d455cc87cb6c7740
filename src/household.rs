use vstd::prelude::*;

use crate::text::{chars_of, parse_u8, parsed_u8, string_of, string_of_range, trim, trim_of};
use crate::types::{tier_of, Category, FrequencyTier, Store};

verus! {

#[verifier::external_type_specification]
#[verifier::external_body]
pub struct ExYamlValue(serde_yaml::Value);

/// The household model: family, stores and recurring purchases.
#[derive(Debug, Clone)]
pub struct HouseholdModel {
    pub family: FamilyProfile,
    pub stores: Stores,
    pub amazon_recurring: Vec<AmazonItem>,
    pub giant_recurring: Vec<GiantItem>,
    pub acme_recurring: Vec<serde_yaml::Value>,
    pub meal_plan_source: Option<String>,
}

/// Family members.
#[derive(Debug, Clone)]
pub struct FamilyProfile {
    pub members: Vec<FamilyMember>,
}

#[derive(Debug, Clone)]
pub struct FamilyMember {
    pub name: String,
    pub age: Option<u8>,
}

/// Store configurations.
#[derive(Debug, Clone)]
pub struct Stores {
    pub giant: Option<StoreConfig>,
    pub acme: Option<StoreConfig>,
    pub amazon: Option<StoreConfig>,
}

/// Descriptive metadata of one store; nothing here is scored.
#[derive(Debug, Clone)]
pub struct StoreConfig {
    pub store_type: Option<String>,
    pub order_method: Option<String>,
    pub frequency: Option<String>,
    pub account: Option<String>,
    pub store: Option<String>,
    pub avg_order_total: Option<String>,
    pub total_annual_spend: Option<String>,
    pub avg_items_per_order: Option<u32>,
    pub data_sources: Option<Vec<String>>,
    pub data_source: Option<String>,
}

/// Recurring item bought from the online retailer.
#[derive(Debug, Clone)]
pub struct AmazonItem {
    pub item: String,
    pub category: Category,
    pub cycle_days: Option<String>,
    pub last_seen: Option<String>,
    pub note: Option<String>,
}

/// Recurring item bought at the main grocery store.
#[derive(Debug, Clone)]
pub struct GiantItem {
    pub item: String,
    pub category: Category,
    pub frequency: Option<String>,
    pub typical_qty: Option<String>,
    pub price: Option<String>,
    pub store: Option<Store>,
    pub oos_count: Option<u32>,
    pub note: Option<String>,
}

/// The items that a sequence of references points to.
pub open spec fn items_of(r: Seq<&GiantItem>) -> Seq<GiantItem> {
    r.map_values(|g: &GiantItem| *g)
}

/// Holds of the store items at tier `tier`.
pub open spec fn at_tier(tier: FrequencyTier) -> spec_fn(GiantItem) -> bool {
    |g: GiantItem| giant_item_tier(g) == tier
}

/// How many times `c` occurs in `s`.
pub open spec fn count_char(s: Seq<char>, c: char) -> nat
    decreases s.len(),
{
    if s.len() == 0 {
        0
    } else {
        count_char(s.drop_last(), c) + if s.last() == c { 1nat } else { 0nat }
    }
}

/// A count field of a frequency string: its parsed value, or 0 when it does not parse.
pub open spec fn count_field(s: Seq<char>) -> int {
    match parsed_u8(trim_of(s)) {
        Some(n) => n as int,
        None => 0,
    }
}

/// The tier of a frequency string `"N/M"`: split at its one `/`, each side
/// trimmed and read as a count (0 if unreadable); any other shape is `Rare`.
pub open spec fn frequency_text_tier(s: Seq<char>) -> FrequencyTier {
    if count_char(s, '/') != 1 {
        FrequencyTier::Rare
    } else {
        let i = choose|i: int| 0 <= i < s.len() && s[i] == '/';
        tier_of(count_field(s.subrange(0, i)), count_field(s.subrange(i + 1, s.len() as int)))
    }
}

/// The tier of a store item: `Rare` without a frequency.
pub open spec fn giant_item_tier(g: GiantItem) -> FrequencyTier {
    match g.frequency {
        Some(f) => frequency_text_tier(f@),
        None => FrequencyTier::Rare,
    }
}

proof fn lemma_count_char_prefix(s: Seq<char>, c: char, i: int)
    requires
        0 <= i <= s.len(),
    ensures
        count_char(s, c) >= count_char(s.subrange(0, i), c),
    decreases s.len() - i,
{
    if i < s.len() {
        lemma_count_char_prefix(s, c, i + 1);
        assert(s.subrange(0, i + 1).drop_last() == s.subrange(0, i));
    } else {
        assert(s.subrange(0, i) == s);
    }
}

proof fn lemma_count_char_split(s: Seq<char>, c: char, i: int)
    requires
        0 <= i <= s.len(),
    ensures
        count_char(s, c) == count_char(s.subrange(0, i), c) + count_char(s.subrange(i, s.len() as int), c),
    decreases s.len() - i,
{
    if i == s.len() {
        assert(s.subrange(0, i) == s);
        assert(s.subrange(i, s.len() as int).len() == 0);
    } else {
        lemma_count_char_split(s.drop_last(), c, if i <= s.len() - 1 { i } else { s.len() - 1 });
        assert(s.drop_last().subrange(0, i) == s.subrange(0, i));
        assert(s.subrange(i, s.len() as int).drop_last() == s.drop_last().subrange(i, s.len() - 1));
        assert(s.subrange(i, s.len() as int).last() == s.last());
    }
}

/// If `s[i]` and `s[j]` are both `c` at different places, `c` occurs twice.
proof fn lemma_count_char_two(s: Seq<char>, c: char, i: int, j: int)
    requires
        0 <= i < j < s.len(),
        s[i] == c,
        s[j] == c,
    ensures
        count_char(s, c) >= 2,
{
    lemma_count_char_split(s, c, i + 1);
    lemma_count_char_split(s.subrange(0, i + 1), c, i);
    assert(s.subrange(0, i + 1).subrange(i, i + 1) =~= seq![c]);
    assert(count_char(seq![c], c) == 1) by {
        assert(seq![c].drop_last() =~= Seq::<char>::empty());
    }
    let rest = s.subrange(i + 1, s.len() as int);
    lemma_count_char_split(rest, c, j - i);
    let mid = rest.subrange(0, j - i);
    assert(mid.drop_last() =~= s.subrange(i + 1, j));
    assert(mid.last() == c);
}

/// Parse a frequency string such as `"14/18"` into a tier.
pub fn parse_frequency_tier(freq: &str) -> (r: FrequencyTier)
    ensures
        r == frequency_text_tier(freq@),
{
    let cs = chars_of(freq);
    let n = cs.len();
    let mut slashes: usize = 0;
    let mut at: usize = 0;
    let mut k: usize = 0;
    while k < n
        invariant
            n == cs@.len(),
            cs@ == freq@,
            k <= n,
            slashes as nat == count_char(cs@.subrange(0, k as int), '/'),
            slashes <= k,
            slashes > 0 ==> at < k && cs@[at as int] == '/',
            slashes == 0 ==> forall|j: int| 0 <= j < k ==> cs@[j] != '/',
            slashes == 1 ==> forall|j: int| 0 <= j < k && j != at ==> cs@[j] != '/',
        decreases n - k,
    {
        assert(cs@.subrange(0, k + 1).drop_last() == cs@.subrange(0, k as int));
        if cs[k] == '/' {
            if slashes == 0 {
                at = k;
            }
            slashes = slashes + 1;
        }
        k = k + 1;
    }
    assert(cs@.subrange(0, n as int) == cs@);
    if slashes != 1 {
        return FrequencyTier::Rare;
    }
    proof {
        let i = choose|i: int| 0 <= i < cs@.len() && cs@[i] == '/';
        if i != at {
            if i < at {
                lemma_count_char_two(cs@, '/', i, at as int);
            } else {
                lemma_count_char_two(cs@, '/', at as int, i);
            }
        }
    }
    let left = string_of_range(&cs, 0, at);
    let right = string_of_range(&cs, at + 1, n);
    let left_trim = string_of(&trim(left.as_str()));
    let right_trim = string_of(&trim(right.as_str()));
    let a = match parse_u8(left_trim.as_str()) {
        Some(v) => v,
        None => 0,
    };
    let t = match parse_u8(right_trim.as_str()) {
        Some(v) => v,
        None => 0,
    };
    FrequencyTier::from_frequency(a, t)
}

impl HouseholdModel {
    /// All store items at the given tier, in their recorded order.
    pub fn giant_items_by_tier(&self, tier: FrequencyTier) -> (r: Vec<&GiantItem>)
        ensures
            items_of(r@) == self.giant_recurring@.filter(at_tier(tier)),
    {
        let mut r: Vec<&GiantItem> = Vec::new();
        let mut i: usize = 0;
        while i < self.giant_recurring.len()
            invariant
                i <= self.giant_recurring@.len(),
                items_of(r@) == self.giant_recurring@.take(i as int).filter(at_tier(tier)),
            decreases self.giant_recurring@.len() - i,
        {
            let g = &self.giant_recurring[i];
            proof {
                assert(self.giant_recurring@.take(i + 1) == self.giant_recurring@.take(i as int).push(*g));
                self.giant_recurring@.take(i as int).lemma_filter_push(*g, at_tier(tier));
                assert(at_tier(tier)(*g) == (giant_item_tier(*g) == tier));
            }
            let ghost before = r@;
            if g.tier() == tier {
                r.push(g);
                assert(items_of(r@) =~= items_of(before).push(*g));
                            }
            i = i + 1;
        }
        assert(self.giant_recurring@.take(i as int) == self.giant_recurring@);
        r
    }

    /// The staples: store items bought on (nearly) every order.
    pub fn staples(&self) -> (r: Vec<&GiantItem>)
        ensures
            items_of(r@) == self.giant_recurring@.filter(at_tier(FrequencyTier::EveryOrder)),
    {
        self.giant_items_by_tier(FrequencyTier::EveryOrder)
    }
}

impl GiantItem {
    /// The item's frequency tier, from its `"N/M"` frequency string.
    pub fn tier(&self) -> (r: FrequencyTier)
        ensures
            r == giant_item_tier(*self),
    {
        match &self.frequency {
            Some(f) => parse_frequency_tier(f.as_str()),
            None => FrequencyTier::Rare,
        }
    }
}

} // verus!
