use vstd::prelude::*;

verus! {

/// Grocery store identifier.
#[derive(Debug, Clone, PartialEq, Eq, Hash)]
pub enum Store {
    Giant,
    Acme,
    Amazon,
    TraderJoes,
    Other(String),
}

/// Product category, following the store's aisle layout.
#[derive(Debug, Clone, PartialEq, Eq, Hash)]
pub enum Category {
    Produce,
    Dairy,
    Meat,
    Deli,
    Frozen,
    Canned,
    Bread,
    Pasta,
    Beverages,
    Snacks,
    Condiments,
    Baking,
    Breakfast,
    Baby,
    Household,
    Health,
    Personal,
    Pet,
    Other(String),
}

/// Frequency tier of a recurring item, by the share of past orders it appeared in.
#[derive(Debug, Clone, Copy, PartialEq, Eq, Structural, PartialOrd, Ord, Hash)]
pub enum FrequencyTier {
    /// At least 12 of every 18 orders: added to every list.
    EveryOrder,
    /// At least 7 of every 18 orders.
    MostOrders,
    /// At least 3 of every 18 orders.
    Occasional,
    /// Fewer than 3 of every 18 orders, or no history at all.
    Rare,
}

/// Primary protein in a recipe.
#[derive(Debug, Clone, PartialEq, Eq, Hash)]
pub enum Protein {
    GroundChicken,
    Tofu,
    Vegetarian,
    GroundBeef,
    Tuna,
    ChickenBreast,
    ChickenThigh,
    Eggs,
    Pork,
    Salmon,
    Shrimp,
    Steak,
    Ham,
    Sausage,
    Haddock,
    Lamb,
    Other(String),
}

/// Cuisine type.
#[derive(Debug, Clone, PartialEq, Eq, Hash)]
pub enum Cuisine {
    SoutheastAsian,
    Korean,
    Japanese,
    Mexican,
    Chinese,
    ItalianPasta,
    Mediterranean,
    AmericanComfort,
    MiddleEastern,
    Indian,
    Thai,
    French,
    General,
    Other(String),
}

/// Rank of a tier: 0 for the most frequent, 3 for the least.
pub open spec fn tier_rank(t: FrequencyTier) -> int {
    match t {
        FrequencyTier::EveryOrder => 0,
        FrequencyTier::MostOrders => 1,
        FrequencyTier::Occasional => 2,
        FrequencyTier::Rare => 3,
    }
}

/// The tier of `a` appearances out of `t` orders, compared as exact ratios
/// against 12/18, 7/18 and 3/18; no orders at all means `Rare`.
pub open spec fn tier_of(a: int, t: int) -> FrequencyTier {
    if t <= 0 {
        FrequencyTier::Rare
    } else if 18 * a >= 12 * t {
        FrequencyTier::EveryOrder
    } else if 18 * a >= 7 * t {
        FrequencyTier::MostOrders
    } else if 18 * a >= 3 * t {
        FrequencyTier::Occasional
    } else {
        FrequencyTier::Rare
    }
}

impl FrequencyTier {
    /// Classify an item by how many of `total_orders` orders it appeared in.
    pub fn from_frequency(appearances: u8, total_orders: u8) -> (r: Self)
        ensures
            r == tier_of(appearances as int, total_orders as int),
    {
        if total_orders == 0 {
            return FrequencyTier::Rare;
        }
        let a: u32 = 18 * (appearances as u32);
        let t: u32 = total_orders as u32;
        if a >= 12 * t {
            FrequencyTier::EveryOrder
        } else if a >= 7 * t {
            FrequencyTier::MostOrders
        } else if a >= 3 * t {
            FrequencyTier::Occasional
        } else {
            FrequencyTier::Rare
        }
    }
}

/// The tier never ranks better when the share of orders shrinks: if
/// `a1/t1 <= a2/t2` then the tier of `a1/t1` ranks no better than that of `a2/t2`.
pub proof fn lemma_tier_monotone(a1: int, t1: int, a2: int, t2: int)
    requires
        a1 >= 0,
        a2 >= 0,
        t1 > 0,
        t2 > 0,
        a1 * t2 <= a2 * t1,
    ensures
        tier_rank(tier_of(a1, t1)) >= tier_rank(tier_of(a2, t2)),
{
    lemma_share_bound(a1, t1, a2, t2, 12);
    lemma_share_bound(a1, t1, a2, t2, 7);
    lemma_share_bound(a1, t1, a2, t2, 3);
    assert(18 * a1 >= 12 * t1 ==> 18 * a2 >= 12 * t2);
    assert(18 * a1 >= 7 * t1 ==> 18 * a2 >= 7 * t2);
    assert(18 * a1 >= 3 * t1 ==> 18 * a2 >= 3 * t2);
}

proof fn lemma_share_bound(a1: int, t1: int, a2: int, t2: int, k: int)
    requires
        t1 > 0,
        t2 > 0,
        a1 * t2 <= a2 * t1,
    ensures
        18 * a1 >= k * t1 ==> 18 * a2 >= k * t2,
{
    if 18 * a1 >= k * t1 {
        assert(18 * a1 * t2 >= k * t1 * t2) by (nonlinear_arith)
            requires
                18 * a1 >= k * t1,
                t2 > 0,
        ;
        assert(18 * a2 * t1 >= 18 * a1 * t2) by (nonlinear_arith)
            requires
                a1 * t2 <= a2 * t1,
        ;
        assert(18 * a2 >= k * t2) by (nonlinear_arith)
            requires
                18 * a2 * t1 >= k * t1 * t2,
                t1 > 0,
        ;
    }
}

/// With no recorded orders the tier is `Rare`, whatever the appearance count.
pub proof fn lemma_tier_no_orders(a: int)
    ensures
        tier_of(a, 0) == FrequencyTier::Rare,
{
}

} // verus!
