use vstd::prelude::*;

use crate::collection::{has_ingredient_data, RecipeCollection};
use crate::household::{at_tier, FamilyMember, HouseholdModel};
use crate::recipe::Recipe;
use crate::text::{decimal_of, u32_text, usize_text};
use crate::types::FrequencyTier;

verus! {

/// A family member as shown in the context: the name, with the age when known.
pub open spec fn member_text(m: FamilyMember) -> Seq<char> {
    match m.age {
        Some(a) => m.name@ + " (age "@ + decimal_of(a as nat) + ")"@,
        None => m.name@,
    }
}

/// Family members joined with `", "`.
pub open spec fn members_text(ms: Seq<FamilyMember>) -> Seq<char>
    decreases ms.len(),
{
    if ms.len() == 0 {
        Seq::empty()
    } else if ms.len() == 1 {
        member_text(ms[0])
    } else {
        members_text(ms.drop_last()) + ", "@ + member_text(ms.last())
    }
}

/// Count one more recipe with protein `p`.
pub open spec fn count_one(t: Seq<(Seq<char>, nat)>, p: Seq<char>) -> Seq<(Seq<char>, nat)> {
    if exists|k: int| 0 <= k < t.len() && #[trigger] t[k].0 == p {
        let k = choose|k: int| 0 <= k < t.len() && #[trigger] t[k].0 == p;
        t.update(k, (p, t[k].1 + 1))
    } else {
        t.push((p, 1nat))
    }
}

/// How many recipes name each primary protein, proteins in order of first appearance.
pub open spec fn protein_tally(rs: Seq<Recipe>) -> Seq<(Seq<char>, nat)>
    decreases rs.len(),
{
    if rs.len() == 0 {
        Seq::empty()
    } else {
        let prev = protein_tally(rs.drop_last());
        match rs.last().primary_protein {
            Some(p) => count_one(prev, p@),
            None => prev,
        }
    }
}

/// Position of the first entry with the largest count.
pub open spec fn max_at(t: Seq<(Seq<char>, nat)>) -> int
    decreases t.len(),
{
    if t.len() <= 1 {
        0
    } else {
        let i = max_at(t.drop_last());
        if t.last().1 > t[i].1 {
            t.len() - 1
        } else {
            i
        }
    }
}

/// The `k` entries with the largest counts, largest first; the earlier
/// entry first on equal counts.
pub open spec fn top(t: Seq<(Seq<char>, nat)>, k: nat) -> Seq<(Seq<char>, nat)>
    decreases k,
{
    if k == 0 || t.len() == 0 {
        Seq::empty()
    } else {
        let i = max_at(t);
        seq![t[i]] + top(t.remove(i), (k - 1) as nat)
    }
}

/// Counted proteins as `name (count)`, joined with `", "`.
pub open spec fn counts_text(t: Seq<(Seq<char>, nat)>) -> Seq<char>
    decreases t.len(),
{
    if t.len() == 0 {
        Seq::empty()
    } else if t.len() == 1 {
        t[0].0 + " ("@ + decimal_of(t[0].1) + ")"@
    } else {
        counts_text(t.drop_last()) + ", "@ + t.last().0 + " ("@ + decimal_of(t.last().1) + ")"@
    }
}

/// The summary of the household and the recipe collection handed to a chat
/// assistant.
pub open spec fn context_text(h: HouseholdModel, rs: Seq<Recipe>, data_dir: Seq<char>) -> Seq<char> {
    let tops = top(protein_tally(rs), 5);
    "## Household Context\n\nFamily: "@ + members_text(h.family.members@) + "\n"@ + "\nGiant: "@
        + decimal_of(h.giant_recurring@.len()) + " recurring items ("@ + decimal_of(
        h.giant_recurring@.filter(at_tier(FrequencyTier::EveryOrder)).len(),
    ) + " staples/every-order)\n"@ + (if h.amazon_recurring@.len() > 0 {
        "Amazon: "@ + decimal_of(h.amazon_recurring@.len()) + " recurring items\n"@
    } else {
        Seq::empty()
    }) + "\nRecipes: "@ + decimal_of(rs.len()) + " total ("@ + decimal_of(
        rs.filter(has_ingredient_data()).len(),
    ) + " with ingredients)\n"@ + (if tops.len() > 0 {
        "Top proteins: "@ + counts_text(tops) + "\n"@
    } else {
        Seq::empty()
    }) + "\nData directory: "@ + data_dir + "\n"@
        + "Key files: household-model.yaml, recipe-links.json, recipe-scoring-config.yaml\n"@
}

/// The counts as values.
pub open spec fn tally_view(t: Seq<(String, usize)>) -> Seq<(Seq<char>, nat)> {
    t.map_values(|e: (String, usize)| (e.0@, e.1 as nat))
}

/// Count the recipes by primary protein.
fn count_proteins(rs: &[Recipe]) -> (r: Vec<(String, usize)>)
    ensures
        tally_view(r@) == protein_tally(rs@),
{
    let mut t: Vec<(String, usize)> = Vec::new();
    let mut i: usize = 0;
    while i < rs.len()
        invariant
            i <= rs@.len(),
            tally_view(t@) == protein_tally(rs@.take(i as int)),
            forall|k: int| 0 <= k < t@.len() ==> #[trigger] t@[k].1 <= i,
            forall|a: int, b: int| 0 <= a < t@.len() && 0 <= b < t@.len() && a != b ==> #[trigger] t@[a].0@ != #[trigger] t@[b].0@,
        decreases rs@.len() - i,
    {
        assert(rs@.take(i + 1).drop_last() == rs@.take(i as int));
        assert(rs@.take(i + 1).last() == rs@[i as int]);
        if let Some(p) = &rs[i].primary_protein {
            let ghost tv = tally_view(t@);
            let mut k: usize = 0;
            while k < t.len() && t[k].0 != *p
                invariant
                    k <= t@.len(),
                    forall|q: int| 0 <= q < k ==> t@[q].0@ != p@,
                decreases t@.len() - k,
            {
                k = k + 1;
            }
            if k < t.len() {
                assert(forall|q: int| 0 <= q < tv.len() && q != k ==> #[trigger] tv[q].0 != p@) by {
                    assert forall|q: int| 0 <= q < tv.len() && q != k implies #[trigger] tv[q].0 != p@ by {
                        assert(tv[q].0 == t@[q].0@);
                    }
                }
                let ghost before = t@;
                let (name, n) = t.remove(k);
                t.insert(k, (name, n + 1));
                proof {
                    assert(tv[k as int].0 == p@);
                    let j = choose|j: int| 0 <= j < tv.len() && #[trigger] tv[j].0 == p@;
                    assert(j == k);
                    assert(t@ =~= before.update(k as int, (before[k as int].0, (before[k as int].1 + 1) as usize)));
                    assert(tally_view(t@) =~= tv.update(k as int, (p@, tv[k as int].1 + 1)));
                }
            } else {
                t.push((p.clone(), 1));
                proof {
                    assert forall|j: int| 0 <= j < tv.len() implies #[trigger] tv[j].0 != p@ by {
                        assert(tv[j].0 == t@[j].0@);
                    }
                    assert(tally_view(t@) =~= tv.push((p@, 1nat)));
                }
            }
        }
        i = i + 1;
    }
    assert(rs@.take(rs@.len() as int) == rs@);
    t
}

proof fn lemma_max_at_bound(t: Seq<(Seq<char>, nat)>)
    ensures
        t.len() > 0 ==> 0 <= max_at(t) < t.len(),
    decreases t.len(),
{
    if t.len() > 1 {
        lemma_max_at_bound(t.drop_last());
    }
}

/// Position of the first entry with the largest count.
fn find_max(t: &Vec<(String, usize)>) -> (r: usize)
    requires
        t@.len() > 0,
    ensures
        r as int == max_at(tally_view(t@)),
        r < t@.len(),
{
    let ghost tv = tally_view(t@);
    let mut best: usize = 0;
    let mut j: usize = 1;
    assert(tv.take(1).len() == 1);
    while j < t.len()
        invariant
            1 <= j <= t@.len(),
            tv == tally_view(t@),
            best < j,
            best as int == max_at(tv.take(j as int)),
        decreases t@.len() - j,
    {
        assert(tv.take(j + 1).drop_last() == tv.take(j as int));
        assert(tv.take(j as int)[best as int] == tv[best as int]);
        if t[j].1 > t[best].1 {
            best = j;
        }
        j = j + 1;
    }
    assert(tv.take(t@.len() as int) == tv);
    best
}

/// The `k` largest counts, largest first, the earlier entry first on a tie.
fn top_counts(t: Vec<(String, usize)>, k: usize) -> (r: Vec<(String, usize)>)
    ensures
        tally_view(r@) == top(tally_view(t@), k as nat),
{
    let ghost full = top(tally_view(t@), k as nat);
    let mut rest = t;
    let mut r: Vec<(String, usize)> = Vec::new();
    let mut j: usize = 0;
    while j < k && rest.len() > 0
        invariant
            j <= k,
            tally_view(r@) + top(tally_view(rest@), (k - j) as nat) == full,
        decreases k - j,
    {
        let i = find_max(&rest);
        let ghost rv = tally_view(rest@);
        let ghost before = tally_view(r@);
        proof {
            lemma_max_at_bound(rv);
        }
        let e = rest.remove(i);
        r.push(e);
        proof {
            assert(tally_view(rest@) =~= rv.remove(i as int));
            assert(tally_view(r@) =~= before.push(rv[i as int]));
            assert(top(rv, (k - j) as nat) == seq![rv[i as int]] + top(rv.remove(i as int), (k - j - 1) as nat));
            assert(before.push(rv[i as int]) + top(rv.remove(i as int), (k - j - 1) as nat) =~= before + (seq![rv[i as int]] + top(rv.remove(i as int), (k - j - 1) as nat)));
        }
        j = j + 1;
    }
    assert(top(tally_view(rest@), (k - j) as nat) =~= Seq::<(Seq<char>, nat)>::empty());
    assert(tally_view(r@) + Seq::<(Seq<char>, nat)>::empty() =~= tally_view(r@));
    r
}

/// The `k` most common primary proteins with their recipe counts, most
/// common first; on equal counts the protein seen first comes first.
pub fn top_proteins(collection: &RecipeCollection, k: usize) -> (r: Vec<(String, usize)>)
    ensures
        tally_view(r@) == top(protein_tally(collection@), k as nat),
{
    top_counts(count_proteins(collection.recipes()), k)
}

/// Append `name (count)` entries joined with `", "`.
fn append_counts(out: &mut String, t: &Vec<(String, usize)>)
    ensures
        final(out)@ == old(out)@ + counts_text(tally_view(t@)),
{
    proof {
        reveal_strlit(", ");
        reveal_strlit(" (");
        reveal_strlit(")");
    }
    let ghost start = out@;
    let ghost tv = tally_view(t@);
    let mut k: usize = 0;
    while k < t.len()
        invariant
            k <= t@.len(),
            tv == tally_view(t@),
            out@ == start + counts_text(tv.take(k as int)),
        decreases t@.len() - k,
    {
        assert(tv.take(k + 1).drop_last() =~= tv.take(k as int));
        assert(tv.take(k + 1).last() == tv[k as int]);
        assert(k == 0 ==> tv.take(k + 1)[0] == tv[k as int]);
        if k > 0 {
            out.append(", ");
        }
        out.append(t[k].0.as_str());
        out.append(" (");
        out.append(usize_text(t[k].1).as_str());
        out.append(")");
        k = k + 1;
    }
    assert(tv.take(t@.len() as int) =~= tv);
}

/// Append the family members joined with `", "`.
fn append_members(out: &mut String, ms: &Vec<FamilyMember>)
    ensures
        final(out)@ == old(out)@ + members_text(ms@),
{
    proof {
        reveal_strlit(", ");
        reveal_strlit(" (age ");
        reveal_strlit(")");
    }
    let ghost start = out@;
    let mut k: usize = 0;
    while k < ms.len()
        invariant
            k <= ms@.len(),
            out@ == start + members_text(ms@.take(k as int)),
        decreases ms@.len() - k,
    {
        assert(ms@.take(k + 1).drop_last() =~= ms@.take(k as int));
        assert(ms@.take(k + 1).last() == ms@[k as int]);
        assert(k == 0 ==> ms@.take(k + 1)[0] == ms@[k as int]);
        if k > 0 {
            out.append(", ");
        }
        out.append(ms[k].name.as_str());
        if let Some(a) = ms[k].age {
            out.append(" (age ");
            out.append(u32_text(a as u32).as_str());
            out.append(")");
        }
        k = k + 1;
    }
    assert(ms@.take(ms@.len() as int) =~= ms@);
}

/// Build the household summary for a chat assistant: family, store item
/// counts, recipe counts, the five most common proteins, and the data directory.
pub fn household_context(household: &HouseholdModel, collection: &RecipeCollection, data_dir: &str) -> (r: String)
    ensures
        r@ == context_text(*household, collection@, data_dir@),
{
    proof {
        reveal_strlit("## Household Context\n\nFamily: ");
        reveal_strlit("\n");
        reveal_strlit("\nGiant: ");
        reveal_strlit(" recurring items (");
        reveal_strlit(" staples/every-order)\n");
        reveal_strlit("Amazon: ");
        reveal_strlit(" recurring items\n");
        reveal_strlit("\nRecipes: ");
        reveal_strlit(" total (");
        reveal_strlit(" with ingredients)\n");
        reveal_strlit("Top proteins: ");
        reveal_strlit("\nData directory: ");
        reveal_strlit("Key files: household-model.yaml, recipe-links.json, recipe-scoring-config.yaml\n");
    }
    let mut ctx = "## Household Context\n\nFamily: ".to_owned();
    append_members(&mut ctx, &household.family.members);
    ctx.append("\n");
    let staples = household.staples();
    ctx.append("\nGiant: ");
    ctx.append(usize_text(household.giant_recurring.len()).as_str());
    ctx.append(" recurring items (");
    assert(crate::household::items_of(staples@).len() == staples@.len());
    ctx.append(usize_text(staples.len()).as_str());
    ctx.append(" staples/every-order)\n");
    if household.amazon_recurring.len() > 0 {
        ctx.append("Amazon: ");
        ctx.append(usize_text(household.amazon_recurring.len()).as_str());
        ctx.append(" recurring items\n");
    }
    let with = collection.with_ingredients();
    assert(crate::collection::recipes_of(with@).len() == with@.len());
    ctx.append("\nRecipes: ");
    ctx.append(usize_text(collection.len()).as_str());
    ctx.append(" total (");
    ctx.append(usize_text(with.len()).as_str());
    ctx.append(" with ingredients)\n");
    let tops = top_proteins(collection, 5);
    if tops.len() > 0 {
        ctx.append("Top proteins: ");
        append_counts(&mut ctx, &tops);
        ctx.append("\n");
    }
    ctx.append("\nData directory: ");
    ctx.append(data_dir);
    ctx.append("\n");
    ctx.append("Key files: household-model.yaml, recipe-links.json, recipe-scoring-config.yaml\n");
    ctx
}

} // verus!
