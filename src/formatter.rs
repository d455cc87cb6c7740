use vstd::prelude::*;

use crate::consolidator::{
    lemma_text_lt_irreflexive, lemma_text_lt_total, lemma_text_lt_transitive,
    text_less, text_lt,
};
use crate::item::{category_view, items_view, ItemSource, ItemView, ShoppingItem};
use crate::text::{decimal_of, u32_text, upper_of, uppercase, usize_text};
use crate::types::Category;

verus! {

/// A finalized shopping list ready for output.
#[derive(Debug, Clone)]
pub struct ShoppingList {
    pub items: Vec<ShoppingItem>,
}

/// The human-readable name of a category.
pub open spec fn display_of(c: (int, Seq<char>)) -> Seq<char> {
    if c.0 == 0 {
        "Produce"@
    } else if c.0 == 1 {
        "Dairy"@
    } else if c.0 == 2 {
        "Meat"@
    } else if c.0 == 3 {
        "Deli"@
    } else if c.0 == 4 {
        "Frozen"@
    } else if c.0 == 5 {
        "Canned"@
    } else if c.0 == 6 {
        "Bread"@
    } else if c.0 == 7 {
        "Pasta"@
    } else if c.0 == 8 {
        "Beverages"@
    } else if c.0 == 9 {
        "Snacks"@
    } else if c.0 == 10 {
        "Condiments"@
    } else if c.0 == 11 {
        "Baking"@
    } else if c.0 == 12 {
        "Breakfast"@
    } else if c.0 == 13 {
        "Baby"@
    } else if c.0 == 14 {
        "Household"@
    } else if c.0 == 15 {
        "Health"@
    } else if c.0 == 16 {
        "Personal"@
    } else if c.0 == 17 {
        "Pet"@
    } else {
        c.1
    }
}

/// Human-readable category name.
pub fn category_display(category: &Category) -> (r: String)
    ensures
        r@ == display_of(category_view(*category)),
{
    proof {
        reveal_strlit("Produce");
        reveal_strlit("Dairy");
        reveal_strlit("Meat");
        reveal_strlit("Deli");
        reveal_strlit("Frozen");
        reveal_strlit("Canned");
        reveal_strlit("Bread");
        reveal_strlit("Pasta");
        reveal_strlit("Beverages");
        reveal_strlit("Snacks");
        reveal_strlit("Condiments");
        reveal_strlit("Baking");
        reveal_strlit("Breakfast");
        reveal_strlit("Baby");
        reveal_strlit("Household");
        reveal_strlit("Health");
        reveal_strlit("Personal");
        reveal_strlit("Pet");
    }
    match category {
        Category::Produce => "Produce".to_owned(),
        Category::Dairy => "Dairy".to_owned(),
        Category::Meat => "Meat".to_owned(),
        Category::Deli => "Deli".to_owned(),
        Category::Frozen => "Frozen".to_owned(),
        Category::Canned => "Canned".to_owned(),
        Category::Bread => "Bread".to_owned(),
        Category::Pasta => "Pasta".to_owned(),
        Category::Beverages => "Beverages".to_owned(),
        Category::Snacks => "Snacks".to_owned(),
        Category::Condiments => "Condiments".to_owned(),
        Category::Baking => "Baking".to_owned(),
        Category::Breakfast => "Breakfast".to_owned(),
        Category::Baby => "Baby".to_owned(),
        Category::Household => "Household".to_owned(),
        Category::Health => "Health".to_owned(),
        Category::Personal => "Personal".to_owned(),
        Category::Pet => "Pet".to_owned(),
        Category::Other(s) => s.clone(),
    }
}

/// The short label of a source.
pub open spec fn label_of_source(s: (int, Seq<char>)) -> Seq<char> {
    if s.0 == 0 {
        s.1
    } else if s.0 == 1 {
        "staple"@
    } else if s.0 == 2 {
        "requested"@
    } else {
        "frequency"@
    }
}

/// Short label for an item's source.
pub fn source_label(source: &ItemSource) -> (r: String)
    ensures
        r@ == label_of_source(crate::item::source_view(*source)),
{
    proof {
        reveal_strlit("staple");
        reveal_strlit("requested");
        reveal_strlit("frequency");
    }
    match source {
        ItemSource::Staple => "staple".to_owned(),
        ItemSource::Recipe(name) => name.clone(),
        ItemSource::UserRequest => "requested".to_owned(),
        ItemSource::FrequencyTrigger => "frequency".to_owned(),
    }
}

/// The items that a sequence of item references points to.
pub open spec fn refs_view(r: Seq<&ShoppingItem>) -> Seq<ItemView> {
    r.map_values(|i: &ShoppingItem| (*i)@)
}

/// The groups as values: each category name with its items.
pub open spec fn groups_view(g: Seq<(String, Vec<&ShoppingItem>)>) -> Seq<(Seq<char>, Seq<ItemView>)> {
    g.map_values(|e: (String, Vec<&ShoppingItem>)| (e.0@, refs_view(e.1@)))
}

/// The item belongs under category name `name`.
pub open spec fn in_group(name: Seq<char>) -> spec_fn(ItemView) -> bool {
    |v: ItemView| display_of(v.category) == name
}

/// `g` groups `items` by category name: names strictly ascending, each
/// group holding, in list order, exactly the items under its name, and
/// every item under some group.
pub open spec fn groups_items(g: Seq<(Seq<char>, Seq<ItemView>)>, items: Seq<ItemView>) -> bool {
    &&& forall|a: int, b: int| 0 <= a < b < g.len() ==> text_lt(#[trigger] g[a].0, #[trigger] g[b].0)
    &&& forall|a: int| 0 <= a < g.len() ==> #[trigger] g[a].1 == items.filter(in_group(g[a].0)) && g[a].1.len() > 0
    &&& forall|i: int| 0 <= i < items.len() ==> has_group(g, display_of(#[trigger] items[i].category))
}

/// Some group carries the name `name`.
pub open spec fn has_group(g: Seq<(Seq<char>, Seq<ItemView>)>, name: Seq<char>) -> bool {
    exists|a: int| 0 <= a < g.len() && #[trigger] g[a].0 == name
}

/// One checkbox line of the text rendering.
pub open spec fn item_line(v: ItemView) -> Seq<char> {
    "- [ ] "@ + v.name + " ("@ + decimal_of(v.quantity as nat) + ") ["@ + label_of_source(v.source) + "]\n"@
}

/// The checkbox lines of items, in order.
pub open spec fn item_lines(vs: Seq<ItemView>) -> Seq<char>
    decreases vs.len(),
{
    if vs.len() == 0 {
        Seq::empty()
    } else {
        item_lines(vs.drop_last()) + item_line(vs.last())
    }
}

/// The text rendering of groups: a `## ` header per category, its lines,
/// then a blank line.
pub open spec fn text_of(gs: Seq<(Seq<char>, Seq<ItemView>)>) -> Seq<char>
    decreases gs.len(),
{
    if gs.len() == 0 {
        Seq::empty()
    } else {
        text_of(gs.drop_last()) + "## "@ + gs.last().0 + "\n"@ + item_lines(gs.last().1) + "\n"@
    }
}

/// An item in the compact rendering: its name, with ` x<qty>` when more than one.
pub open spec fn compact_name(v: ItemView) -> Seq<char> {
    if v.quantity > 1 {
        v.name + " x"@ + decimal_of(v.quantity as nat)
    } else {
        v.name
    }
}

/// Compact names joined with `", "`.
pub open spec fn joined_names(vs: Seq<ItemView>) -> Seq<char>
    decreases vs.len(),
{
    if vs.len() == 0 {
        Seq::empty()
    } else if vs.len() == 1 {
        compact_name(vs[0])
    } else {
        joined_names(vs.drop_last()) + ", "@ + compact_name(vs.last())
    }
}

/// The compact lines of groups: the upper-cased category name, `: `, the names.
pub open spec fn compact_lines(gs: Seq<(Seq<char>, Seq<ItemView>)>) -> Seq<char>
    decreases gs.len(),
{
    if gs.len() == 0 {
        Seq::empty()
    } else {
        compact_lines(gs.drop_last()) + upper_of(gs.last().0) + ": "@ + joined_names(gs.last().1) + "\n"@
    }
}

/// The checkbox lines of `list`.
fn render_items(out: &mut String, list: &Vec<&ShoppingItem>)
    ensures
        final(out)@ == old(out)@ + item_lines(refs_view(list@)),
{
    proof {
        reveal_strlit("- [ ] ");
        reveal_strlit(" (");
        reveal_strlit(") [");
        reveal_strlit("]\n");
    }
    let ghost start = out@;
    let mut k: usize = 0;
    while k < list.len()
        invariant
            k <= list@.len(),
            out@ == start + item_lines(refs_view(list@).take(k as int)),
        decreases list@.len() - k,
    {
        let it = list[k];
        assert(refs_view(list@).take(k + 1).drop_last() =~= refs_view(list@).take(k as int));
        assert(refs_view(list@).take(k + 1).last() == it@);
        out.append("- [ ] ");
        out.append(it.name.as_str());
        out.append(" (");
        out.append(u32_text(it.quantity).as_str());
        out.append(") [");
        out.append(source_label(&it.source).as_str());
        out.append("]\n");
        k = k + 1;
    }
    assert(refs_view(list@).take(list@.len() as int) =~= refs_view(list@));
}

/// The compact names of `list`, joined with `", "`.
fn render_names(out: &mut String, list: &Vec<&ShoppingItem>)
    ensures
        final(out)@ == old(out)@ + joined_names(refs_view(list@)),
{
    proof {
        reveal_strlit(", ");
        reveal_strlit(" x");
    }
    let ghost start = out@;
    let mut k: usize = 0;
    while k < list.len()
        invariant
            k <= list@.len(),
            out@ == start + joined_names(refs_view(list@).take(k as int)),
        decreases list@.len() - k,
    {
        let it = list[k];
        assert(refs_view(list@).take(k + 1).drop_last() =~= refs_view(list@).take(k as int));
        assert(refs_view(list@).take(k + 1).last() == it@);
        assert(k == 0 ==> refs_view(list@).take(k + 1)[0] == it@);
        if k > 0 {
            out.append(", ");
        }
        out.append(it.name.as_str());
        if it.quantity > 1 {
            out.append(" x");
            out.append(u32_text(it.quantity).as_str());
        }
        k = k + 1;
    }
    assert(refs_view(list@).take(list@.len() as int) =~= refs_view(list@));
}

impl ShoppingList {
    /// A shopping list of the given items.
    pub fn new(items: Vec<ShoppingItem>) -> (r: Self)
        ensures
            r.items@ == items@,
    {
        ShoppingList { items }
    }

    /// Group the items by category name, names in ascending order, each
    /// group keeping the list's order.
    pub fn by_category(&self) -> (r: Vec<(String, Vec<&ShoppingItem>)>)
        ensures
            groups_items(groups_view(r@), items_view(self.items@)),
    {
        let ghost all = items_view(self.items@);
        let mut groups: Vec<(String, Vec<&ShoppingItem>)> = Vec::new();
        let mut i: usize = 0;
        while i < self.items.len()
            invariant
                i <= self.items@.len(),
                all == items_view(self.items@),
                groups_items(groups_view(groups@), all.take(i as int)),
            decreases self.items@.len() - i,
        {
            let it = &self.items[i];
            let key = category_display(&it.category);
            let ghost g0 = groups_view(groups@);
            let ghost pre = all.take(i as int);
            let ghost x = it@;
            assert(all.take(i + 1) == pre.push(x));
            let mut p: usize = 0;
            while p < groups.len() && text_less(groups[p].0.as_str(), key.as_str())
                invariant
                    p <= groups@.len(),
                    g0 == groups_view(groups@),
                    forall|q: int| 0 <= q < p ==> text_lt(#[trigger] g0[q].0, key@),
                decreases groups@.len() - p,
            {
                p = p + 1;
            }
            if p < groups.len() && groups[p].0 == key {
                let (name, mut list) = groups.remove(p);
                let ghost old_list = refs_view(list@);
                list.push(it);
                assert(refs_view(list@) =~= old_list.push(x));
                groups.insert(p, (name, list));
                proof {
                    let g1 = groups_view(groups@);
                    assert(g1 =~= g0.update(p as int, (key@, old_list.push(x))));
                    assert(g0[p as int].0 == key@);
                    assert(old_list == g0[p as int].1);
                    assert(in_group(key@)(x));
                    assert forall|a: int, b: int| 0 <= a < b < g1.len() implies text_lt(#[trigger] g1[a].0, #[trigger] g1[b].0) by {
                        assert(g1[a].0 == g0[a].0);
                        assert(g1[b].0 == g0[b].0);
                    }
                    assert forall|a: int| 0 <= a < g1.len() implies #[trigger] g1[a].1 == pre.push(x).filter(in_group(g1[a].0)) && g1[a].1.len() > 0 by {
                        pre.lemma_filter_push(x, in_group(g1[a].0));
                        if a != p {
                            assert(g1[a] == g0[a]);
                            lemma_text_lt_irreflexive(key@);
                            if a < p {
                                assert(text_lt(g0[a].0, g0[p as int].0));
                            } else {
                                assert(text_lt(g0[p as int].0, g0[a].0));
                            }
                            lemma_text_lt_irreflexive(g0[a].0);
                            assert(g0[a].0 != key@);
                            assert(!in_group(g0[a].0)(x));
                        }
                    }
                    assert forall|j: int| 0 <= j < pre.push(x).len() implies has_group(g1, display_of(#[trigger] pre.push(x)[j].category)) by {
                        if j < pre.len() {
                            assert(pre.push(x)[j] == pre[j]);
                            assert(has_group(g0, display_of(pre[j].category)));
                            let a = choose|a: int| 0 <= a < g0.len() && #[trigger] g0[a].0 == display_of(pre[j].category);
                            assert(g1[a].0 == g0[a].0);
                        } else {
                            assert(g1[p as int].0 == display_of(pre.push(x)[j].category));
                        }
                    }
                    assert(groups_items(g1, pre.push(x)));
                }
            } else {
                let ghost cur = groups@;
                let mut list: Vec<&ShoppingItem> = Vec::new();
                list.push(it);
                assert(refs_view(list@) =~= seq![x]);
                groups.insert(p, (key, list));
                proof {
                    let g1 = groups_view(groups@);
                    assert(g1 =~= g0.insert(p as int, (key@, seq![x])));
                    // the new name differs from every old one and sits in order
                    assert forall|q: int| p <= q < g0.len() implies text_lt(key@, #[trigger] g0[q].0) by {
                        lemma_text_lt_total(key@, g0[p as int].0);
                        if q > p {
                            lemma_text_lt_transitive(key@, g0[p as int].0, g0[q].0);
                        }
                    }
                    assert forall|q: int| 0 <= q < g0.len() implies #[trigger] g0[q].0 != key@ by {
                        lemma_text_lt_irreflexive(key@);
                    }
                    assert(pre.filter(in_group(key@)).len() == 0) by {
                        if pre.filter(in_group(key@)).len() > 0 {
                            let f = pre.filter(in_group(key@))[0];
                            pre.lemma_filter_contains_rev(in_group(key@), f);
                            pre.filter_lemma(in_group(key@));
                            assert(in_group(key@)(f));
                            let j = choose|j: int| 0 <= j < pre.len() && pre[j] == f;
                            assert(has_group(g0, display_of(pre[j].category)));
                            let a = choose|a: int| 0 <= a < g0.len() && #[trigger] g0[a].0 == display_of(pre[j].category);
                        }
                    }
                    assert forall|a: int, b: int| 0 <= a < b < g1.len() implies text_lt(#[trigger] g1[a].0, #[trigger] g1[b].0) by {
                        if a < p && b == p {
                        } else if a < p && b > p {
                            assert(g1[b].0 == g0[b - 1].0);
                        } else if a == p {
                            assert(g1[b].0 == g0[b - 1].0);
                        } else if a > p {
                            assert(g1[a].0 == g0[a - 1].0);
                            assert(g1[b].0 == g0[b - 1].0);
                        }
                    }
                    assert forall|a: int| 0 <= a < g1.len() implies #[trigger] g1[a].1 == pre.push(x).filter(in_group(g1[a].0)) && g1[a].1.len() > 0 by {
                        pre.lemma_filter_push(x, in_group(g1[a].0));
                        if a == p {
                            assert(pre.filter(in_group(key@)) =~= Seq::<ItemView>::empty());
                            assert(seq![x] =~= Seq::<ItemView>::empty().push(x));
                        } else if a < p {
                            assert(g1[a] == g0[a]);
                        } else {
                            assert(g1[a] == g0[a - 1]);
                        }
                    }
                    assert forall|j: int| 0 <= j < pre.push(x).len() implies has_group(g1, display_of(#[trigger] pre.push(x)[j].category)) by {
                        if j < pre.len() {
                            assert(pre.push(x)[j] == pre[j]);
                            assert(has_group(g0, display_of(pre[j].category)));
                            let a = choose|a: int| 0 <= a < g0.len() && #[trigger] g0[a].0 == display_of(pre[j].category);
                            if a < p {
                                assert(g1[a].0 == g0[a].0);
                            } else {
                                assert(g1[a + 1].0 == g0[a].0);
                            }
                        } else {
                            assert(g1[p as int].0 == display_of(pre.push(x)[j].category));
                        }
                    }
                    assert(groups_items(g1, pre.push(x)));
                }
            }
            i = i + 1;
        }
        assert(all.take(self.items@.len() as int) == all);
        groups
    }

    /// Render as text: a `## <Category>` header per category, then a
    /// `- [ ] <name> (<qty>) [<source>]` line per item, then a blank line.
    pub fn format_text(&self) -> (r: String)
        ensures
            exists|g: Seq<(Seq<char>, Seq<ItemView>)>| groups_items(g, items_view(self.items@)) && r@ == text_of(g),
    {
        proof {
            reveal_strlit("## ");
            reveal_strlit("\n");
        }
        let groups = self.by_category();
        let ghost gv = groups_view(groups@);
        let mut out = String::new();
        let mut k: usize = 0;
        while k < groups.len()
            invariant
                k <= groups@.len(),
                gv == groups_view(groups@),
                out@ == text_of(gv.take(k as int)),
            decreases groups@.len() - k,
        {
            assert(gv.take(k + 1).drop_last() =~= gv.take(k as int));
            assert(gv.take(k + 1).last() == gv[k as int]);
            out.append("## ");
            out.append(groups[k].0.as_str());
            out.append("\n");
            render_items(&mut out, &groups[k].1);
            out.append("\n");
            k = k + 1;
        }
        assert(gv.take(groups@.len() as int) =~= gv);
        out
    }

    /// Render compactly: a `Shopping List (<n> items)` header, then one line
    /// per category: its name in upper case, `: `, and the item names joined
    /// with `, `, each with ` x<qty>` when more than one.
    pub fn format_compact(&self) -> (r: String)
        ensures
            exists|g: Seq<(Seq<char>, Seq<ItemView>)>| groups_items(g, items_view(self.items@)) && r@
                == "Shopping List ("@ + decimal_of(self.items@.len()) + " items)\n"@ + compact_lines(g),
    {
        proof {
            reveal_strlit("Shopping List (");
            reveal_strlit(" items)\n");
            reveal_strlit(": ");
            reveal_strlit("\n");
        }
        let mut out = "Shopping List (".to_owned();
        out.append(usize_text(self.items.len()).as_str());
        out.append(" items)\n");
        let ghost head = out@;
        let groups = self.by_category();
        let ghost gv = groups_view(groups@);
        let mut k: usize = 0;
        while k < groups.len()
            invariant
                k <= groups@.len(),
                gv == groups_view(groups@),
                out@ == head + compact_lines(gv.take(k as int)),
            decreases groups@.len() - k,
        {
            assert(gv.take(k + 1).drop_last() =~= gv.take(k as int));
            assert(gv.take(k + 1).last() == gv[k as int]);
            out.append(uppercase(groups[k].0.as_str()).as_str());
            out.append(": ");
            render_names(&mut out, &groups[k].1);
            out.append("\n");
            k = k + 1;
        }
        assert(gv.take(groups@.len() as int) =~= gv);
        out
    }

    /// Total number of items.
    pub fn len(&self) -> (r: usize)
        ensures
            r == self.items@.len(),
    {
        self.items.len()
    }

    /// Whether the list is empty.
    pub fn is_empty(&self) -> (r: bool)
        ensures
            r == (self.items@.len() == 0),
    {
        self.items.len() == 0
    }
}

} // verus!
