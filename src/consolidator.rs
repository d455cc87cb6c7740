use vstd::prelude::*;

use crate::item::{
    category_view, copy_category, copy_item, copy_source, copy_text, items_view, ItemSource,
    ItemView, ShoppingItem,
};
use crate::text::{debug_of, debug_text, lower_of, lowercase};
use crate::types::Category;

verus! {

broadcast use vstd::seq_lib::group_to_multiset_ensures;

// ── Merging ─────────────────────────────────────────────────────

/// The merge key of an item: its name, lowercased.
pub open spec fn key_of(v: ItemView) -> Seq<char> {
    lower_of(v.name)
}

/// No two items share a merge key.
pub open spec fn keys_distinct(s: Seq<ItemView>) -> bool {
    forall|a: int, b: int| 0 <= a < s.len() && 0 <= b < s.len() && a != b ==> key_of(#[trigger] s[a]) != key_of(#[trigger] s[b])
}

/// Notes joined in encounter order with `"; "`.
pub open spec fn join_notes(a: Option<Seq<char>>, b: Option<Seq<char>>) -> Option<Seq<char>> {
    match (a, b) {
        (_, None) => a,
        (None, Some(n)) => Some(n),
        (Some(x), Some(y)) => Some(x + "; "@ + y),
    }
}

/// Merge `it` into an existing item with the same key: the existing name and
/// category stay, the larger quantity wins, `Staple` wins over any source,
/// and notes are joined.
pub open spec fn combine(e: ItemView, it: ItemView) -> ItemView {
    ItemView {
        name: e.name,
        quantity: if it.quantity > e.quantity { it.quantity } else { e.quantity },
        category: e.category,
        source: if it.source == (1int, Seq::<char>::empty()) { it.source } else { e.source },
        note: join_notes(e.note, it.note),
    }
}

/// Merge one item into the merged list so far.
pub open spec fn merge_one(acc: Seq<ItemView>, it: ItemView) -> Seq<ItemView> {
    if exists|k: int| 0 <= k < acc.len() && key_of(#[trigger] acc[k]) == key_of(it) {
        let k = choose|k: int| 0 <= k < acc.len() && key_of(#[trigger] acc[k]) == key_of(it);
        acc.update(k, combine(acc[k], it))
    } else {
        acc.push(it)
    }
}

/// One item per merge key, in order of first appearance, merged.
pub open spec fn merged(items: Seq<ItemView>) -> Seq<ItemView>
    decreases items.len(),
{
    if items.len() == 0 {
        Seq::empty()
    } else {
        merge_one(merged(items.drop_last()), items.last())
    }
}

/// Merge one item into the existing item `e` with the same key.
fn combine_items(e: &ShoppingItem, it: &ShoppingItem) -> (r: ShoppingItem)
    ensures
        r@ == combine(e@, it@),
{
    proof {
        reveal_strlit("; ");
    }
    let note = match (&e.note, &it.note) {
        (_, None) => copy_text(&e.note),
        (None, Some(n)) => Some(n.clone()),
        (Some(a), Some(b)) => {
            let mut s = a.clone();
            s.append("; ");
            s.append(b.as_str());
            Some(s)
        },
    };
    let source = match &it.source {
        ItemSource::Staple => ItemSource::Staple,
        _ => copy_source(&e.source),
    };
    ShoppingItem {
        name: e.name.clone(),
        quantity: if it.quantity > e.quantity { it.quantity } else { e.quantity },
        category: copy_category(&e.category),
        source,
        note,
    }
}

/// Merge items with equal lowercased names, keeping the first-seen order.
fn merge_items(items: &Vec<ShoppingItem>) -> (r: Vec<ShoppingItem>)
    ensures
        items_view(r@) == merged(items_view(items@)),
        keys_distinct(items_view(r@)),
{
    let mut acc: Vec<ShoppingItem> = Vec::new();
    let mut keys: Vec<String> = Vec::new();
    let mut i: usize = 0;
    while i < items.len()
        invariant
            i <= items@.len(),
            keys@.len() == acc@.len(),
            forall|k: int| 0 <= k < acc@.len() ==> #[trigger] keys@[k]@ == key_of(acc@[k]@),
            items_view(acc@) == merged(items_view(items@).take(i as int)),
            keys_distinct(items_view(acc@)),
        decreases items@.len() - i,
    {
        let it = &items[i];
        let key = lowercase(it.name.as_str());
        let ghost acc_v = items_view(acc@);
        assert(items_view(items@).take(i + 1).drop_last() == items_view(items@).take(i as int));
        assert(items_view(items@).take(i + 1).last() == it@);
        let mut k: usize = 0;
        while k < keys.len() && keys[k] != key
            invariant
                k <= keys@.len(),
                keys@.len() == acc@.len(),
                forall|q: int| 0 <= q < k ==> keys@[q]@ != key@,
            decreases keys@.len() - k,
        {
            k = k + 1;
        }
        if k < keys.len() {
            let c = combine_items(&acc[k], it);
            proof {
                assert(key_of(acc_v[k as int]) == key_of(it@));
                let j = choose|j: int| 0 <= j < acc_v.len() && key_of(#[trigger] acc_v[j]) == key_of(it@);
                assert(j == k);
            }
            acc.set(k, c);
            assert(items_view(acc@) =~= acc_v.update(k as int, combine(acc_v[k as int], it@)));
        } else {
            proof {
                assert forall|j: int| 0 <= j < acc_v.len() implies key_of(#[trigger] acc_v[j]) != key_of(it@) by {
                    assert(keys@[j]@ == key_of(acc@[j]@));
                }
            }
            acc.push(copy_item(it));
            keys.push(key);
            assert(items_view(acc@) =~= acc_v.push(it@));
        }
        i = i + 1;
    }
    assert(items_view(items@).take(items@.len() as int) == items_view(items@));
    acc
}

// ── Ordering ────────────────────────────────────────────────────

/// Lexicographic order on character sequences, by character code (the order
/// of `String`'s comparison, since UTF-8 keeps code point order).
pub open spec fn text_lt(a: Seq<char>, b: Seq<char>) -> bool
    decreases a.len(),
{
    if a.len() == 0 {
        b.len() > 0
    } else if b.len() == 0 {
        false
    } else if a[0] != b[0] {
        a[0] < b[0]
    } else {
        text_lt(a.drop_first(), b.drop_first())
    }
}

/// The sort key of a category: its `Debug` text, that is the variant's name,
/// and `Other(` with the text's `Debug` form (quoted, escaped) and `)` for the
/// open variant.
pub open spec fn category_key(c: (int, Seq<char>)) -> Seq<char> {
    if c.0 == 0 {
        "Produce"@
    } else if c.0 == 1 {
        "Dairy"@
    } else if c.0 == 2 {
        "Meat"@
    } else if c.0 == 3 {
        "Deli"@
    } else if c.0 == 4 {
        "Frozen"@
    } else if c.0 == 5 {
        "Canned"@
    } else if c.0 == 6 {
        "Bread"@
    } else if c.0 == 7 {
        "Pasta"@
    } else if c.0 == 8 {
        "Beverages"@
    } else if c.0 == 9 {
        "Snacks"@
    } else if c.0 == 10 {
        "Condiments"@
    } else if c.0 == 11 {
        "Baking"@
    } else if c.0 == 12 {
        "Breakfast"@
    } else if c.0 == 13 {
        "Baby"@
    } else if c.0 == 14 {
        "Household"@
    } else if c.0 == 15 {
        "Health"@
    } else if c.0 == 16 {
        "Personal"@
    } else if c.0 == 17 {
        "Pet"@
    } else {
        "Other("@ + debug_of(c.1) + ")"@
    }
}

/// Items are ordered by category key, then by name.
pub open spec fn item_lt(x: ItemView, y: ItemView) -> bool {
    text_lt(category_key(x.category), category_key(y.category)) || (category_key(x.category)
        == category_key(y.category) && text_lt(x.name, y.name))
}

/// Every item comes strictly before the ones after it.
pub open spec fn sorted_items(s: Seq<ItemView>) -> bool {
    forall|i: int, j: int| 0 <= i < j < s.len() ==> item_lt(#[trigger] s[i], #[trigger] s[j])
}

pub(crate) proof fn lemma_text_lt_irreflexive(a: Seq<char>)
    ensures
        !text_lt(a, a),
    decreases a.len(),
{
    if a.len() > 0 {
        lemma_text_lt_irreflexive(a.drop_first());
    }
}

pub(crate) proof fn lemma_text_lt_transitive(a: Seq<char>, b: Seq<char>, c: Seq<char>)
    requires
        text_lt(a, b),
        text_lt(b, c),
    ensures
        text_lt(a, c),
    decreases a.len(),
{
    if a.len() > 0 && b.len() > 0 && c.len() > 0 && a[0] == b[0] && b[0] == c[0] {
        lemma_text_lt_transitive(a.drop_first(), b.drop_first(), c.drop_first());
    }
}

pub(crate) proof fn lemma_text_lt_total(a: Seq<char>, b: Seq<char>)
    requires
        a != b,
    ensures
        text_lt(a, b) || text_lt(b, a),
    decreases a.len(),
{
    if a.len() > 0 && b.len() > 0 && a[0] == b[0] {
        if a.drop_first() == b.drop_first() {
            assert(a =~= seq![a[0]] + a.drop_first());
            assert(b =~= seq![b[0]] + b.drop_first());
        }
        lemma_text_lt_total(a.drop_first(), b.drop_first());
    } else if a.len() == 0 && b.len() == 0 {
        assert(a =~= b);
    }
}

pub(crate) proof fn lemma_text_lt_asymmetric(a: Seq<char>, b: Seq<char>)
    requires
        text_lt(a, b),
    ensures
        !text_lt(b, a),
{
    if text_lt(b, a) {
        lemma_text_lt_transitive(a, b, a);
        lemma_text_lt_irreflexive(a);
    }
}

proof fn lemma_item_lt_transitive(x: ItemView, y: ItemView, z: ItemView)
    requires
        item_lt(x, y),
        item_lt(y, z),
    ensures
        item_lt(x, z),
{
    let (a, b, c) = (category_key(x.category), category_key(y.category), category_key(z.category));
    if text_lt(a, b) && text_lt(b, c) {
        lemma_text_lt_transitive(a, b, c);
    }
    lemma_text_lt_irreflexive(a);
    lemma_text_lt_irreflexive(b);
    if a == b && b == c {
        lemma_text_lt_transitive(x.name, y.name, z.name);
    }
}

proof fn lemma_item_lt_asymmetric(x: ItemView, y: ItemView)
    requires
        item_lt(x, y),
    ensures
        !item_lt(y, x),
{
    let (a, b) = (category_key(x.category), category_key(y.category));
    if text_lt(a, b) {
        lemma_text_lt_asymmetric(a, b);
        if a == b {
            lemma_text_lt_irreflexive(a);
        }
    } else {
        lemma_text_lt_asymmetric(x.name, y.name);
        lemma_text_lt_irreflexive(a);
    }
}

/// Items with different names are ordered one way or the other.
proof fn lemma_item_lt_total(x: ItemView, y: ItemView)
    requires
        x.name != y.name,
    ensures
        item_lt(x, y) || item_lt(y, x),
{
    let (a, b) = (category_key(x.category), category_key(y.category));
    if a != b {
        lemma_text_lt_total(a, b);
    } else {
        lemma_text_lt_total(x.name, y.name);
    }
}

/// Whether `a` comes before `b` in code point order.
pub(crate) fn text_less(a: &str, b: &str) -> (r: bool)
    ensures
        r == text_lt(a@, b@),
{
    let x = crate::text::chars_of(a);
    let y = crate::text::chars_of(b);
    let mut i: usize = 0;
    assert(x@.skip(0) == x@);
    assert(y@.skip(0) == y@);
    while i < x.len() && i < y.len() && x[i] == y[i]
        invariant
            i <= x@.len(),
            i <= y@.len(),
            text_lt(a@, b@) == text_lt(x@.skip(i as int), y@.skip(i as int)),
        decreases x@.len() - i,
    {
        assert(x@.skip(i as int).drop_first() == x@.skip(i + 1));
        assert(y@.skip(i as int).drop_first() == y@.skip(i + 1));
        i = i + 1;
    }
    assert(x@.skip(0) == x@);
    assert(y@.skip(0) == y@);
    if i == x.len() {
        i < y.len()
    } else if i == y.len() {
        false
    } else {
        x[i] < y[i]
    }
}

/// The sort key of a category.
pub fn category_sort_key(c: &Category) -> (r: String)
    ensures
        r@ == category_key(category_view(*c)),
{
    proof {
        reveal_strlit("Produce");
        reveal_strlit("Dairy");
        reveal_strlit("Meat");
        reveal_strlit("Deli");
        reveal_strlit("Frozen");
        reveal_strlit("Canned");
        reveal_strlit("Bread");
        reveal_strlit("Pasta");
        reveal_strlit("Beverages");
        reveal_strlit("Snacks");
        reveal_strlit("Condiments");
        reveal_strlit("Baking");
        reveal_strlit("Breakfast");
        reveal_strlit("Baby");
        reveal_strlit("Household");
        reveal_strlit("Health");
        reveal_strlit("Personal");
        reveal_strlit("Pet");
        reveal_strlit("Other(");
        reveal_strlit(")");
    }
    match c {
        Category::Produce => "Produce".to_owned(),
        Category::Dairy => "Dairy".to_owned(),
        Category::Meat => "Meat".to_owned(),
        Category::Deli => "Deli".to_owned(),
        Category::Frozen => "Frozen".to_owned(),
        Category::Canned => "Canned".to_owned(),
        Category::Bread => "Bread".to_owned(),
        Category::Pasta => "Pasta".to_owned(),
        Category::Beverages => "Beverages".to_owned(),
        Category::Snacks => "Snacks".to_owned(),
        Category::Condiments => "Condiments".to_owned(),
        Category::Baking => "Baking".to_owned(),
        Category::Breakfast => "Breakfast".to_owned(),
        Category::Baby => "Baby".to_owned(),
        Category::Household => "Household".to_owned(),
        Category::Health => "Health".to_owned(),
        Category::Personal => "Personal".to_owned(),
        Category::Pet => "Pet".to_owned(),
        Category::Other(s) => {
            let mut k = "Other(".to_owned();
            k.append(debug_text(s.as_str()).as_str());
            k.append(")");
            k
        },
    }
}

/// Whether item `x` comes before item `y`.
fn item_less(x: &ShoppingItem, y: &ShoppingItem) -> (r: bool)
    ensures
        r == item_lt(x@, y@),
{
    let a = category_sort_key(&x.category);
    let b = category_sort_key(&y.category);
    if text_less(a.as_str(), b.as_str()) {
        true
    } else if a == b {
        text_less(x.name.as_str(), y.name.as_str())
    } else {
        false
    }
}

/// Items with distinct merge keys have distinct names.
proof fn lemma_distinct_names(s: Seq<ItemView>, a: int, b: int)
    requires
        keys_distinct(s),
        0 <= a < s.len(),
        0 <= b < s.len(),
        a != b,
    ensures
        s[a].name != s[b].name,
{
    assert(key_of(s[a]) != key_of(s[b]));
}

proof fn lemma_insert_multiset(s: Seq<ItemView>, p: int, x: ItemView)
    requires
        0 <= p <= s.len(),
    ensures
        s.insert(p, x).to_multiset() =~= s.to_multiset().insert(x),
{
    let t = s.insert(p, x);
    assert(t.remove(p) =~= s);
    assert(t[p] == x);
    assert(t.to_multiset().remove(x) =~= s.to_multiset());
    assert(t.contains(x));
    assert(t.to_multiset().count(x) > 0);
    assert forall|y: ItemView| #[trigger] t.to_multiset().count(y) == s.to_multiset().insert(x).count(y) by {
        if y == x {
            assert(t.to_multiset().remove(x).count(x) == t.to_multiset().count(x) - 1);
        } else {
            assert(t.to_multiset().remove(x).count(y) == t.to_multiset().count(y));
        }
    }
}

/// Put items with distinct merge keys in category-then-name order.
fn sort_items(items: Vec<ShoppingItem>) -> (r: Vec<ShoppingItem>)
    requires
        keys_distinct(items_view(items@)),
    ensures
        items_view(r@).to_multiset() == items_view(items@).to_multiset(),
        sorted_items(items_view(r@)),
{
    let ghost src = items_view(items@);
    let mut out: Vec<ShoppingItem> = Vec::new();
    let mut i: usize = 0;
    while i < items.len()
        invariant
            i <= items@.len(),
            src == items_view(items@),
            keys_distinct(src),
            items_view(out@).to_multiset() == src.take(i as int).to_multiset(),
            sorted_items(items_view(out@)),
            forall|q: int| 0 <= q < out@.len() ==> exists|p: int| 0 <= p < i && #[trigger] items_view(out@)[q] == src[p],
        decreases items@.len() - i,
    {
        let it = &items[i];
        let mut p: usize = 0;
        while p < out.len() && !item_less(it, &out[p])
            invariant
                p <= out@.len(),
                forall|q: int| 0 <= q < p ==> !item_lt(it@, #[trigger] items_view(out@)[q]),
            decreases out@.len() - p,
        {
            p = p + 1;
        }
        let ghost old_v = items_view(out@);
        assert(p < old_v.len() ==> item_lt(it@, old_v[p as int]));
        proof {
            assert forall|q: int| 0 <= q < p implies item_lt(#[trigger] old_v[q], it@) by {
                let pq = choose|pq: int| 0 <= pq < i && old_v[q] == src[pq];
                lemma_distinct_names(src, pq, i as int);
                lemma_item_lt_total(old_v[q], it@);
            }
        }
        out.insert(p, copy_item(it));
        proof {
            let nv = items_view(out@);
            assert(nv =~= old_v.insert(p as int, it@));
            assert(src.take(i + 1) =~= src.take(i as int).push(it@));
            lemma_insert_multiset(old_v, p as int, it@);
            assert forall|b: int| p < b < nv.len() implies item_lt(it@, #[trigger] nv[b]) by {
                assert(nv[b] == old_v[b - 1]);
                if b - 1 > p {
                    lemma_item_lt_transitive(it@, old_v[p as int], old_v[b - 1]);
                }
            }
            assert forall|a: int, b: int| 0 <= a < b < nv.len() implies item_lt(#[trigger] nv[a], #[trigger] nv[b]) by {
                if b < p {
                } else if a < p && b == p {
                } else if a < p && b > p {
                    lemma_item_lt_transitive(nv[a], it@, nv[b]);
                } else if a > p {
                    assert(nv[a] == old_v[a - 1]);
                    assert(nv[b] == old_v[b - 1]);
                }
            }
            assert forall|q: int| 0 <= q < nv.len() implies exists|pp: int| 0 <= pp < i + 1 && #[trigger] nv[q] == src[pp] by {
                if q < p {
                    assert(nv[q] == old_v[q]);
                } else if q == p {
                    assert(nv[q] == src[i as int]);
                } else {
                    assert(nv[q] == old_v[q - 1]);
                }
            }
        }
        i = i + 1;
    }
    assert(src.take(items@.len() as int) == src);
    out
}

// ── Consolidation ───────────────────────────────────────────────

/// `r` is the consolidation of `items`: the merged items, each once, in
/// category-then-name order.
pub open spec fn is_consolidation(items: Seq<ItemView>, r: Seq<ItemView>) -> bool {
    r.to_multiset() == merged(items).to_multiset() && sorted_items(r)
}

/// Deduplicate and merge shopping items by name, ignoring case: the larger
/// quantity wins, `Staple` wins over other sources, notes are joined with
/// `"; "`; the result is sorted by category, then by name.
pub fn consolidate(items: Vec<ShoppingItem>) -> (r: Vec<ShoppingItem>)
    ensures
        is_consolidation(items_view(items@), items_view(r@)),
{
    let m = merge_items(&items);
    sort_items(m)
}

proof fn lemma_merged_facts(items: Seq<ItemView>)
    ensures
        keys_distinct(merged(items)),
        merged(items).len() <= items.len(),
        forall|q: int| 0 <= q < merged(items).len() ==> exists|p: int| 0 <= p < items.len() && key_of(#[trigger] merged(items)[q]) == key_of(items[p]),
    decreases items.len(),
{
    if items.len() > 0 {
        let prev = items.drop_last();
        lemma_merged_facts(prev);
        let acc = merged(prev);
        let it = items.last();
        let m = merged(items);
        if exists|k: int| 0 <= k < acc.len() && key_of(#[trigger] acc[k]) == key_of(it) {
            let k = choose|k: int| 0 <= k < acc.len() && key_of(#[trigger] acc[k]) == key_of(it);
            assert(m == acc.update(k, combine(acc[k], it)));
            assert forall|q: int| 0 <= q < m.len() implies exists|p: int| 0 <= p < items.len() && key_of(#[trigger] m[q]) == key_of(items[p]) by {
                let p = choose|p: int| 0 <= p < prev.len() && key_of(#[trigger] acc[q]) == key_of(prev[p]);
                assert(key_of(m[q]) == key_of(acc[q]));
                assert(items[p] == prev[p]);
            }
            assert(keys_distinct(m)) by {
                assert forall|a: int, b: int| 0 <= a < m.len() && 0 <= b < m.len() && a != b implies key_of(#[trigger] m[a]) != key_of(#[trigger] m[b]) by {
                    assert(key_of(m[a]) == key_of(acc[a]));
                    assert(key_of(m[b]) == key_of(acc[b]));
                }
            }
        } else {
            assert(m == acc.push(it));
            assert forall|q: int| 0 <= q < m.len() implies exists|p: int| 0 <= p < items.len() && key_of(#[trigger] m[q]) == key_of(items[p]) by {
                if q < acc.len() {
                    let p = choose|p: int| 0 <= p < prev.len() && key_of(#[trigger] acc[q]) == key_of(prev[p]);
                    assert(items[p] == prev[p]);
                } else {
                    assert(m[q] == items[items.len() - 1]);
                }
            }
        }
    }
}

/// Merging items whose keys are already distinct changes nothing.
proof fn lemma_merged_distinct_identity(items: Seq<ItemView>)
    requires
        keys_distinct(items),
    ensures
        merged(items) == items,
    decreases items.len(),
{
    if items.len() > 0 {
        let prev = items.drop_last();
        assert(keys_distinct(prev)) by {
            assert forall|a: int, b: int| 0 <= a < prev.len() && 0 <= b < prev.len() && a != b implies key_of(#[trigger] prev[a]) != key_of(#[trigger] prev[b]) by {
                assert(prev[a] == items[a]);
                assert(prev[b] == items[b]);
            }
        }
        lemma_merged_distinct_identity(prev);
        let it = items.last();
        assert forall|k: int| 0 <= k < prev.len() implies key_of(#[trigger] prev[k]) != key_of(it) by {
            assert(prev[k] == items[k]);
        }
        assert(items == prev.push(it));
    }
}

/// Two sorted sequences with the same items are the same sequence.
proof fn lemma_sorted_unique(a: Seq<ItemView>, b: Seq<ItemView>)
    requires
        sorted_items(a),
        sorted_items(b),
        a.to_multiset() == b.to_multiset(),
    ensures
        a == b,
    decreases a.len(),
{
    if a.len() == 0 {
        assert(a.len() == a.to_multiset().len());
        assert(b.len() == b.to_multiset().len());
        assert(b =~= a);
    } else {
        assert(a.len() == a.to_multiset().len());
        assert(b.len() == b.to_multiset().len());
        assert(b.len() == a.len());
        assert(a.contains(a[0]));
        assert(b.to_multiset().count(a[0]) > 0);
        assert(b.contains(a[0]));
        let j = choose|j: int| 0 <= j < b.len() && b[j] == a[0];
        assert(b.contains(b[0]));
        assert(a.to_multiset().count(b[0]) > 0);
        assert(a.contains(b[0]));
        let k = choose|k: int| 0 <= k < a.len() && a[k] == b[0];
        if j > 0 {
            if k > 0 {
                assert(item_lt(b[0], b[j]));
                assert(item_lt(a[0], a[k]));
                lemma_item_lt_asymmetric(a[0], b[0]);
            } else {
                assert(item_lt(b[0], b[j]));
                lemma_item_lt_asymmetric(b[0], b[0]);
            }
        }
        assert(b[0] == a[0]);
        let a1 = a.drop_first();
        let b1 = b.drop_first();
        assert(a.remove(0) == a1);
        assert(b.remove(0) == b1);
        assert(a1.to_multiset() == b1.to_multiset());
        assert(sorted_items(a1)) by {
            assert forall|x: int, y: int| 0 <= x < y < a1.len() implies item_lt(#[trigger] a1[x], #[trigger] a1[y]) by {
                assert(a1[x] == a[x + 1]);
                assert(a1[y] == a[y + 1]);
            }
        }
        assert(sorted_items(b1)) by {
            assert forall|x: int, y: int| 0 <= x < y < b1.len() implies item_lt(#[trigger] b1[x], #[trigger] b1[y]) by {
                assert(b1[x] == b[x + 1]);
                assert(b1[y] == b[y + 1]);
            }
        }
        lemma_sorted_unique(a1, b1);
        assert(a =~= b) by {
            assert forall|x: int| 0 <= x < a.len() implies a[x] == b[x] by {
                if x > 0 {
                    assert(a[x] == a1[x - 1]);
                    assert(b[x] == b1[x - 1]);
                }
            }
        }
    }
}

/// A consolidated list has distinct merge keys.
proof fn lemma_consolidation_distinct(items: Seq<ItemView>, r: Seq<ItemView>)
    requires
        is_consolidation(items, r),
    ensures
        keys_distinct(r),
{
    lemma_merged_facts(items);
    let m = merged(items);
    assert forall|a: int, b: int| 0 <= a < r.len() && 0 <= b < r.len() && a != b implies key_of(#[trigger] r[a]) != key_of(#[trigger] r[b]) by {
        assert(r.contains(r[a]));
        assert(r.contains(r[b]));
        assert(m.to_multiset().count(r[a]) > 0);
        assert(m.to_multiset().count(r[b]) > 0);
        assert(m.contains(r[a]));
        assert(m.contains(r[b]));
        let pa = choose|pa: int| 0 <= pa < m.len() && m[pa] == r[a];
        let pb = choose|pb: int| 0 <= pb < m.len() && m[pb] == r[b];
        if pa == pb {
            if a < b {
                lemma_item_lt_asymmetric(r[a], r[b]);
            } else {
                lemma_item_lt_asymmetric(r[b], r[a]);
            }
        }
    }
}

/// Consolidation is idempotent: consolidating a consolidated list gives the
/// same list back.
pub proof fn lemma_consolidate_idempotent(items: Seq<ItemView>, once: Seq<ItemView>, twice: Seq<ItemView>)
    requires
        is_consolidation(items, once),
        is_consolidation(once, twice),
    ensures
        twice == once,
{
    lemma_consolidation_distinct(items, once);
    lemma_merged_distinct_identity(once);
    lemma_sorted_unique(twice, once);
}

/// Consolidation never lengthens a list, and every name in the result is,
/// ignoring case, a name of the input.
pub proof fn lemma_consolidate_shrinks(items: Seq<ItemView>, r: Seq<ItemView>)
    requires
        is_consolidation(items, r),
    ensures
        r.len() <= items.len(),
        forall|q: int| 0 <= q < r.len() ==> exists|p: int| 0 <= p < items.len() && key_of(#[trigger] r[q]) == key_of(items[p]),
{
    lemma_merged_facts(items);
    let m = merged(items);
    assert(r.len() == r.to_multiset().len());
    assert(m.len() == m.to_multiset().len());
    assert forall|q: int| 0 <= q < r.len() implies exists|p: int| 0 <= p < items.len() && key_of(#[trigger] r[q]) == key_of(items[p]) by {
        assert(r.contains(r[q]));
        assert(m.to_multiset().count(r[q]) > 0);
        assert(m.contains(r[q]));
        let pm = choose|pm: int| 0 <= pm < m.len() && m[pm] == r[q];
        assert(key_of(m[pm]) == key_of(r[q]));
    }
}

} // verus!
