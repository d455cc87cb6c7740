use vstd::prelude::*;

use crate::types::{Category, FrequencyTier, Store};

verus! {

/// A recurring grocery item from the household model.
#[derive(Debug, Clone)]
pub struct RecurringItem {
    pub item: String,
    pub category: Category,
    pub store: Store,
    pub tier: FrequencyTier,
    pub frequency: Option<String>,
    pub typical_qty: Option<String>,
    pub price: Option<String>,
    pub oos_count: Option<u32>,
    pub note: Option<String>,
    pub cycle_days: Option<String>,
    pub last_seen: Option<String>,
}

/// An item on a shopping list.
#[derive(Debug, Clone)]
pub struct ShoppingItem {
    pub name: String,
    pub quantity: u32,
    pub category: Category,
    pub source: ItemSource,
    pub note: Option<String>,
}

/// Where a shopping list item came from.
#[derive(Debug, Clone, PartialEq, Eq)]
pub enum ItemSource {
    /// From the ingredient list of the named recipe.
    Recipe(String),
    /// Weekly staple, added automatically.
    Staple,
    /// Explicitly requested.
    UserRequest,
    /// Added because the household's buying frequency calls for it.
    FrequencyTrigger,
}

/// A category as a value: the variant's place in the declaration, and the
/// text of `Other` (empty for the named variants).
pub open spec fn category_view(c: Category) -> (int, Seq<char>) {
    match c {
        Category::Produce => (0, Seq::empty()),
        Category::Dairy => (1, Seq::empty()),
        Category::Meat => (2, Seq::empty()),
        Category::Deli => (3, Seq::empty()),
        Category::Frozen => (4, Seq::empty()),
        Category::Canned => (5, Seq::empty()),
        Category::Bread => (6, Seq::empty()),
        Category::Pasta => (7, Seq::empty()),
        Category::Beverages => (8, Seq::empty()),
        Category::Snacks => (9, Seq::empty()),
        Category::Condiments => (10, Seq::empty()),
        Category::Baking => (11, Seq::empty()),
        Category::Breakfast => (12, Seq::empty()),
        Category::Baby => (13, Seq::empty()),
        Category::Household => (14, Seq::empty()),
        Category::Health => (15, Seq::empty()),
        Category::Personal => (16, Seq::empty()),
        Category::Pet => (17, Seq::empty()),
        Category::Other(s) => (18, s@),
    }
}

/// A source as a value: the variant's place, and the recipe name for `Recipe`.
pub open spec fn source_view(s: ItemSource) -> (int, Seq<char>) {
    match s {
        ItemSource::Recipe(n) => (0, n@),
        ItemSource::Staple => (1, Seq::empty()),
        ItemSource::UserRequest => (2, Seq::empty()),
        ItemSource::FrequencyTrigger => (3, Seq::empty()),
    }
}

/// A shopping item as a value.
pub struct ItemView {
    pub name: Seq<char>,
    pub quantity: u32,
    pub category: (int, Seq<char>),
    pub source: (int, Seq<char>),
    pub note: Option<Seq<char>>,
}

/// An optional text as a value.
pub open spec fn opt_view(o: Option<String>) -> Option<Seq<char>> {
    match o {
        Some(s) => Some(s@),
        None => None,
    }
}

impl View for ShoppingItem {
    type V = ItemView;

    open spec fn view(&self) -> ItemView {
        ItemView {
            name: self.name@,
            quantity: self.quantity,
            category: category_view(self.category),
            source: source_view(self.source),
            note: opt_view(self.note),
        }
    }
}

/// The views of a sequence of items.
pub open spec fn items_view(items: Seq<ShoppingItem>) -> Seq<ItemView> {
    items.map_values(|i: ShoppingItem| i@)
}

/// A copy of a category.
pub fn copy_category(c: &Category) -> (r: Category)
    ensures
        category_view(r) == category_view(*c),
{
    match c {
        Category::Produce => Category::Produce,
        Category::Dairy => Category::Dairy,
        Category::Meat => Category::Meat,
        Category::Deli => Category::Deli,
        Category::Frozen => Category::Frozen,
        Category::Canned => Category::Canned,
        Category::Bread => Category::Bread,
        Category::Pasta => Category::Pasta,
        Category::Beverages => Category::Beverages,
        Category::Snacks => Category::Snacks,
        Category::Condiments => Category::Condiments,
        Category::Baking => Category::Baking,
        Category::Breakfast => Category::Breakfast,
        Category::Baby => Category::Baby,
        Category::Household => Category::Household,
        Category::Health => Category::Health,
        Category::Personal => Category::Personal,
        Category::Pet => Category::Pet,
        Category::Other(s) => Category::Other(s.clone()),
    }
}

/// A copy of a source.
pub fn copy_source(s: &ItemSource) -> (r: ItemSource)
    ensures
        source_view(r) == source_view(*s),
{
    match s {
        ItemSource::Recipe(n) => ItemSource::Recipe(n.clone()),
        ItemSource::Staple => ItemSource::Staple,
        ItemSource::UserRequest => ItemSource::UserRequest,
        ItemSource::FrequencyTrigger => ItemSource::FrequencyTrigger,
    }
}

/// A copy of an optional text.
pub fn copy_text(o: &Option<String>) -> (r: Option<String>)
    ensures
        opt_view(r) == opt_view(*o),
{
    match o {
        Some(s) => Some(s.clone()),
        None => None,
    }
}

/// A copy of a shopping item.
pub fn copy_item(i: &ShoppingItem) -> (r: ShoppingItem)
    ensures
        r@ == i@,
{
    ShoppingItem {
        name: i.name.clone(),
        quantity: i.quantity,
        category: copy_category(&i.category),
        source: copy_source(&i.source),
        note: copy_text(&i.note),
    }
}

} // verus!
