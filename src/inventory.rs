//! Stock quantities by product, held in a `vector_map::VecMap`.

use vstd::prelude::*;
use vector_map::VecMap;

verus! {

pub type ProductId = u32;

/// Quantities by product.
pub type Stock = VecMap<u32, u32>;

#[verifier::external_type_specification]
#[verifier::external_body]
#[verifier::reject_recursive_types(K)]
#[verifier::reject_recursive_types(V)]
pub struct ExVecMap<K, V>(VecMap<K, V>);

/// The pairs that a map of quantities holds.
pub uninterp spec fn stock_of(m: Stock) -> Map<u32, u32>;

/// Relies on `VecMap::new`: a map with no pair.
#[verifier::external_body]
fn stock_new() -> (r: Stock)
    ensures
        stock_of(r) =~= Map::empty(),
{
    VecMap::new()
}

/// Relies on `VecMap::insert`: the value of a present key is replaced, an
/// absent key is added with its value; the replaced value is returned.
#[verifier::external_body]
fn stock_insert(m: &mut Stock, k: u32, v: u32) -> (r: Option<u32>)
    ensures
        stock_of(*final(m)) == stock_of(*old(m)).insert(k, v),
        r == (if stock_of(*old(m)).contains_key(k) {
            Some(stock_of(*old(m))[k])
        } else {
            None
        }),
{
    m.insert(k, v)
}

/// Relies on `VecMap::get`: the value under `k`, if present.
#[verifier::external_body]
fn stock_get(m: &Stock, k: u32) -> (r: Option<u32>)
    ensures
        r == (if stock_of(*m).contains_key(k) {
            Some(stock_of(*m)[k])
        } else {
            None
        }),
{
    m.get(&k).copied()
}

/// Quantities in stock by product; no quantity is zero.
pub struct Inventory {
    inner: Stock,
}

impl Inventory {
    pub closed spec fn view_stock(&self) -> Map<u32, u32> {
        stock_of(self.inner)
    }

    pub closed spec fn wf(&self) -> bool {
        forall|k: u32| #[trigger] self.view_stock().contains_key(k) ==> self.view_stock()[k] != 0
    }

    /// An empty inventory.
    pub fn new() -> (r: Inventory)
        ensures
            r.wf(),
            r.view_stock() == Map::<u32, u32>::empty(),
    {
        Inventory { inner: stock_new() }
    }

    /// Sets the quantity of `id`.
    pub fn update(&mut self, id: ProductId, new_quantity: u32)
        requires
            old(self).wf(),
            new_quantity != 0,
        ensures
            final(self).wf(),
            final(self).view_stock() == old(self).view_stock().insert(id, new_quantity),
    {
        stock_insert(&mut self.inner, id, new_quantity);
    }

    /// The quantity of `id`, if it is stocked.
    pub fn get(&self, id: &ProductId) -> (r: Option<u32>)
        ensures
            r == (if self.view_stock().contains_key(*id) {
                Some(self.view_stock()[*id])
            } else {
                None
            }),
    {
        stock_get(&self.inner, *id)
    }
}

/// The stock after inserting `entries` in order.
pub open spec fn stock_after(entries: Seq<(u32, u32)>) -> Map<u32, u32>
    decreases entries.len(),
{
    if entries.len() == 0 {
        Map::empty()
    } else {
        stock_after(entries.drop_last()).insert(entries.last().0, entries.last().1)
    }
}

/// An inventory of at most `bound` entries, filled from `entries` in order.
pub fn any_inventory(bound: u32, entries: &Vec<(ProductId, u32)>) -> (r: Inventory)
    requires
        entries@.len() <= bound,
        forall|i: int| 0 <= i < entries@.len() ==> (#[trigger] entries@[i]).1 != 0,
    ensures
        r.wf(),
        r.view_stock() == stock_after(entries@),
{
    let mut inv = Inventory::new();
    let mut i: usize = 0;
    while i < entries.len()
        invariant
            0 <= i <= entries@.len(),
            forall|j: int| 0 <= j < entries@.len() ==> (#[trigger] entries@[j]).1 != 0,
            inv.wf(),
            inv.view_stock() == stock_after(entries@.take(i as int)),
        decreases entries@.len() - i,
    {
        let (id, quantity) = entries[i];
        assert(entries@[i as int].1 != 0);
        inv.update(id, quantity);
        assert(entries@.take(i + 1).drop_last() =~= entries@.take(i as int));
        i = i + 1;
    }
    assert(entries@.take(i as int) =~= entries@);
    inv
}

/// After an update, the inventory reads back the new quantity.
pub fn safe_update(id: ProductId, quantity: u32) -> (r: Option<u32>)
    requires
        quantity != 0,
    ensures
        r == Some(quantity),
{
    let mut inventory = Inventory::new();
    inventory.update(id, quantity);
    inventory.get(&id)
}

/// After an update of an inventory built from no entries, it reads back the new quantity.
pub fn safe_update_with_any(id: ProductId, quantity: u32) -> (r: Option<u32>)
    requires
        quantity != 0,
    ensures
        r == Some(quantity),
{
    let entries: Vec<(ProductId, u32)> = Vec::new();
    let mut inventory = any_inventory(0, &entries);
    inventory.update(id, quantity);
    inventory.get(&id)
}

} // verus!
