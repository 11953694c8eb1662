//! Items that can be carried, and the inventory that counts them.
use std::collections::HashMap;
use vstd::prelude::*;

verus! {

broadcast use vstd::std_specs::hash::group_hash_axioms;

/// The kinds of item in the game. Each has a fixed numeric code
/// (`Logs` is 1, `Stone` is 2), used on the wire and for ordering.
#[derive(Clone, Copy, PartialEq, Eq, Structural, Hash, Debug)]
pub enum ItemId {
    Logs,
    Stone,
}

/// The numeric code of an item.
pub open spec fn item_code(id: ItemId) -> u32 {
    match id {
        ItemId::Logs => 1,
        ItemId::Stone => 2,
    }
}

/// The item with a given numeric code, if any.
pub open spec fn item_from_code(v: u32) -> Option<ItemId> {
    if v == 1 {
        Some(ItemId::Logs)
    } else if v == 2 {
        Some(ItemId::Stone)
    } else {
        None
    }
}

impl ItemId {
    /// The lower-case display name of the item.
    pub fn name(self) -> (r: &'static str)
        ensures
            self == ItemId::Logs ==> r@ == "logs"@,
            self == ItemId::Stone ==> r@ == "stone"@,
    {
        match self {
            ItemId::Logs => "logs",
            ItemId::Stone => "stone",
        }
    }

    /// The item's numeric code.
    pub fn code(self) -> (r: u32)
        ensures
            r == item_code(self),
    {
        match self {
            ItemId::Logs => 1,
            ItemId::Stone => 2,
        }
    }

    /// Decodes an item from its numeric code.
    pub fn from_u32(v: u32) -> (r: Option<ItemId>)
        ensures
            r == item_from_code(v),
    {
        match v {
            1 => Some(ItemId::Logs),
            2 => Some(ItemId::Stone),
            _ => None,
        }
    }
}

/// Decoding an item's code gives the item back.
pub proof fn lemma_item_code_roundtrip(id: ItemId)
    ensures
        item_from_code(item_code(id)) == Some(id),
{
}

/// Every code that decodes to an item is that item's code.
pub proof fn lemma_item_decode_roundtrip(v: u32)
    ensures
        item_from_code(v) matches Some(id) ==> item_code(id) == v,
        item_from_code(v) is Some <==> (v == 1 || v == 2),
{
}

/// A bag of items: for each kind of item it may hold an entry with a count.
/// An entry with count 0 can exist (after adding 0); removing down to 0
/// deletes the entry.
pub struct Inventory {
    items: HashMap<u32, u32>,
}

/// The quantity held of `id` in an inventory whose contents are `m`.
pub open spec fn count_in(m: Map<ItemId, u32>, id: ItemId) -> u32 {
    if m.contains_key(id) {
        m[id]
    } else {
        0
    }
}

/// The flat listing of an inventory: pairs `[code, quantity]`, by increasing code.
pub open spec fn flat_listing(m: Map<ItemId, u32>) -> Seq<u32> {
    let logs = if m.contains_key(ItemId::Logs) {
        seq![1u32, m[ItemId::Logs]]
    } else {
        Seq::<u32>::empty()
    };
    let stone = if m.contains_key(ItemId::Stone) {
        seq![2u32, m[ItemId::Stone]]
    } else {
        Seq::<u32>::empty()
    };
    logs + stone
}

/// The contents after adding `qty` of `id`.
pub open spec fn with_added(m: Map<ItemId, u32>, id: ItemId, qty: u32) -> Map<ItemId, u32> {
    m.insert(id, (count_in(m, id) + qty) as u32)
}

/// The contents after taking `qty` of `id` out, or `None` when there is no
/// entry for `id` or it holds less than `qty`; an entry that reaches 0 is
/// deleted.
pub open spec fn with_removed(m: Map<ItemId, u32>, id: ItemId, qty: u32) -> Option<Map<ItemId, u32>> {
    if !m.contains_key(id) || m[id] < qty {
        None
    } else if m[id] == qty {
        Some(m.remove(id))
    } else {
        Some(m.insert(id, (m[id] - qty) as u32))
    }
}

/// Taking out what was just put in gives back the inventory as it was,
/// unless it held an empty entry for that item (which the removal deletes).
pub proof fn lemma_remove_undoes_add(m: Map<ItemId, u32>, id: ItemId, qty: u32)
    requires
        count_in(m, id) + qty <= u32::MAX,
        !(m.contains_key(id) && m[id] == 0),
    ensures
        with_removed(with_added(m, id, qty), id, qty) == Some(m),
{
    let m1 = with_added(m, id, qty);
    if m.contains_key(id) {
        assert(m1.insert(id, (m1[id] - qty) as u32) =~= m);
    } else {
        assert(m1.remove(id) =~= m);
    }
}

/// Adding then removing the same quantity leaves the count where it was.
pub proof fn lemma_add_remove_count(m: Map<ItemId, u32>, id: ItemId, qty: u32)
    requires
        count_in(m, id) + qty <= u32::MAX,
    ensures
        with_removed(with_added(m, id, qty), id, qty) matches Some(m2) && count_in(m2, id) == count_in(m, id),
{
}

impl View for Inventory {
    type V = Map<ItemId, u32>;

    closed spec fn view(&self) -> Map<ItemId, u32> {
        Map::new(
            |id: ItemId| self.items@.contains_key(item_code(id)),
            |id: ItemId| self.items@[item_code(id)],
        )
    }
}

impl Inventory {
    /// An empty inventory.
    pub fn new() -> (r: Inventory)
        ensures
            r@ == Map::<ItemId, u32>::empty(),
    {
        let r = Inventory { items: HashMap::new() };
        assert(r@ =~= Map::<ItemId, u32>::empty());
        r
    }

    proof fn lemma_view_insert(old_items: Map<u32, u32>, new_items: Map<u32, u32>, id: ItemId, v: u32)
        requires
            new_items == old_items.insert(item_code(id), v),
        ensures
            Map::new(
                |i: ItemId| new_items.contains_key(item_code(i)),
                |i: ItemId| new_items[item_code(i)],
            ) =~= Map::new(
                |i: ItemId| old_items.contains_key(item_code(i)),
                |i: ItemId| old_items[item_code(i)],
            ).insert(id, v),
    {
    }

    proof fn lemma_view_remove(old_items: Map<u32, u32>, new_items: Map<u32, u32>, id: ItemId)
        requires
            new_items == old_items.remove(item_code(id)),
        ensures
            Map::new(
                |i: ItemId| new_items.contains_key(item_code(i)),
                |i: ItemId| new_items[item_code(i)],
            ) =~= Map::new(
                |i: ItemId| old_items.contains_key(item_code(i)),
                |i: ItemId| old_items[item_code(i)],
            ).remove(id),
    {
    }

    /// Adds `qty` of `id` (creating the entry if needed) and returns the new quantity.
    pub fn add(&mut self, id: ItemId, qty: u32) -> (r: u32)
        requires
            count_in(old(self)@, id) + qty <= u32::MAX,
        ensures
            r == count_in(old(self)@, id) + qty,
            final(self)@ == with_added(old(self)@, id, qty),
    {
        let k = id.code();
        let cur = match self.items.get(&k) {
            Some(v) => *v,
            None => 0,
        };
        let n = cur + qty;
        let ghost old_items = self.items@;
        self.items.insert(k, n);
        proof {
            Self::lemma_view_insert(old_items, self.items@, id, n);
        }
        n
    }

    /// Removes `qty` of `id`. Fails (changing nothing) when there is no entry for
    /// `id` or it holds less than `qty`; otherwise returns the remaining
    /// quantity, deleting the entry when that is 0.
    pub fn remove(&mut self, id: ItemId, qty: u32) -> (r: Option<u32>)
        ensures
            r is Some <==> with_removed(old(self)@, id, qty) is Some,
            final(self)@ == match with_removed(old(self)@, id, qty) {
                Some(m) => m,
                None => old(self)@,
            },
            r matches Some(left) ==> left == count_in(final(self)@, id),
            !old(self)@.contains_key(id) || old(self)@[id] < qty ==> {
                &&& r is None
                &&& final(self)@ == old(self)@
            },
            old(self)@.contains_key(id) && old(self)@[id] == qty ==> {
                &&& r == Some(0u32)
                &&& final(self)@ == old(self)@.remove(id)
            },
            old(self)@.contains_key(id) && old(self)@[id] > qty ==> {
                &&& r == Some((old(self)@[id] - qty) as u32)
                &&& final(self)@ == old(self)@.insert(id, (old(self)@[id] - qty) as u32)
            },
    {
        let k = id.code();
        let cur = match self.items.get(&k) {
            Some(v) => *v,
            None => {
                return None;
            },
        };
        if cur < qty {
            return None;
        }
        let n = cur - qty;
        let ghost old_items = self.items@;
        if n == 0 {
            self.items.remove(&k);
            proof {
                Self::lemma_view_remove(old_items, self.items@, id);
            }
            Some(0)
        } else {
            self.items.insert(k, n);
            proof {
                Self::lemma_view_insert(old_items, self.items@, id, n);
            }
            Some(n)
        }
    }

    /// The quantity held of `id` (0 when there is no entry).
    pub fn count(&self, id: ItemId) -> (r: u32)
        ensures
            r == count_in(self@, id),
    {
        let k = id.code();
        match self.items.get(&k) {
            Some(v) => *v,
            None => 0,
        }
    }

    /// The entries as flat pairs `[code, qty, code, qty, ...]`, by increasing code.
    pub fn to_flat_vec(&self) -> (r: Vec<u32>)
        ensures
            r@ == flat_listing(self@),
    {
        let mut out: Vec<u32> = Vec::new();
        if let Some(q) = self.items.get(&1u32) {
            out.push(1);
            out.push(*q);
        }
        let ghost mid = out@;
        if let Some(q) = self.items.get(&2u32) {
            out.push(2);
            out.push(*q);
        }
        assert(item_code(ItemId::Logs) == 1 && item_code(ItemId::Stone) == 2);
        assert(out@ =~= flat_listing(self@));
        out
    }
}

} // verus!
