//! A bounded inventory of stacked items.
//!
//! Items with the same name and type share one slot whose quantity grows as
//! more of them are added; the number of slots never exceeds the capacity.
use vstd::prelude::*;
use crate::text::text_eq;

verus! {

broadcast use vstd::string::group_string_axioms;

/// The kind of an item.
#[derive(Debug, Clone, Copy, PartialEq, Eq, Structural)]
pub enum ItemType {
    Weapon,
    Armor,
    Consumable,
    Material,
    Quest,
}

/// An inventory entry: a name, how many of it, and its kind.
#[derive(Debug, Clone, PartialEq)]
pub struct Item {
    pub name: String,
    pub quantity: u32,
    pub item_type: ItemType,
}

/// Whether an item stacks with an item of the given name and kind.
pub open spec fn stacks_with(item: Item, name: Seq<char>, item_type: ItemType) -> bool {
    item.name@ == name && item.item_type == item_type
}

/// No two slots hold items that would stack.
pub open spec fn distinct_stacks(items: Seq<Item>) -> bool {
    forall|i: int, j: int|
        0 <= i < j < items.len() ==> !stacks_with(
            #[trigger] items[i],
            #[trigger] items[j].name@,
            items[j].item_type,
        )
}

/// The slot holding an item of this name and kind, if any.
pub open spec fn has_stack(items: Seq<Item>, name: Seq<char>, item_type: ItemType) -> bool {
    exists|i: int| 0 <= i < items.len() && stacks_with(#[trigger] items[i], name, item_type)
}

/// `p` is the first slot whose item has this name.
pub open spec fn first_named_at(items: Seq<Item>, name: Seq<char>, p: int) -> bool {
    &&& 0 <= p < items.len()
    &&& items[p].name@ == name
    &&& forall|j: int| 0 <= j < p ==> (#[trigger] items[j]).name@ != name
}

/// Some slot holds an item with this name.
pub open spec fn has_named(items: Seq<Item>, name: Seq<char>) -> bool {
    exists|i: int| 0 <= i < items.len() && (#[trigger] items[i]).name@ == name
}

/// The quantity of the first slot with this name, or 0 when there is none.
pub open spec fn quantity_of(items: Seq<Item>, name: Seq<char>) -> u32 {
    if has_named(items, name) {
        let p = choose|p: int| first_named_at(items, name, p);
        items[p].quantity
    } else {
        0
    }
}

/// The first slot with a given name is unique.
proof fn lemma_first_named_unique(items: Seq<Item>, name: Seq<char>, p: int, q: int)
    requires
        first_named_at(items, name, p),
        first_named_at(items, name, q),
    ensures
        p == q,
{
    if p < q {
        assert(items[p].name@ != name);
    } else if q < p {
        assert(items[q].name@ != name);
    }
}

/// The quantity of the first slot named `name`, when `p` is that slot.
proof fn lemma_quantity_at(items: Seq<Item>, name: Seq<char>, p: int)
    requires
        first_named_at(items, name, p),
    ensures
        quantity_of(items, name) == items[p].quantity,
{
    assert(has_named(items, name));
    let q = choose|q: int| first_named_at(items, name, q);
    lemma_first_named_unique(items, name, p, q);
}

/// Adding an item whose name no slot has yet makes its quantity the quantity
/// reported for that name.
pub proof fn lemma_add_new_name_quantity(items: Seq<Item>, item: Item)
    requires
        !has_named(items, item.name@),
    ensures
        !has_stack(items, item.name@, item.item_type),
        has_named(items.push(item), item.name@),
        quantity_of(items.push(item), item.name@) == item.quantity,
{
    let after = items.push(item);
    assert forall|j: int| 0 <= j < items.len() implies (#[trigger] after[j]).name@ != item.name@ by {
        assert(after[j] == items[j]);
        if items[j].name@ == item.name@ {
            assert(has_named(items, item.name@));
        }
    }
    assert(first_named_at(after, item.name@, items.len() as int));
    lemma_quantity_at(after, item.name@, items.len() as int);
    if has_stack(items, item.name@, item.item_type) {
        let i = choose|i: int| 0 <= i < items.len() && stacks_with(#[trigger] items[i], item.name@, item.item_type);
        assert(has_named(items, item.name@));
    }
}

/// Stacking onto the first slot of a name adds to the quantity reported for
/// that name.
pub proof fn lemma_stacking_adds_quantity(items: Seq<Item>, item: Item, i: int)
    requires
        distinct_stacks(items),
        0 <= i < items.len(),
        stacks_with(items[i], item.name@, item.item_type),
        first_named_at(items, item.name@, i),
        items[i].quantity + item.quantity <= u32::MAX,
    ensures
        quantity_of(
            items.update(
                i,
                Item { quantity: (items[i].quantity + item.quantity) as u32, ..items[i] },
            ),
            item.name@,
        ) == quantity_of(items, item.name@) + item.quantity,
{
    let after = items.update(
        i,
        Item { quantity: (items[i].quantity + item.quantity) as u32, ..items[i] },
    );
    assert forall|j: int| 0 <= j < i implies (#[trigger] after[j]).name@ != item.name@ by {
        assert(after[j] == items[j]);
    }
    assert(first_named_at(after, item.name@, i));
    lemma_quantity_at(after, item.name@, i);
    lemma_quantity_at(items, item.name@, i);
}

/// Taking back all of an item whose name was new to the inventory restores
/// the slots as they were before it was added.
pub proof fn lemma_remove_undoes_add(items: Seq<Item>, item: Item)
    requires
        !has_named(items, item.name@),
    ensures
        first_named_at(items.push(item), item.name@, items.len() as int),
        items.push(item).remove(items.len() as int) == items,
{
    let after = items.push(item);
    assert forall|j: int| 0 <= j < items.len() implies (#[trigger] after[j]).name@ != item.name@ by {
        assert(after[j] == items[j]);
        if items[j].name@ == item.name@ {
            assert(has_named(items, item.name@));
        }
    }
    assert(after.remove(items.len() as int) =~= items);
}

/// A fixed-capacity list of item stacks.
pub struct Inventory {
    items: Vec<Item>,
    capacity: usize,
}

impl Inventory {
    /// The slots, in the order they were first filled.
    pub closed spec fn contents(&self) -> Seq<Item> {
        self.items@
    }

    /// The most slots the inventory may hold.
    pub closed spec fn limit(&self) -> nat {
        self.capacity as nat
    }

    /// The inventory's invariant: no two slots stack and the slots fit the
    /// capacity.
    pub open spec fn wf(&self) -> bool {
        &&& distinct_stacks(self.contents())
        &&& self.contents().len() <= self.limit()
    }

    /// An empty inventory with room for `capacity` slots.
    pub fn new(capacity: usize) -> (r: Self)
        ensures
            r.wf(),
            r.contents() == Seq::<Item>::empty(),
            r.limit() == capacity,
    {
        Inventory { items: Vec::new(), capacity }
    }

    /// Adds an item, stacking it onto the slot of the same name and kind if
    /// there is one. Refused (returning `false`, nothing changed) when every
    /// slot is taken, even if the item would have stacked.
    pub fn add_item(&mut self, item: Item) -> (r: bool)
        requires
            old(self).wf(),
            old(self).contents().len() < old(self).limit() ==> forall|i: int|
                0 <= i < old(self).contents().len() && stacks_with(
                    #[trigger] old(self).contents()[i],
                    item.name@,
                    item.item_type,
                ) ==> old(self).contents()[i].quantity + item.quantity <= u32::MAX,
        ensures
            final(self).wf(),
            final(self).limit() == old(self).limit(),
            r == (old(self).contents().len() < old(self).limit()),
            !r ==> final(self).contents() == old(self).contents(),
            r && has_stack(old(self).contents(), item.name@, item.item_type) ==> exists|i: int|
                0 <= i < old(self).contents().len() && stacks_with(
                    #[trigger] old(self).contents()[i],
                    item.name@,
                    item.item_type,
                ) && final(self).contents() == old(self).contents().update(
                    i,
                    Item {
                        quantity: (old(self).contents()[i].quantity + item.quantity) as u32,
                        ..old(self).contents()[i]
                    },
                ),
            r && !has_stack(old(self).contents(), item.name@, item.item_type)
                ==> final(self).contents() == old(self).contents().push(item),
    {
        if self.items.len() >= self.capacity {
            return false;
        }
        let mut i: usize = 0;
        while i < self.items.len()
            invariant
                *self == *old(self),
                old(self).wf(),
                self.items@.len() < self.capacity,
                forall|k: int|
                    0 <= k < old(self).contents().len() && stacks_with(
                        #[trigger] old(self).contents()[k],
                        item.name@,
                        item.item_type,
                    ) ==> old(self).contents()[k].quantity + item.quantity <= u32::MAX,
                i <= self.items@.len(),
                forall|j: int|
                    0 <= j < i ==> !stacks_with(#[trigger] self.items@[j], item.name@, item.item_type),
            decreases self.items.len() - i,
        {
            if self.items[i].item_type == item.item_type && text_eq(&self.items[i].name, &item.name) {
                let ghost before = self.items@;
                let added = self.items[i].quantity + item.quantity;
                self.items[i].quantity = added;
                proof {
                    let updated = Item { quantity: added, ..before[i as int] };
                    assert(self.items@ =~= before.update(i as int, updated));
                    assert forall|a: int, b: int|
                        0 <= a < b < self.items@.len() implies !stacks_with(
                        #[trigger] self.items@[a],
                        #[trigger] self.items@[b].name@,
                        self.items@[b].item_type,
                    ) by {
                        assert(!stacks_with(before[a], before[b].name@, before[b].item_type));
                    }
                }
                return true;
            }
            i += 1;
        }
        let ghost before = self.items@;
        self.items.push(item);
        proof {
            assert forall|a: int, b: int|
                0 <= a < b < self.items@.len() implies !stacks_with(
                #[trigger] self.items@[a],
                #[trigger] self.items@[b].name@,
                self.items@[b].item_type,
            ) by {
                if b < before.len() {
                    assert(!stacks_with(before[a], before[b].name@, before[b].item_type));
                }
            }
            assert forall|j: int| 0 <= j < before.len() implies !stacks_with(
                #[trigger] before[j],
                item.name@,
                item.item_type,
            ) by {}
        }
        true
    }

    /// Takes `quantity` of the first slot named `name`. Returns `None`, with
    /// nothing changed, when no slot has that name or the first one holds
    /// fewer; otherwise the taken part, and the slot is dropped once empty.
    pub fn remove_item(&mut self, name: &str, quantity: u32) -> (r: Option<Item>)
        requires
            old(self).wf(),
        ensures
            final(self).wf(),
            final(self).limit() == old(self).limit(),
            !has_named(old(self).contents(), name@) ==> r is None && final(self).contents()
                == old(self).contents(),
            forall|p: int|
                first_named_at(old(self).contents(), name@, p) ==> {
                    let slot = #[trigger] old(self).contents()[p];
                    if slot.quantity < quantity {
                        r is None && final(self).contents() == old(self).contents()
                    } else {
                        &&& r is Some
                        &&& r->0.name@ == slot.name@
                        &&& r->0.quantity == quantity
                        &&& r->0.item_type == slot.item_type
                        &&& slot.quantity == quantity ==> final(self).contents()
                            == old(self).contents().remove(p)
                        &&& slot.quantity > quantity ==> final(self).contents()
                            == old(self).contents().update(
                            p,
                            Item { quantity: (slot.quantity - quantity) as u32, ..slot },
                        )
                    }
                },
    {
        let mut i: usize = 0;
        while i < self.items.len()
            invariant
                *self == *old(self),
                old(self).wf(),
                i <= self.items@.len(),
                forall|j: int| 0 <= j < i ==> (#[trigger] self.items@[j]).name@ != name@,
            decreases self.items.len() - i,
        {
            if text_eq(&self.items[i].name, name) {
                proof {
                    assert(first_named_at(self.items@, name@, i as int));
                    assert forall|p: int| first_named_at(self.items@, name@, p) implies p == i by {
                        lemma_first_named_unique(self.items@, name@, p, i as int);
                    }
                }
                if self.items[i].quantity < quantity {
                    return None;
                }
                let ghost before = self.items@;
                let left = self.items[i].quantity - quantity;
                self.items[i].quantity = left;
                let removed = Item {
                    name: self.items[i].name.clone(),
                    quantity,
                    item_type: self.items[i].item_type,
                };
                proof {
                    let updated = Item { quantity: left, ..before[i as int] };
                    assert(self.items@ =~= before.update(i as int, updated));
                }
                if left == 0 {
                    let ghost updated = self.items@;
                    self.items.remove(i);
                    proof {
                        assert(self.items@ =~= before.remove(i as int));
                        assert forall|a: int, b: int|
                            0 <= a < b < self.items@.len() implies !stacks_with(
                            #[trigger] self.items@[a],
                            #[trigger] self.items@[b].name@,
                            self.items@[b].item_type,
                        ) by {
                            let a0 = if a < i { a } else { a + 1 };
                            let b0 = if b < i { b } else { b + 1 };
                            assert(self.items@[a] == before[a0]);
                            assert(self.items@[b] == before[b0]);
                            assert(!stacks_with(before[a0], before[b0].name@, before[b0].item_type));
                        }
                    }
                } else {
                    proof {
                        assert forall|a: int, b: int|
                            0 <= a < b < self.items@.len() implies !stacks_with(
                            #[trigger] self.items@[a],
                            #[trigger] self.items@[b].name@,
                            self.items@[b].item_type,
                        ) by {
                            assert(!stacks_with(before[a], before[b].name@, before[b].item_type));
                        }
                    }
                }
                return Some(removed);
            }
            i += 1;
        }
        None
    }

    /// The number of slots in use.
    pub fn len(&self) -> (r: usize)
        ensures
            r == self.contents().len(),
    {
        self.items.len()
    }

    /// Whether no slot is in use.
    pub fn is_empty(&self) -> (r: bool)
        ensures
            r == (self.contents().len() == 0),
    {
        self.items.len() == 0
    }

    /// The most slots the inventory may hold.
    pub fn capacity(&self) -> (r: usize)
        ensures
            r == self.limit(),
    {
        self.capacity
    }

    /// All slots, in order.
    pub fn items(&self) -> (r: &[Item])
        ensures
            r@ == self.contents(),
    {
        self.items.as_slice()
    }

    /// Whether some slot holds an item with this name.
    pub fn has_item(&self, name: &str) -> (r: bool)
        ensures
            r == has_named(self.contents(), name@),
    {
        let mut i: usize = 0;
        while i < self.items.len()
            invariant
                i <= self.items@.len(),
                forall|j: int| 0 <= j < i ==> (#[trigger] self.items@[j]).name@ != name@,
            decreases self.items.len() - i,
        {
            if text_eq(&self.items[i].name, name) {
                return true;
            }
            i += 1;
        }
        false
    }

    /// The quantity in the first slot with this name, 0 when there is none.
    pub fn get_quantity(&self, name: &str) -> (r: u32)
        ensures
            r == quantity_of(self.contents(), name@),
    {
        let mut i: usize = 0;
        while i < self.items.len()
            invariant
                i <= self.items@.len(),
                forall|j: int| 0 <= j < i ==> (#[trigger] self.items@[j]).name@ != name@,
            decreases self.items.len() - i,
        {
            if text_eq(&self.items[i].name, name) {
                proof {
                    assert(first_named_at(self.items@, name@, i as int));
                    lemma_quantity_at(self.items@, name@, i as int);
                }
                return self.items[i].quantity;
            }
            i += 1;
        }
        0
    }
}

impl Default for Inventory {
    /// An empty inventory with room for fifty slots.
    fn default() -> (r: Self)
        ensures
            r.wf(),
            r.contents() == Seq::<Item>::empty(),
            r.limit() == 50,
    {
        Self::new(50)
    }
}

} // verus!
