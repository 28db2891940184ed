//! What an entity wears and holds, by equipment slot.
use vstd::prelude::*;

use super::player_inventory::empty_stack;
use super::stack::{spec_is_empty, ItemStack};

verus! {

/// The places an entity wears or holds items.
#[derive(Clone, Copy, Debug, PartialEq, Eq, Structural, Hash)]
pub enum EquipmentSlot {
    MainHand,
    OffHand,
    Feet,
    Legs,
    Chest,
    Head,
    Body,
}

/// The stack in an equipment slot: the one last put there, or nothing.
pub open spec fn lookup_slot(entries: Seq<(EquipmentSlot, ItemStack)>, slot: EquipmentSlot) -> Option<ItemStack>
    decreases entries.len(),
{
    if entries.len() == 0 {
        None
    } else if entries.last().0 == slot {
        Some(entries.last().1)
    } else {
        lookup_slot(entries.drop_last(), slot)
    }
}

/// The equipment of an entity: the stack in each slot that was given one.
pub struct EntityEquipment {
    pub equipment: Vec<(EquipmentSlot, ItemStack)>,
}

/// An entry for `slot` is found where it stands, when no slot has two.
proof fn lemma_lookup_at(entries: Seq<(EquipmentSlot, ItemStack)>, i: int)
    requires
        0 <= i < entries.len(),
        forall|a: int, b: int| 0 <= a < b < entries.len() ==> (#[trigger] entries[a]).0 != (#[trigger] entries[b]).0,
    ensures
        lookup_slot(entries, entries[i].0) == Some(entries[i].1),
    decreases entries.len(),
{
    if i < entries.len() - 1 {
        assert(entries[i].0 != entries[entries.len() - 1].0);
        let d = entries.drop_last();
        assert(d[i] == entries[i]);
        lemma_lookup_at(d, i);
    }
}

/// A slot without an entry holds nothing.
proof fn lemma_lookup_absent(entries: Seq<(EquipmentSlot, ItemStack)>, slot: EquipmentSlot)
    requires
        forall|j: int| 0 <= j < entries.len() ==> (#[trigger] entries[j]).0 != slot,
    ensures
        lookup_slot(entries, slot) is None,
    decreases entries.len(),
{
    if entries.len() > 0 {
        let d = entries.drop_last();
        assert forall|j: int| 0 <= j < d.len() implies (#[trigger] d[j]).0 != slot by {
            assert(d[j] == entries[j]);
        }
        lemma_lookup_absent(d, slot);
    }
}

impl EntityEquipment {
    /// No slot has two entries.
    pub open spec fn wf(&self) -> bool {
        forall|a: int, b: int|
            0 <= a < b < self.equipment@.len() ==> (#[trigger] self.equipment@[a]).0 != (
            #[trigger] self.equipment@[b]).0
    }

    /// The stack in each slot, as a map.
    pub open spec fn slots(&self) -> Map<EquipmentSlot, ItemStack> {
        Map::new(
            |s: EquipmentSlot| lookup_slot(self.equipment@, s) is Some,
            |s: EquipmentSlot| lookup_slot(self.equipment@, s)->Some_0,
        )
    }

    pub fn new() -> (r: Self)
        ensures
            r.wf(),
            r.slots() == Map::<EquipmentSlot, ItemStack>::empty(),
    {
        let r = EntityEquipment { equipment: Vec::new() };
        assert(r.slots() =~= Map::<EquipmentSlot, ItemStack>::empty());
        r
    }

    /// Puts a stack in a slot and returns what was there (the empty stack when
    /// nothing was). A slot that holds a stack has it replaced in place.
    pub fn put(&mut self, slot: &EquipmentSlot, stack: ItemStack) -> (r: ItemStack)
        requires
            old(self).wf(),
        ensures
            final(self).wf(),
            final(self).slots() == old(self).slots().insert(*slot, stack),
            r == if old(self).slots().contains_key(*slot) {
                old(self).slots()[*slot]
            } else {
                empty_stack()
            },
    {
        let mut i: usize = 0;
        while i < self.equipment.len()
            invariant
                self.equipment@ == old(self).equipment@,
                old(self).wf(),
                i <= self.equipment@.len(),
                forall|k: int| 0 <= k < i ==> (#[trigger] self.equipment@[k]).0 != *slot,
            decreases self.equipment.len() - i,
        {
            if self.equipment[i].0 == *slot {
                let previous = self.equipment[i].1;
                self.equipment.set(i, (*slot, stack));
                proof {
                    let e0 = old(self).equipment@;
                    let e1 = self.equipment@;
                    assert(self.wf()) by {
                        assert forall|a: int, b: int| 0 <= a < b < e1.len() implies (#[trigger] e1[a]).0
                            != (#[trigger] e1[b]).0 by {
                            assert(e0[a].0 != e0[b].0);
                        }
                    }
                    lemma_lookup_at(e0, i as int);
                    lemma_lookup_at(e1, i as int);
                    assert forall|k: EquipmentSlot| k != *slot implies lookup_slot(e1, k) == lookup_slot(e0, k) by {
                        if exists|j: int| 0 <= j < e0.len() && (#[trigger] e0[j]).0 == k {
                            let j = choose|j: int| 0 <= j < e0.len() && (#[trigger] e0[j]).0 == k;
                            lemma_lookup_at(e0, j);
                            lemma_lookup_at(e1, j);
                        } else {
                            lemma_lookup_absent(e0, k);
                            lemma_lookup_absent(e1, k);
                        }
                    }
                    assert(self.slots() =~= old(self).slots().insert(*slot, stack));
                }
                return previous;
            }
            i = i + 1;
        }
        proof {
            lemma_lookup_absent(old(self).equipment@, *slot);
        }
        self.equipment.push((*slot, stack));
        proof {
            assert(self.equipment@.drop_last() =~= old(self).equipment@);
            assert(self.wf()) by {
                let e1 = self.equipment@;
                assert forall|a: int, b: int| 0 <= a < b < e1.len() implies (#[trigger] e1[a]).0 != (#[trigger] e1[b]).0 by {
                    if b < e1.len() - 1 {
                        assert(old(self).equipment@[a].0 != old(self).equipment@[b].0);
                    }
                }
            }
            assert(self.slots() =~= old(self).slots().insert(*slot, stack));
        }
        ItemStack::empty()
    }

    /// The stack in a slot, or the empty stack.
    pub fn get(&self, slot: &EquipmentSlot) -> (r: ItemStack)
        ensures
            r == if self.slots().contains_key(*slot) {
                self.slots()[*slot]
            } else {
                empty_stack()
            },
    {
        let mut i = self.equipment.len();
        assert(self.equipment@.subrange(0, i as int) =~= self.equipment@);
        while i > 0
            invariant
                i <= self.equipment@.len(),
                lookup_slot(self.equipment@, *slot) == lookup_slot(self.equipment@.subrange(0, i as int), *slot),
            decreases i,
        {
            assert(self.equipment@.subrange(0, i as int).drop_last() =~= self.equipment@.subrange(0, i - 1));
            if self.equipment[i - 1].0 == *slot {
                return self.equipment[i - 1].1;
            }
            i = i - 1;
        }
        ItemStack::empty()
    }

    /// Whether every slot that was given a stack holds nothing.
    pub fn is_empty(&self) -> (r: bool)
        ensures
            r == forall|s: EquipmentSlot| #[trigger] self.slots().contains_key(s) ==> spec_is_empty(self.slots()[s]),
    {
        let r = self.get(&EquipmentSlot::MainHand).is_empty() && self.get(&EquipmentSlot::OffHand).is_empty()
            && self.get(&EquipmentSlot::Feet).is_empty() && self.get(&EquipmentSlot::Legs).is_empty()
            && self.get(&EquipmentSlot::Chest).is_empty() && self.get(&EquipmentSlot::Head).is_empty()
            && self.get(&EquipmentSlot::Body).is_empty();
        proof {
            assert(spec_is_empty(empty_stack()));
            if r {
                assert forall|s: EquipmentSlot| #[trigger] self.slots().contains_key(s) implies spec_is_empty(self.slots()[s]) by {
                    match s {
                        EquipmentSlot::MainHand => {},
                        EquipmentSlot::OffHand => {},
                        EquipmentSlot::Feet => {},
                        EquipmentSlot::Legs => {},
                        EquipmentSlot::Chest => {},
                        EquipmentSlot::Head => {},
                        EquipmentSlot::Body => {},
                    }
                }
            }
        }
        r
    }

    /// Removes every stack.
    pub fn clear(&mut self)
        ensures
            final(self).wf(),
            final(self).slots() == Map::<EquipmentSlot, ItemStack>::empty(),
    {
        self.equipment.clear();
        assert(self.slots() =~= Map::<EquipmentSlot, ItemStack>::empty());
    }
}

} // verus!
