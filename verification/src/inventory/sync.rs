//! Keeping a client's view of a window in step: what each slot was last
//! reported as, which changes are to be sent; the window's slot layout, and
//! closing it.
//! Sending is left to the caller; hashes come from the client, and whether
//! one matches a stack is computed by the network layer and passed in.
use vstd::prelude::*;

use super::player_inventory::{empty_stack, offer_rounds, offerable, OfferOutcome};
use super::stack::spec_is_empty;
use super::screen::{ScreenState, SlotKind, SlotRule};
use super::stack::ItemStack;
use super::window::ScreenProperty;

verus! {

/// A hash of a stack, as a client reports it.
#[derive(Clone, Copy, Debug, PartialEq, Eq, Structural)]
pub struct OptionalItemStackHash(pub u64);

/// What the client is known to show in a slot: the stack last sent or
/// received, or the hash it reported.
#[derive(Clone, Copy, Debug, PartialEq, Eq, Structural)]
pub struct TrackedStack {
    pub received_stack: Option<ItemStack>,
    pub received_hash: Option<OptionalItemStackHash>,
}

/// Whether the client shows `actual`: the stack it has is that stack, or the
/// hash it reported matches it (`hash_matches`, computed by the caller).
pub open spec fn spec_in_sync(t: TrackedStack, actual: ItemStack, hash_matches: bool) -> bool {
    match t.received_stack {
        Some(s) => s == actual,
        None => t.received_hash is Some && hash_matches,
    }
}

/// What is known after checking `actual`: a matching hash is replaced by the
/// stack.
pub open spec fn after_check(t: TrackedStack, actual: ItemStack, hash_matches: bool) -> TrackedStack {
    if t.received_stack is None && t.received_hash is Some && hash_matches {
        TrackedStack { received_stack: Some(actual), ..t }
    } else {
        t
    }
}

/// A slot whose client was sent a stack is in sync exactly when that stack is
/// the actual one in every field: item, components, maximum stack size, armor
/// fit and count.
pub proof fn law_sent_stack_in_sync_iff_equal(t: TrackedStack, actual: ItemStack, hash_matches: bool)
    requires
        t.received_stack is Some,
    ensures
        spec_in_sync(t, actual, hash_matches) <==> ({
            let s = t.received_stack->Some_0;
            &&& s.item == actual.item
            &&& s.components == actual.components
            &&& s.max_stack_size == actual.max_stack_size
            &&& s.armor == actual.armor
            &&& s.item_count == actual.item_count
        }),
{
}

impl TrackedStack {
    /// Nothing known.
    pub open spec fn empty_spec() -> TrackedStack {
        TrackedStack { received_stack: None, received_hash: None }
    }

    /// Nothing known.
    pub fn empty() -> (r: Self)
        ensures
            r == Self::empty_spec(),
    {
        TrackedStack { received_stack: None, received_hash: None }
    }

    pub fn set_received_stack(&mut self, stack: ItemStack)
        ensures
            final(self).received_stack == Some(stack),
            final(self).received_hash is None,
    {
        self.received_stack = Some(stack);
        self.received_hash = None;
    }

    pub fn set_received_hash(&mut self, hash: OptionalItemStackHash)
        ensures
            final(self).received_hash == Some(hash),
            final(self).received_stack is None,
    {
        self.received_hash = Some(hash);
        self.received_stack = None;
    }

    /// Whether the client shows `actual`; see `spec_in_sync`. A matching hash
    /// is replaced by the stack.
    pub fn is_in_sync(&mut self, actual_stack: &ItemStack, hash_matches: bool) -> (r: bool)
        ensures
            r == spec_in_sync(*old(self), *actual_stack, hash_matches),
            *final(self) == after_check(*old(self), *actual_stack, hash_matches),
    {
        if let Some(stack) = self.received_stack {
            return stack.are_equal(actual_stack);
        } else if self.received_hash.is_some() {
            if hash_matches {
                self.received_stack = Some(*actual_stack);
                return true;
            }
        }
        false
    }
}

/// What a window has told its listeners and its client, slot by slot.
pub struct ScreenSync {
    /// The stacks the listeners were last told of.
    pub tracked_stacks: Vec<ItemStack>,
    /// What the client is known to show in each slot.
    pub previous_tracked_stacks: Vec<TrackedStack>,
    /// What the client is known to hold on its cursor.
    pub previous_cursor_stack: TrackedStack,
    /// The property values last sent.
    pub tracked_property_values: Vec<i32>,
    /// While set, nothing is sent to the client.
    pub disable_sync: bool,
}

/// What the client will show of a slot after its stack is checked: unchanged
/// while syncing is off; else what is known when it is in step, and the stack
/// itself when it is not (it is then sent).
pub open spec fn after_slot_check(t: TrackedStack, actual: ItemStack, hash_matches: bool, disabled: bool) -> TrackedStack {
    if disabled {
        t
    } else if spec_in_sync(t, actual, hash_matches) {
        after_check(t, actual, hash_matches)
    } else {
        TrackedStack { received_stack: Some(actual), received_hash: None }
    }
}

/// Whether checking a slot sends its stack.
pub open spec fn slot_sent(t: TrackedStack, actual: ItemStack, hash_matches: bool, disabled: bool) -> bool {
    !disabled && !spec_in_sync(t, actual, hash_matches)
}

/// The indices below `n` at which `a` and `b` differ, in order.
pub open spec fn changed_indices(a: Seq<ItemStack>, b: Seq<ItemStack>, n: int) -> Seq<usize>
    decreases n,
{
    if n <= 0 {
        Seq::empty()
    } else if a[n - 1] != b[n - 1] {
        changed_indices(a, b, n - 1).push((n - 1) as usize)
    } else {
        changed_indices(a, b, n - 1)
    }
}

/// The indices below `n` of the slots whose stacks are sent, in order.
pub open spec fn sent_indices(
    known: Seq<TrackedStack>,
    stacks: Seq<ItemStack>,
    hash_matches: Seq<bool>,
    disabled: bool,
    n: int,
) -> Seq<usize>
    decreases n,
{
    if n <= 0 {
        Seq::empty()
    } else if slot_sent(known[n - 1], stacks[n - 1], hash_matches[n - 1], disabled) {
        sent_indices(known, stacks, hash_matches, disabled, n - 1).push((n - 1) as usize)
    } else {
        sent_indices(known, stacks, hash_matches, disabled, n - 1)
    }
}

/// The changes found by a round of content updates: the slots whose listeners
/// are told of a new stack, the slots whose stacks are sent to the client (each
/// with the next revision), and whether the cursor is sent.
pub struct ContentUpdates {
    pub changed_slots: Vec<usize>,
    pub sent_slots: Vec<usize>,
    pub cursor_sent: bool,
}

impl ScreenSync {
    /// A slot is tracked for every slot of the window.
    pub open spec fn wf(&self) -> bool {
        self.tracked_stacks@.len() == self.previous_tracked_stacks@.len()
    }

    /// Nothing tracked yet.
    pub fn new() -> (r: Self)
        ensures
            r.wf(),
            r.tracked_stacks@.len() == 0,
            r.previous_tracked_stacks@.len() == 0,
            r.previous_cursor_stack == TrackedStack::empty_spec(),
            r.tracked_property_values@.len() == 0,
            !r.disable_sync,
    {
        ScreenSync {
            tracked_stacks: Vec::new(),
            previous_tracked_stacks: Vec::new(),
            previous_cursor_stack: TrackedStack::empty(),
            tracked_property_values: Vec::new(),
            disable_sync: false,
        }
    }

    /// Tracks one more slot, known to show nothing; returns its id.
    pub fn add_slot(&mut self) -> (id: usize)
        requires
            old(self).wf(),
            old(self).tracked_stacks@.len() < usize::MAX,
        ensures
            final(self).wf(),
            id == old(self).tracked_stacks@.len(),
            final(self).tracked_stacks@ == old(self).tracked_stacks@.push(empty_stack()),
            final(self).previous_tracked_stacks@ == old(self).previous_tracked_stacks@.push(
                TrackedStack::empty_spec(),
            ),
            final(self).previous_cursor_stack == old(self).previous_cursor_stack,
            final(self).tracked_property_values@ == old(self).tracked_property_values@,
            final(self).disable_sync == old(self).disable_sync,
    {
        let id = self.tracked_stacks.len();
        self.tracked_stacks.push(ItemStack::empty());
        self.previous_tracked_stacks.push(TrackedStack::empty());
        id
    }

    /// Tracks one more property, last sent as 0.
    pub fn add_property(&mut self)
        ensures
            final(self).tracked_property_values@ == old(self).tracked_property_values@.push(0),
            final(self).tracked_stacks@ == old(self).tracked_stacks@,
            final(self).previous_tracked_stacks@ == old(self).previous_tracked_stacks@,
            final(self).previous_cursor_stack == old(self).previous_cursor_stack,
            final(self).disable_sync == old(self).disable_sync,
    {
        self.tracked_property_values.push(0);
    }

    /// Records the slot's stack for the listeners; whether it changed (the
    /// listeners are then told).
    pub fn update_tracked_slot(&mut self, slot: usize, stack: ItemStack) -> (changed: bool)
        requires
            slot < old(self).tracked_stacks@.len(),
        ensures
            changed == (old(self).tracked_stacks@[slot as int] != stack),
            final(self).tracked_stacks@ == old(self).tracked_stacks@.update(slot as int, stack),
            final(self).previous_tracked_stacks@ == old(self).previous_tracked_stacks@,
            final(self).previous_cursor_stack == old(self).previous_cursor_stack,
            final(self).tracked_property_values@ == old(self).tracked_property_values@,
            final(self).disable_sync == old(self).disable_sync,
    {
        if !self.tracked_stacks[slot].are_equal(&stack) {
            self.tracked_stacks.set(slot, stack);
            true
        } else {
            proof {
                assert(self.tracked_stacks@ =~= old(self).tracked_stacks@.update(slot as int, stack));
            }
            false
        }
    }

    /// Checks the slot's stack against what the client shows; whether it is
    /// to be sent (with the next revision).
    pub fn check_slot_updates(&mut self, slot: usize, stack: ItemStack, hash_matches: bool) -> (send: bool)
        requires
            slot < old(self).previous_tracked_stacks@.len(),
        ensures
            send == slot_sent(old(self).previous_tracked_stacks@[slot as int], stack, hash_matches, old(self).disable_sync),
            final(self).previous_tracked_stacks@ == old(self).previous_tracked_stacks@.update(
                slot as int,
                after_slot_check(old(self).previous_tracked_stacks@[slot as int], stack, hash_matches, old(self).disable_sync),
            ),
            final(self).tracked_stacks@ == old(self).tracked_stacks@,
            final(self).previous_cursor_stack == old(self).previous_cursor_stack,
            final(self).tracked_property_values@ == old(self).tracked_property_values@,
            final(self).disable_sync == old(self).disable_sync,
    {
        if self.disable_sync {
            proof {
                assert(self.previous_tracked_stacks@ =~= old(self).previous_tracked_stacks@.update(
                    slot as int,
                    old(self).previous_tracked_stacks@[slot as int],
                ));
            }
            return false;
        }
        let mut known = self.previous_tracked_stacks[slot];
        let in_sync = known.is_in_sync(&stack, hash_matches);
        if !in_sync {
            known.set_received_stack(stack);
        }
        self.previous_tracked_stacks.set(slot, known);
        !in_sync
    }

    /// Checks the cursor's stack against what the client holds; whether it is
    /// to be sent.
    pub fn check_cursor_stack_updates(&mut self, cursor: ItemStack, hash_matches: bool) -> (send: bool)
        ensures
            send == slot_sent(old(self).previous_cursor_stack, cursor, hash_matches, old(self).disable_sync),
            final(self).previous_cursor_stack == after_slot_check(
                old(self).previous_cursor_stack,
                cursor,
                hash_matches,
                old(self).disable_sync,
            ),
            final(self).tracked_stacks@ == old(self).tracked_stacks@,
            final(self).previous_tracked_stacks@ == old(self).previous_tracked_stacks@,
            final(self).tracked_property_values@ == old(self).tracked_property_values@,
            final(self).disable_sync == old(self).disable_sync,
    {
        if self.disable_sync {
            return false;
        }
        let in_sync = self.previous_cursor_stack.is_in_sync(&cursor, hash_matches);
        if !in_sync {
            self.previous_cursor_stack.set_received_stack(cursor);
        }
        !in_sync
    }

    /// Records a hash the client reported for a slot; false, and nothing
    /// recorded, when there is no such slot.
    pub fn set_received_hash(&mut self, slot: usize, hash: OptionalItemStackHash) -> (recorded: bool)
        ensures
            recorded == (slot < old(self).previous_tracked_stacks@.len()),
            recorded ==> final(self).previous_tracked_stacks@ == old(self).previous_tracked_stacks@.update(
                slot as int,
                TrackedStack { received_stack: None, received_hash: Some(hash) },
            ),
            !recorded ==> final(self).previous_tracked_stacks@ == old(self).previous_tracked_stacks@,
            final(self).tracked_stacks@ == old(self).tracked_stacks@,
            final(self).previous_cursor_stack == old(self).previous_cursor_stack,
            final(self).tracked_property_values@ == old(self).tracked_property_values@,
            final(self).disable_sync == old(self).disable_sync,
    {
        if slot < self.previous_tracked_stacks.len() {
            let mut known = self.previous_tracked_stacks[slot];
            known.set_received_hash(hash);
            self.previous_tracked_stacks.set(slot, known);
            true
        } else {
            false
        }
    }

    /// Records a stack the client is known to show in a slot.
    pub fn set_received_stack(&mut self, slot: usize, stack: ItemStack)
        requires
            slot < old(self).previous_tracked_stacks@.len(),
        ensures
            final(self).previous_tracked_stacks@ == old(self).previous_tracked_stacks@.update(
                slot as int,
                TrackedStack { received_stack: Some(stack), received_hash: None },
            ),
            final(self).tracked_stacks@ == old(self).tracked_stacks@,
            final(self).previous_cursor_stack == old(self).previous_cursor_stack,
            final(self).tracked_property_values@ == old(self).tracked_property_values@,
            final(self).disable_sync == old(self).disable_sync,
    {
        let mut known = self.previous_tracked_stacks[slot];
        known.set_received_stack(stack);
        self.previous_tracked_stacks.set(slot, known);
    }

    /// Records a hash the client reported for its cursor.
    pub fn set_received_cursor_hash(&mut self, hash: OptionalItemStackHash)
        ensures
            final(self).previous_cursor_stack == (TrackedStack { received_stack: None, received_hash: Some(hash) }),
            final(self).tracked_stacks@ == old(self).tracked_stacks@,
            final(self).previous_tracked_stacks@ == old(self).previous_tracked_stacks@,
            final(self).tracked_property_values@ == old(self).tracked_property_values@,
            final(self).disable_sync == old(self).disable_sync,
    {
        self.previous_cursor_stack.set_received_hash(hash);
    }

    /// Records that the client is sent the whole window: every slot's stack,
    /// the cursor and the property values (sent with the next revision).
    pub fn sync_state(&mut self, stacks: &Vec<ItemStack>, cursor: ItemStack, properties: &Vec<ScreenProperty>)
        requires
            old(self).wf(),
            stacks@.len() == old(self).previous_tracked_stacks@.len(),
            properties@.len() <= old(self).tracked_property_values@.len(),
        ensures
            final(self).wf(),
            final(self).previous_tracked_stacks@ == stacks@.map_values(
                |s: ItemStack| TrackedStack { received_stack: Some(s), received_hash: None },
            ),
            final(self).previous_cursor_stack == (TrackedStack { received_stack: Some(cursor), received_hash: None }),
            final(self).tracked_property_values@.len() == old(self).tracked_property_values@.len(),
            forall|i: int| 0 <= i < properties@.len() ==> #[trigger] final(self).tracked_property_values@[i]
                == properties@[i].value,
            forall|i: int| properties@.len() <= i < old(self).tracked_property_values@.len()
                ==> #[trigger] final(self).tracked_property_values@[i] == old(self).tracked_property_values@[i],
            final(self).tracked_stacks@ == old(self).tracked_stacks@,
            final(self).disable_sync == old(self).disable_sync,
    {
        let mut i: usize = 0;
        while i < stacks.len()
            invariant
                i <= stacks@.len(),
                stacks@.len() == self.previous_tracked_stacks@.len(),
                self.tracked_stacks@ == old(self).tracked_stacks@,
                self.tracked_property_values@ == old(self).tracked_property_values@,
                self.previous_cursor_stack == old(self).previous_cursor_stack,
                self.disable_sync == old(self).disable_sync,
                forall|k: int| 0 <= k < i ==> #[trigger] self.previous_tracked_stacks@[k] == (TrackedStack {
                    received_stack: Some(stacks@[k]),
                    received_hash: None,
                }),
            decreases stacks.len() - i,
        {
            self.set_received_stack(i, stacks[i]);
            i = i + 1;
        }
        assert(self.previous_tracked_stacks@ =~= stacks@.map_values(
            |s: ItemStack| TrackedStack { received_stack: Some(s), received_hash: None },
        ));
        self.previous_cursor_stack.set_received_stack(cursor);
        let mut p: usize = 0;
        while p < properties.len()
            invariant
                p <= properties@.len(),
                properties@.len() <= self.tracked_property_values@.len(),
                self.tracked_property_values@.len() == old(self).tracked_property_values@.len(),
                forall|k: int| 0 <= k < p ==> #[trigger] self.tracked_property_values@[k] == properties@[k].value,
                forall|k: int| p <= k < self.tracked_property_values@.len() ==> #[trigger] self.tracked_property_values@[k]
                    == old(self).tracked_property_values@[k],
                self.previous_tracked_stacks@ == stacks@.map_values(
                    |s: ItemStack| TrackedStack { received_stack: Some(s), received_hash: None },
                ),
                self.previous_cursor_stack == (TrackedStack { received_stack: Some(cursor), received_hash: None }),
                self.tracked_stacks@ == old(self).tracked_stacks@,
                self.disable_sync == old(self).disable_sync,
                stacks@.len() == old(self).previous_tracked_stacks@.len(),
                old(self).wf(),
            decreases properties.len() - p,
        {
            let value = properties[p].get();
            self.tracked_property_values.set(p, value);
            p = p + 1;
        }
    }

    /// A round of content updates: every slot's stack is recorded for the
    /// listeners and checked against the client, then the cursor is.
    /// `hash_matches[i]` tells whether the hash the client reported for slot
    /// `i` matches `stacks[i]`.
    pub fn send_content_updates(
        &mut self,
        stacks: &Vec<ItemStack>,
        hash_matches: &Vec<bool>,
        cursor: ItemStack,
        cursor_hash_matches: bool,
    ) -> (r: ContentUpdates)
        requires
            old(self).wf(),
            stacks@.len() == old(self).tracked_stacks@.len(),
            hash_matches@.len() == stacks@.len(),
        ensures
            final(self).wf(),
            final(self).tracked_stacks@ == stacks@,
            r.changed_slots@ == changed_indices(old(self).tracked_stacks@, stacks@, stacks@.len() as int),
            final(self).previous_tracked_stacks@ == known_after_round(
                old(self).previous_tracked_stacks@,
                stacks@,
                hash_matches@,
                old(self).disable_sync,
            ),
            r.sent_slots@ == sent_indices(
                old(self).previous_tracked_stacks@,
                stacks@,
                hash_matches@,
                old(self).disable_sync,
                stacks@.len() as int,
            ),
            r.cursor_sent == slot_sent(old(self).previous_cursor_stack, cursor, cursor_hash_matches, old(self).disable_sync),
            final(self).previous_cursor_stack == after_slot_check(
                old(self).previous_cursor_stack,
                cursor,
                cursor_hash_matches,
                old(self).disable_sync,
            ),
            final(self).tracked_property_values@ == old(self).tracked_property_values@,
            final(self).disable_sync == old(self).disable_sync,
    {
        let mut changed_slots: Vec<usize> = Vec::new();
        let mut sent_slots: Vec<usize> = Vec::new();
        let mut i: usize = 0;
        while i < stacks.len()
            invariant
                i <= stacks@.len(),
                stacks@.len() == old(self).tracked_stacks@.len(),
                hash_matches@.len() == stacks@.len(),
                self.tracked_stacks@.len() == stacks@.len(),
                self.previous_tracked_stacks@.len() == stacks@.len(),
                self.previous_cursor_stack == old(self).previous_cursor_stack,
                self.tracked_property_values@ == old(self).tracked_property_values@,
                self.disable_sync == old(self).disable_sync,
                forall|k: int| 0 <= k < i ==> #[trigger] self.tracked_stacks@[k] == stacks@[k],
                forall|k: int| i <= k < stacks@.len() ==> #[trigger] self.tracked_stacks@[k] == old(self).tracked_stacks@[k],
                forall|k: int| 0 <= k < i ==> #[trigger] self.previous_tracked_stacks@[k] == after_slot_check(
                    old(self).previous_tracked_stacks@[k],
                    stacks@[k],
                    hash_matches@[k],
                    old(self).disable_sync,
                ),
                forall|k: int| i <= k < stacks@.len() ==> #[trigger] self.previous_tracked_stacks@[k]
                    == old(self).previous_tracked_stacks@[k],
                changed_slots@ == changed_indices(old(self).tracked_stacks@, stacks@, i as int),
                sent_slots@ == sent_indices(
                    old(self).previous_tracked_stacks@,
                    stacks@,
                    hash_matches@,
                    old(self).disable_sync,
                    i as int,
                ),
            decreases stacks.len() - i,
        {
            let stack = stacks[i];
            if self.update_tracked_slot(i, stack) {
                changed_slots.push(i);
            }
            if self.check_slot_updates(i, stack, hash_matches[i]) {
                sent_slots.push(i);
            }
            i = i + 1;
        }
        assert(self.tracked_stacks@ =~= stacks@);
        assert(self.previous_tracked_stacks@ =~= known_after_round(
            old(self).previous_tracked_stacks@,
            stacks@,
            hash_matches@,
            old(self).disable_sync,
        ));
        let cursor_sent = self.check_cursor_stack_updates(cursor, cursor_hash_matches);
        ContentUpdates { changed_slots, sent_slots, cursor_sent }
    }

    /// Tells the listeners of every slot's stack and then sends the whole
    /// window; the slots whose listeners are told of a change.
    pub fn update_to_client(&mut self, stacks: &Vec<ItemStack>, cursor: ItemStack, properties: &Vec<ScreenProperty>) -> (changed: Vec<usize>)
        requires
            old(self).wf(),
            stacks@.len() == old(self).tracked_stacks@.len(),
            properties@.len() <= old(self).tracked_property_values@.len(),
        ensures
            final(self).wf(),
            final(self).tracked_stacks@ == stacks@,
            changed@ == changed_indices(old(self).tracked_stacks@, stacks@, stacks@.len() as int),
            final(self).previous_tracked_stacks@ == stacks@.map_values(
                |s: ItemStack| TrackedStack { received_stack: Some(s), received_hash: None },
            ),
            final(self).previous_cursor_stack == (TrackedStack { received_stack: Some(cursor), received_hash: None }),
            forall|i: int| 0 <= i < properties@.len() ==> #[trigger] final(self).tracked_property_values@[i]
                == properties@[i].value,
            final(self).disable_sync == old(self).disable_sync,
    {
        let mut changed: Vec<usize> = Vec::new();
        let mut i: usize = 0;
        while i < stacks.len()
            invariant
                i <= stacks@.len(),
                stacks@.len() == old(self).tracked_stacks@.len(),
                self.wf(),
                self.tracked_stacks@.len() == stacks@.len(),
                self.tracked_property_values@ == old(self).tracked_property_values@,
                self.disable_sync == old(self).disable_sync,
                properties@.len() <= old(self).tracked_property_values@.len(),
                forall|k: int| 0 <= k < i ==> #[trigger] self.tracked_stacks@[k] == stacks@[k],
                forall|k: int| i <= k < stacks@.len() ==> #[trigger] self.tracked_stacks@[k] == old(self).tracked_stacks@[k],
                changed@ == changed_indices(old(self).tracked_stacks@, stacks@, i as int),
            decreases stacks.len() - i,
        {
            if self.update_tracked_slot(i, stacks[i]) {
                changed.push(i);
            }
            i = i + 1;
        }
        assert(self.tracked_stacks@ =~= stacks@);
        self.sync_state(stacks, cursor, properties);
        changed
    }
}

/// The slots over the player's stacks `from` to `from + n - 1`, in order,
/// each holding up to `max_count` items; the player's stacks follow the
/// window's `own_len` own ones.
pub open spec fn player_slot_rules(own_len: int, from: int, n: int, max_count: u8) -> Seq<SlotRule> {
    Seq::new(n as nat, |k: int| SlotRule { stack_index: (own_len + from + k) as usize, kind: SlotKind::Normal { max_count } })
}

impl ScreenState {
    /// Adds a slot to the window; returns its id.
    pub fn add_slot(&mut self, rule: SlotRule) -> (id: usize)
        requires
            old(self).wf(),
            rule.stack_index < old(self).own@.len() + 41,
        ensures
            final(self).kind == old(self).kind,
            final(self).recipes@ == old(self).recipes@,
            final(self).recipe_cache == old(self).recipe_cache,
            final(self).revision == old(self).revision,
            final(self).wf(),
            id == old(self).slots@.len(),
            final(self).slots@ == old(self).slots@.push(rule),
            final(self).own@ == old(self).own@,
            final(self).player == old(self).player,
            final(self).cursor == old(self).cursor,
            final(self).drag_slots@ == old(self).drag_slots@,
            final(self).revision == old(self).revision,
    {
        let id = self.slots.len();
        self.slots.push(rule);
        id
    }

    /// Adds the slots of the player's hotbar (its stacks 0 to 8).
    pub fn add_player_hotbar_slots(&mut self, max_count: u8)
        requires
            old(self).wf(),
            old(self).own@.len() + 41 <= usize::MAX,
        ensures
            final(self).kind == old(self).kind,
            final(self).recipes@ == old(self).recipes@,
            final(self).recipe_cache == old(self).recipe_cache,
            final(self).revision == old(self).revision,
            final(self).wf(),
            final(self).slots@ == old(self).slots@ + player_slot_rules(old(self).own@.len() as int, 0, 9, max_count),
            final(self).own@ == old(self).own@,
            final(self).player == old(self).player,
            final(self).cursor == old(self).cursor,
            final(self).drag_slots@ == old(self).drag_slots@,
            final(self).revision == old(self).revision,
    {
        self.add_player_range(0, 9, max_count);
    }

    /// Adds the slots of the player's main inventory (its stacks 9 to 35), row
    /// by row.
    pub fn add_player_inventory_slots(&mut self, max_count: u8)
        requires
            old(self).wf(),
            old(self).own@.len() + 41 <= usize::MAX,
        ensures
            final(self).kind == old(self).kind,
            final(self).recipes@ == old(self).recipes@,
            final(self).recipe_cache == old(self).recipe_cache,
            final(self).revision == old(self).revision,
            final(self).wf(),
            final(self).slots@ == old(self).slots@ + player_slot_rules(old(self).own@.len() as int, 9, 27, max_count),
            final(self).own@ == old(self).own@,
            final(self).player == old(self).player,
            final(self).cursor == old(self).cursor,
            final(self).drag_slots@ == old(self).drag_slots@,
            final(self).revision == old(self).revision,
    {
        self.add_player_range(9, 27, max_count);
    }

    /// Adds the player's main inventory, then the hotbar.
    pub fn add_player_slots(&mut self, max_count: u8)
        requires
            old(self).wf(),
            old(self).own@.len() + 41 <= usize::MAX,
        ensures
            final(self).kind == old(self).kind,
            final(self).recipes@ == old(self).recipes@,
            final(self).recipe_cache == old(self).recipe_cache,
            final(self).revision == old(self).revision,
            final(self).wf(),
            final(self).slots@ == old(self).slots@ + player_slot_rules(old(self).own@.len() as int, 9, 27, max_count)
                + player_slot_rules(old(self).own@.len() as int, 0, 9, max_count),
            final(self).own@ == old(self).own@,
            final(self).player == old(self).player,
            final(self).cursor == old(self).cursor,
            final(self).drag_slots@ == old(self).drag_slots@,
            final(self).revision == old(self).revision,
    {
        self.add_player_inventory_slots(max_count);
        self.add_player_hotbar_slots(max_count);
    }

    /// Adds slots over the player's stacks `from` to `from + n - 1`.
    fn add_player_range(&mut self, from: usize, n: usize, max_count: u8)
        requires
            old(self).wf(),
            from + n <= 36,
            old(self).own@.len() + 41 <= usize::MAX,
        ensures
            final(self).kind == old(self).kind,
            final(self).recipes@ == old(self).recipes@,
            final(self).recipe_cache == old(self).recipe_cache,
            final(self).revision == old(self).revision,
            final(self).wf(),
            final(self).slots@ == old(self).slots@ + player_slot_rules(old(self).own@.len() as int, from as int, n as int, max_count),
            final(self).own@ == old(self).own@,
            final(self).player == old(self).player,
            final(self).cursor == old(self).cursor,
            final(self).drag_slots@ == old(self).drag_slots@,
            final(self).revision == old(self).revision,
    {
        let own_len = self.own.len();
        let mut k: usize = 0;
        while k < n
            invariant
                k <= n,
                from + n <= 36,
                own_len == old(self).own@.len(),
                own_len + 41 <= usize::MAX,
                self.kind == old(self).kind,
                self.recipes@ == old(self).recipes@,
                self.recipe_cache == old(self).recipe_cache,
                self.revision == old(self).revision,
                self.wf(),
                self.slots@ == old(self).slots@ + player_slot_rules(own_len as int, from as int, k as int, max_count),
                self.own@ == old(self).own@,
                self.player == old(self).player,
                self.cursor == old(self).cursor,
                self.drag_slots@ == old(self).drag_slots@,
                self.revision == old(self).revision,
            decreases n - k,
        {
            let rule = SlotRule { stack_index: own_len + from + k, kind: SlotKind::Normal { max_count } };
            self.add_slot(rule);
            k = k + 1;
            assert(self.slots@ =~= old(self).slots@ + player_slot_rules(own_len as int, from as int, k as int, max_count));
        }
    }

    /// Closing the window: the stack on the cursor is offered to the player's
    /// inventory (what does not fit is to be dropped) and the cursor emptied.
    pub fn default_on_closed(&mut self) -> (r: OfferOutcome)
        requires
            old(self).wf(),
            offerable(old(self).player.slots(), old(self).cursor) || spec_is_empty(old(self).cursor),
        ensures
            final(self).kind == old(self).kind,
            final(self).recipes@ == old(self).recipes@,
            final(self).recipe_cache == old(self).recipe_cache,
            final(self).revision == old(self).revision,
            final(self).wf(),
            ({
                let (slots, n, d) = offer_rounds(
                    old(self).player.slots(),
                    old(self).player.selected_slot as int,
                    old(self).cursor,
                    true,
                );
                &&& final(self).player.slots() == slots
                &&& r.notifications@ == n
                &&& r.dropped == d
            }),
            final(self).player.selected_slot == old(self).player.selected_slot,
            final(self).cursor == if spec_is_empty(old(self).cursor) {
                old(self).cursor
            } else {
                empty_stack()
            },
            final(self).own@ == old(self).own@,
            final(self).slots@ == old(self).slots@,
            final(self).drag_slots@ == old(self).drag_slots@,
            final(self).revision == old(self).revision,
    {
        if !self.cursor.is_empty() {
            let cursor = self.cursor;
            let r = self.player.offer_or_drop_stack(cursor);
            self.cursor = ItemStack::empty();
            r
        } else {
            OfferOutcome { notifications: Vec::new(), dropped: None }
        }
    }

    /// The first slot that shows stack `stack_index`.
    pub fn get_slot_index(&self, stack_index: usize) -> (r: Option<usize>)
        ensures
            match r {
                Some(i) => i < self.slots@.len() && self.slots@[i as int].stack_index == stack_index && forall|k: int|
                    0 <= k < i ==> #[trigger] self.slots@[k].stack_index != stack_index,
                None => forall|k: int| 0 <= k < self.slots@.len() ==> #[trigger] self.slots@[k].stack_index != stack_index,
            },
    {
        let mut i: usize = 0;
        while i < self.slots.len()
            invariant
                i <= self.slots@.len(),
                forall|k: int| 0 <= k < i ==> #[trigger] self.slots@[k].stack_index != stack_index,
            decreases self.slots.len() - i,
        {
            if self.slots[i].stack_index == stack_index {
                return Some(i);
            }
            i = i + 1;
        }
        None
    }
}

/// The stacks the client is known to show after a round of content updates.
pub open spec fn known_after_round(
    known: Seq<TrackedStack>,
    stacks: Seq<ItemStack>,
    hash_matches: Seq<bool>,
    disabled: bool,
) -> Seq<TrackedStack> {
    Seq::new(stacks.len(), |i: int| after_slot_check(known[i], stacks[i], hash_matches[i], disabled))
}

proof fn lemma_nothing_changed(stacks: Seq<ItemStack>, n: int)
    requires
        n <= stacks.len(),
    ensures
        changed_indices(stacks, stacks, n) == Seq::<usize>::empty(),
    decreases n,
{
    if n > 0 {
        lemma_nothing_changed(stacks, n - 1);
    }
}

proof fn lemma_nothing_sent(
    known: Seq<TrackedStack>,
    stacks: Seq<ItemStack>,
    hash_matches: Seq<bool>,
    disabled: bool,
    n: int,
)
    requires
        n <= stacks.len(),
        n <= known.len(),
        forall|i: int| 0 <= i < n ==> !#[trigger] slot_sent(known[i], stacks[i], hash_matches[i], disabled),
    ensures
        sent_indices(known, stacks, hash_matches, disabled, n) == Seq::<usize>::empty(),
    decreases n,
{
    if n > 0 {
        lemma_nothing_sent(known, stacks, hash_matches, disabled, n - 1);
    }
}

/// Once a round of content updates has run, another round over the same
/// stacks and cursor tells the listeners nothing and sends the client nothing,
/// whatever hashes were reported in between: every slot and the cursor are
/// then known to show their stacks.
pub proof fn law_content_updates_settle(
    known: Seq<TrackedStack>,
    stacks: Seq<ItemStack>,
    hash_matches: Seq<bool>,
    later_matches: Seq<bool>,
    cursor_known: TrackedStack,
    cursor: ItemStack,
    cursor_matches: bool,
    later_cursor_matches: bool,
    disabled: bool,
)
    requires
        known.len() == stacks.len(),
        hash_matches.len() == stacks.len(),
        later_matches.len() == stacks.len(),
    ensures
        changed_indices(stacks, stacks, stacks.len() as int) == Seq::<usize>::empty(),
        sent_indices(
            known_after_round(known, stacks, hash_matches, disabled),
            stacks,
            later_matches,
            disabled,
            stacks.len() as int,
        ) == Seq::<usize>::empty(),
        !slot_sent(
            after_slot_check(cursor_known, cursor, cursor_matches, disabled),
            cursor,
            later_cursor_matches,
            disabled,
        ),
{
    lemma_nothing_changed(stacks, stacks.len() as int);
    let known2 = known_after_round(known, stacks, hash_matches, disabled);
    assert forall|i: int| 0 <= i < stacks.len() implies !#[trigger] slot_sent(
        known2[i],
        stacks[i],
        later_matches[i],
        disabled,
    ) by {}
    lemma_nothing_sent(known2, stacks, later_matches, disabled, stacks.len() as int);
}

} // verus!
