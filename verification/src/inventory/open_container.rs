//! Containers that players have open, and the containers themselves.
use vstd::prelude::*;

use super::stack::ItemStack;

verus! {

/// A block position.
#[derive(Clone, Copy, Debug, PartialEq, Eq, Structural)]
pub struct BlockPos {
    pub x: i32,
    pub y: i32,
    pub z: i32,
}

/// A container with the players that have it open and where it stands.
pub struct OpenContainer<C> {
    pub players: Vec<i32>,
    pub container: C,
    pub location: Option<BlockPos>,
}

impl<C> OpenContainer<C> {
    /// The container, for a player that has it open.
    pub fn try_open(&self, player_id: i32) -> (r: Option<&C>)
        ensures
            r is Some <==> self.players@.contains(player_id),
            r is Some ==> *r->Some_0 == self.container,
    {
        let mut i: usize = 0;
        while i < self.players.len()
            invariant
                i <= self.players@.len(),
                forall|k: int| 0 <= k < i ==> #[trigger] self.players@[k] != player_id,
            decreases self.players.len() - i,
        {
            if self.players[i] == player_id {
                return Some(&self.container);
            }
            i = i + 1;
        }
        None
    }

    /// Whether the player has the container open.
    fn has_player(&self, player_id: i32) -> (r: bool)
        ensures
            r == self.players@.contains(player_id),
    {
        let mut i: usize = 0;
        while i < self.players.len()
            invariant
                i <= self.players@.len(),
                forall|k: int| 0 <= k < i ==> #[trigger] self.players@[k] != player_id,
            decreases self.players.len() - i,
        {
            if self.players[i] == player_id {
                return true;
            }
            i = i + 1;
        }
        false
    }

    /// Records that the player has the container open.
    pub fn add_player(&mut self, player_id: i32)
        ensures
            final(self).players@ == if old(self).players@.contains(player_id) {
                old(self).players@
            } else {
                old(self).players@.push(player_id)
            },
            final(self).location == old(self).location,
    {
        if !self.has_player(player_id) {
            self.players.push(player_id);
        }
    }

    /// Forgets the first record of the player.
    pub fn remove_player(&mut self, player_id: i32)
        ensures
            !old(self).players@.contains(player_id) ==> final(self).players@ == old(self).players@,
            old(self).players@.contains(player_id) ==> exists|i: int|
                0 <= i < old(self).players@.len() && old(self).players@[i] == player_id
                && (forall|k: int| 0 <= k < i ==> old(self).players@[k] != player_id)
                && final(self).players@ == old(self).players@.remove(i),
            final(self).location == old(self).location,
    {
        let mut i: usize = 0;
        while i < self.players.len()
            invariant
                i <= self.players@.len(),
                self.players@ == old(self).players@,
                self.location == old(self).location,
                forall|k: int| 0 <= k < i ==> #[trigger] self.players@[k] != player_id,
            decreases self.players.len() - i,
        {
            if self.players[i] == player_id {
                self.players.remove(i);
                return;
            }
            i = i + 1;
        }
    }

    /// A container opened by one player.
    pub fn new_empty_container(player_id: i32, location: Option<BlockPos>, container: C) -> (r: Self)
        ensures
            r.players@ == seq![player_id],
            r.location == location,
            r.container == container,
    {
        let mut players: Vec<i32> = Vec::new();
        players.push(player_id);
        OpenContainer { players, container, location }
    }

    /// Whether the container stands at the position.
    pub fn is_location(&self, try_position: BlockPos) -> (r: bool)
        ensures
            r == (self.location == Some(try_position)),
    {
        match self.location {
            Some(location) => location == try_position,
            None => false,
        }
    }

    pub fn clear_all_players(&mut self)
        ensures
            final(self).players@.len() == 0,
            final(self).location == old(self).location,
    {
        self.players.clear();
    }

    pub fn get_number_of_players(&self) -> (r: usize)
        ensures
            r == self.players@.len(),
    {
        self.players.len()
    }

    pub fn get_location(&self) -> (r: Option<BlockPos>)
        ensures
            r == self.location,
    {
        self.location
    }

    pub fn set_location(&mut self, location: Option<BlockPos>)
        ensures
            final(self).location == location,
            final(self).players@ == old(self).players@,
    {
        self.location = location;
    }
}

/// A crafting table: the output slot, then the 3 by 3 grid row by row.
pub struct CraftingTable {
    pub input: Vec<Option<ItemStack>>,
    pub output: Option<ItemStack>,
}

impl CraftingTable {
    pub const SLOT_OUTPUT: usize = 0;
    pub const SLOT_INPUT_START: usize = 1;
    pub const SLOT_INPUT_END: usize = 9;

    /// Clears the output (no recipe is matched here) and tells whether anything
    /// changed or the grid holds anything.
    pub fn craft(&mut self) -> (r: bool)
        ensures
            final(self).output is None,
            final(self).input@ == old(self).input@,
            r == (old(self).output is Some || exists|i: int| 0 <= i < old(self).input@.len() && #[trigger] old(self).input@[i] is Some),
    {
        let mut any = false;
        let mut i: usize = 0;
        while i < self.input.len()
            invariant
                i <= self.input@.len(),
                any == exists|k: int| 0 <= k < i && #[trigger] self.input@[k] is Some,
            decreases self.input.len() - i,
        {
            if self.input[i].is_some() {
                any = true;
            }
            i = i + 1;
        }
        let result = self.output.is_some() || any;
        self.output = None;
        result
    }

    pub fn crafting_output_slot(&self) -> (r: Option<usize>)
        ensures
            r == Some(Self::SLOT_OUTPUT),
    {
        Some(Self::SLOT_OUTPUT)
    }

    pub fn slot_in_crafting_input_slots(&self, slot: &usize) -> (r: bool)
        ensures
            r == (Self::SLOT_INPUT_START <= *slot <= Self::SLOT_INPUT_END),
    {
        Self::SLOT_INPUT_START <= *slot && *slot <= Self::SLOT_INPUT_END
    }

    /// Uses up one item of every grid stack, emptying the slots of single items.
    pub fn recipe_used(&mut self)
        ensures
            final(self).output == old(self).output,
            final(self).input@.len() == old(self).input@.len(),
            forall|i: int| 0 <= i < old(self).input@.len() ==> #[trigger] final(self).input@[i] == match old(self).input@[i] {
                Some(item) => if item.item_count > 1 {
                    Some(ItemStack { item_count: (item.item_count - 1) as u8, ..item })
                } else {
                    None
                },
                None => None,
            },
    {
        let mut i: usize = 0;
        while i < self.input.len()
            invariant
                i <= self.input@.len(),
                self.input@.len() == old(self).input@.len(),
                self.output == old(self).output,
                forall|k: int| i <= k < self.input@.len() ==> #[trigger] self.input@[k] == old(self).input@[k],
                forall|k: int| 0 <= k < i ==> #[trigger] self.input@[k] == match old(self).input@[k] {
                    Some(item) => if item.item_count > 1 {
                        Some(ItemStack { item_count: (item.item_count - 1) as u8, ..item })
                    } else {
                        None
                    },
                    None => None,
                },
            decreases self.input.len() - i,
        {
            if let Some(item) = self.input[i] {
                if item.item_count > 1 {
                    let mut item = item;
                    item.item_count = item.item_count - 1;
                    self.input.set(i, Some(item));
                } else {
                    self.input.set(i, None);
                }
            }
            i = i + 1;
        }
    }

    /// Every slot: the output, then the grid.
    pub fn all_slots_ref(&self) -> (r: Vec<Option<ItemStack>>)
        ensures
            r@ == seq![self.output] + self.input@,
    {
        let mut r: Vec<Option<ItemStack>> = Vec::new();
        r.push(self.output);
        let mut i: usize = 0;
        while i < self.input.len()
            invariant
                i <= self.input@.len(),
                r@ == seq![self.output] + self.input@.subrange(0, i as int),
            decreases self.input.len() - i,
        {
            r.push(self.input[i]);
            i = i + 1;
            assert(r@ =~= seq![self.output] + self.input@.subrange(0, i as int));
        }
        assert(self.input@.subrange(0, self.input@.len() as int) =~= self.input@);
        r
    }
}

} // verus!
