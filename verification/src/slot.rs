//! The one slot of the engine: which context owned it last, and how often that
//! changed. A change means that the prompt cache is lost.

use vstd::prelude::*;

verus! {

/// What the taking of the slot meant.
#[derive(Debug, Clone, Copy, PartialEq, Eq, Structural)]
pub struct SlotTaken {
    /// Another context had the slot before.
    pub switched: bool,
    pub previous_owner: Option<u64>,
}

/// The owner of the slot, and the number of changes.
#[derive(Debug, Clone, Copy, PartialEq, Eq, Structural)]
pub struct SlotOwner {
    pub owner: Option<u64>,
    pub switches: u64,
}

/// Another context had the slot.
pub open spec fn changes(owner: Option<u64>, ctx: u64) -> bool {
    owner matches Some(o) && o != ctx
}

/// A context that takes the slot again, nobody else having had it, switches nothing.
pub proof fn law_same_owner_keeps_cache(owner: Option<u64>, ctx: u64)
    ensures
        !changes(Some(ctx), ctx),
        !changes(None, ctx),
        changes(owner, ctx) ==> owner is Some && owner != Some(ctx),
{
}

impl SlotOwner {
    pub fn new() -> (r: SlotOwner)
        ensures
            r == (SlotOwner { owner: None, switches: 0 }),
    {
        SlotOwner { owner: None, switches: 0 }
    }

    /// A context takes the slot.
    pub fn take(&mut self, ctx: u64) -> (r: SlotTaken)
        requires
            old(self).switches < u64::MAX,
        ensures
            r == (SlotTaken { switched: changes(old(self).owner, ctx), previous_owner: old(self).owner }),
            final(self).owner == Some(ctx),
            final(self).switches == old(self).switches + (if changes(old(self).owner, ctx) {
                1int
            } else {
                0int
            }),
    {
        let previous_owner = self.owner;
        let switched = match previous_owner {
            Some(o) => o != ctx,
            None => false,
        };
        if switched {
            self.switches = self.switches + 1;
        }
        self.owner = Some(ctx);
        SlotTaken { switched, previous_owner }
    }

    pub fn current_owner(&self) -> (r: Option<u64>)
        ensures
            r == self.owner,
    {
        self.owner
    }

    pub fn switch_count(&self) -> (r: u64)
        ensures
            r == self.switches,
    {
        self.switches
    }

    /// Forgets the owner: after a restart of the server the cache is gone anyway.
    pub fn reset_owner(&mut self)
        ensures
            *final(self) == (SlotOwner { owner: None, switches: old(self).switches }),
    {
        self.owner = None;
    }
}

} // verus!
