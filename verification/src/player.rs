//! Player input latching, and the blocks that the player breaks and places.
use vstd::prelude::*;
use crate::blockdefs::{BlockId, BlockRegistry};

verus! {

/// Key of the block that breaking leaves behind.
pub open spec fn air_key() -> Seq<char> {
    "rg_air"@
}

/// Key of the block that placing puts down.
pub open spec fn dirt_key() -> Seq<char> {
    "rg_dirt"@
}

/// The id of the block that breaking leaves behind (`rg_air`).
pub fn air_block_id(registry: &BlockRegistry) -> (id: Option<BlockId>)
    ensures
        id == registry.spec_get_id(air_key()),
{
    registry.get_id("rg_air")
}

/// The id of the block that placing puts down (`rg_dirt`).
pub fn dirt_block_id(registry: &BlockRegistry) -> (id: Option<BlockId>)
    ensures
        id == registry.spec_get_id(dirt_key()),
{
    registry.get_id("rg_dirt")
}

/// Button presses seen since the last fixed-rate step took them: each flag
/// stays set from the press until it is taken.
pub struct Inputs {
    jump: bool,
    place: bool,
    breaking: bool,
}

/// The flags `(jump, place, breaking)`.
pub type InputFlags = (bool, bool, bool);

/// A flag after a press report: set if it was set or the button was pressed.
pub open spec fn latch(flag: bool, pressed: bool) -> bool {
    flag || pressed
}

impl Inputs {
    /// The flags `(jump, place, breaking)`.
    pub closed spec fn view(&self) -> InputFlags {
        (self.jump, self.place, self.breaking)
    }

    /// No press pending.
    pub fn new() -> (i: Inputs)
        ensures
            i@ == (false, false, false),
    {
        Inputs { jump: false, place: false, breaking: false }
    }

    /// Reports whether jump was pressed this frame.
    pub fn register_jump(&mut self, value: bool)
        ensures
            final(self)@ == (latch(old(self)@.0, value), old(self)@.1, old(self)@.2),
    {
        if value {
            self.jump = true;
        }
    }

    /// Takes the pending jump press, leaving none.
    pub fn take_jump(&mut self) -> (pressed: bool)
        ensures
            pressed == old(self)@.0,
            final(self)@ == (false, old(self)@.1, old(self)@.2),
    {
        let value = self.jump;
        self.jump = false;
        value
    }

    /// Reports whether place was pressed this frame.
    pub fn register_place(&mut self, value: bool)
        ensures
            final(self)@ == (old(self)@.0, latch(old(self)@.1, value), old(self)@.2),
    {
        if value {
            self.place = true;
        }
    }

    /// Takes the pending place press, leaving none.
    pub fn take_place(&mut self) -> (pressed: bool)
        ensures
            pressed == old(self)@.1,
            final(self)@ == (old(self)@.0, false, old(self)@.2),
    {
        let value = self.place;
        self.place = false;
        value
    }

    /// Reports whether break was pressed this frame.
    pub fn register_breaking(&mut self, value: bool)
        ensures
            final(self)@ == (old(self)@.0, old(self)@.1, latch(old(self)@.2, value)),
    {
        if value {
            self.breaking = true;
        }
    }

    /// Takes the pending break press, leaving none.
    pub fn take_breaking(&mut self) -> (pressed: bool)
        ensures
            pressed == old(self)@.2,
            final(self)@ == (old(self)@.0, old(self)@.1, false),
    {
        let value = self.breaking;
        self.breaking = false;
        value
    }
}

impl Default for Inputs {
    fn default() -> (i: Inputs)
        ensures
            i@ == (false, false, false),
    {
        Inputs::new()
    }
}

/// A press is not lost: after any number of reports, one of which was a
/// press, taking the flag gives `true`; and a report without a press leaves
/// the flag as it was.
pub proof fn lemma_press_latches(flag: bool, presses: Seq<bool>)
    ensures
        presses.contains(true) ==> presses.fold_left(flag, |f: bool, p: bool| latch(f, p)),
        !presses.contains(true) ==> presses.fold_left(flag, |f: bool, p: bool| latch(f, p)) == flag,
    decreases presses.len(),
{
    if presses.len() > 0 {
        lemma_press_latches(flag, presses.drop_last());
        lemma_latch_monotone(flag, presses.drop_last());
        if presses.contains(true) && !presses.drop_last().contains(true) {
            let i = choose|i: int| 0 <= i < presses.len() && presses[i] == true;
            if i < presses.len() - 1 {
                assert(presses.drop_last()[i] == true);
            }
        }
        if presses.drop_last().contains(true) {
            let i = choose|i: int| 0 <= i < presses.drop_last().len() && presses.drop_last()[i] == true;
            assert(presses[i] == true);
        }
        if !presses.contains(true) {
            assert(presses[presses.len() - 1] != true);
            assert forall|i: int| 0 <= i < presses.drop_last().len() implies presses.drop_last()[i] != true by {
                assert(presses[i] != true);
            }
        }
    }
}

proof fn lemma_latch_monotone(flag: bool, presses: Seq<bool>)
    ensures
        flag ==> presses.fold_left(flag, |f: bool, p: bool| latch(f, p)),
    decreases presses.len(),
{
    if presses.len() > 0 {
        lemma_latch_monotone(flag, presses.drop_last());
    }
}

} // verus!
