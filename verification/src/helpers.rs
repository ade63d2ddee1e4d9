use vstd::prelude::*;

verus! {

/// Numbers the scroll areas laid out during one frame of the user interface,
/// so that each gets an id of its own that stays the same from one frame to
/// the next as long as the layout does.
pub struct ScrollIdCounter {
    value: u64,
}

impl ScrollIdCounter {
    /// The id that the next scroll area gets.
    pub closed spec fn value(&self) -> u64 {
        self.value
    }

    pub fn new() -> (c: Self)
        ensures
            c.value() == 0,
    {
        ScrollIdCounter { value: 0 }
    }

    /// The id of the next scroll area of this frame.
    pub fn next_id(&mut self) -> (id: u64)
        requires
            old(self).value() < u64::MAX,
        ensures
            id == old(self).value(),
            final(self).value() == old(self).value() + 1,
    {
        let id = self.value;
        self.value = self.value + 1;
        id
    }
}

/// Starts the numbering of scroll areas afresh, at the start of a frame.
pub fn reset_scroll_id_counter(counter: &mut ScrollIdCounter)
    ensures
        final(counter).value() == 0,
{
    counter.value = 0;
}

} // verus!
