//! A fixed-size ring of per-tick values, indexed by tick number modulo its length.

use vstd::prelude::*;

verus! {

/// Number of ticks that a ring holds before a slot is reused.
pub const BUFFER_LEN: usize = 32;

/// The slot that a tick number maps to.
pub open spec fn slot(tick: u16) -> int {
    tick as int % BUFFER_LEN as int
}

/// A ring of `BUFFER_LEN` values, one per tick slot, each with the tick
/// stamp at which it was last written by `set_with_time`.
pub struct CircularBuffer<T: Default + Copy>([T; BUFFER_LEN], [u16; BUFFER_LEN]);

impl<T: Default + Copy> View for CircularBuffer<T> {
    /// The values of the slots, then their stamps.
    type V = (Seq<T>, Seq<u16>);

    closed spec fn view(&self) -> (Seq<T>, Seq<u16>) {
        (self.0@, self.1@)
    }
}

impl<T: Default + Copy> CircularBuffer<T> {
    /// What a ring holds: one value and one stamp per slot.
    pub open spec fn well_formed(&self) -> bool {
        &&& self@.0.len() == BUFFER_LEN
        &&& self@.1.len() == BUFFER_LEN
    }

    /// The value that `get(tick)` reads.
    pub open spec fn read(&self, tick: u16) -> T {
        self@.0[slot(tick)]
    }

    /// The stamp of the slot that `tick` maps to.
    pub open spec fn stamp(&self, tick: u16) -> u16 {
        self@.1[slot(tick)]
    }

    /// Every ring is well formed: it holds `BUFFER_LEN` values and
    /// `BUFFER_LEN` stamps.
    pub proof fn lemma_wf(&self)
        ensures
            self.well_formed(),
    {
        assert(self.0@.len() == BUFFER_LEN);
        assert(self.1@.len() == BUFFER_LEN);
    }

    /// A ring whose slots all hold one default value, with every stamp 0.
    pub fn new() -> (r: CircularBuffer<T>)
        ensures
            r.well_formed(),
            forall|i: int, j: int| 0 <= i < BUFFER_LEN && 0 <= j < BUFFER_LEN ==> r@.0[i] == r@.0[j],
            forall|i: int| 0 <= i < BUFFER_LEN ==> r@.1[i] == 0,
    {
        Self::new_from(T::default())
    }

    /// A ring whose slots all hold `item`, with every stamp 0.
    pub fn new_from(item: T) -> (r: CircularBuffer<T>)
        ensures
            r.well_formed(),
            forall|i: int| 0 <= i < BUFFER_LEN ==> r@.0[i] == item,
            forall|i: int| 0 <= i < BUFFER_LEN ==> r@.1[i] == 0,
    {
        let r = CircularBuffer([item; BUFFER_LEN], [0u16; BUFFER_LEN]);
        proof {
            r.lemma_wf();
        }
        r
    }

    /// The value stored in the slot of `tick`.
    pub fn get(&self, tick: u16) -> (r: &T)
        ensures
            *r == self.read(tick),
    {
        proof {
            self.lemma_wf();
        }
        let i = tick as usize % BUFFER_LEN;
        &self.0[i]
    }

    /// Stores `input` in the slot of `tick`; the stamps stay as they were.
    pub fn set(&mut self, tick: u16, input: T)
        ensures
            final(self)@.0 == old(self)@.0.update(slot(tick), input),
            final(self)@.1 == old(self)@.1,
    {
        proof {
            self.lemma_wf();
        }
        let i = tick as usize % BUFFER_LEN;
        self.0[i] = input;
    }

    /// Stores `input` with stamp `recv_date` in the slot of `tick`, but only
    /// when `recv_date` is newer than the stamp already there.
    pub fn set_with_time(&mut self, tick: u16, input: T, recv_date: u16)
        ensures
            recv_date > old(self).stamp(tick) ==> final(self)@ == (
                old(self)@.0.update(slot(tick), input),
                old(self)@.1.update(slot(tick), recv_date),
            ),
            recv_date <= old(self).stamp(tick) ==> final(self)@ == old(self)@,
    {
        proof {
            self.lemma_wf();
        }
        let i = tick as usize % BUFFER_LEN;
        if recv_date > self.1[i] {
            self.0[i] = input;
            self.1[i] = recv_date;
        }
    }

    /// The value and the stamp of the slot of `tick`.
    pub fn get_both(&mut self, tick: u16) -> (r: (&T, u16))
        ensures
            *r.0 == old(self).read(tick),
            r.1 == old(self).stamp(tick),
            final(self)@ == old(self)@,
    {
        proof {
            self.lemma_wf();
        }
        let i = tick as usize % BUFFER_LEN;
        (&self.0[i], self.1[i])
    }
}

/// What is stored for a tick is what is read back for it, and for every
/// tick of the same slot; ticks of other slots read what they read before.
pub proof fn law_set_then_read<T: Default + Copy>(
    before: CircularBuffer<T>,
    after: CircularBuffer<T>,
    tick: u16,
    input: T,
    other: u16,
)
    requires
        before.well_formed(),
        after@.0 == before@.0.update(slot(tick), input),
        after@.1 == before@.1,
    ensures
        after.read(tick) == input,
        slot(other) == slot(tick) ==> after.read(other) == input,
        slot(other) != slot(tick) ==> after.read(other) == before.read(other),
        after.stamp(other) == before.stamp(other),
{
}

/// Ticks `BUFFER_LEN` apart share a slot: the newer one overwrites the older.
pub proof fn law_ticks_a_ring_apart_share_a_slot(tick: u16)
    requires
        tick + BUFFER_LEN <= u16::MAX,
    ensures
        slot(tick) == slot((tick + BUFFER_LEN) as u16),
{
}

/// A timed store never makes a stamp older, and a store older than the
/// stamp of its slot changes nothing.
pub proof fn law_stamps_only_grow<T: Default + Copy>(
    before: CircularBuffer<T>,
    after: CircularBuffer<T>,
    tick: u16,
    input: T,
    recv_date: u16,
    other: u16,
)
    requires
        before.well_formed(),
        recv_date > before.stamp(tick) ==> after@ == (
            before@.0.update(slot(tick), input),
            before@.1.update(slot(tick), recv_date),
        ),
        recv_date <= before.stamp(tick) ==> after@ == before@,
    ensures
        after.stamp(other) >= before.stamp(other),
        recv_date <= before.stamp(tick) ==> after.read(other) == before.read(other),
        recv_date > before.stamp(tick) ==> after.read(tick) == input && after.stamp(tick) == recv_date,
{
}

} // verus!
