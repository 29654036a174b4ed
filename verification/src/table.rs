//! The table of live contexts, and the integer handles that stand for them.
//!
//! A handle names one slot of the table and one generation of that slot. A
//! slot moves to its next generation when its context is destroyed, so that a
//! handle, once retired, never names a context again.

use crate::context::{spans_fit, step_taken, CipherContext, ContextView, Step};
use crate::engine::{Direction, KEY_LEN};
use crate::error::CipherError;
use vstd::prelude::*;

verus! {

/// The handle that stands for no context.
pub const NO_HANDLE: i64 = 0;

/// The number of slots that a table can hold.
pub const MAX_SLOTS: usize = 0x7fff_ffff;

/// The generation at which a slot is given up for good.
pub const MAX_GENERATION: u32 = 0x7fff_ffff;

/// A handle is its generation times this, plus its slot's index, plus one.
pub const RADIX: u64 = 0x1_0000_0000;

/// The index of the slot that a positive handle names.
pub open spec fn handle_index(handle: i64) -> int {
    (handle as int) % (RADIX as int) - 1
}

/// The generation that a positive handle names.
pub open spec fn handle_generation(handle: i64) -> int {
    (handle as int) / (RADIX as int)
}

/// The handle for a generation of a slot.
pub open spec fn handle_for(generation: int, index: int) -> int {
    generation * (RADIX as int) + index + 1
}

/// A handle takes apart into the generation and index it was made from.
pub proof fn lemma_handle_parts(generation: int, index: int)
    requires
        0 <= generation < MAX_GENERATION,
        0 <= index < MAX_SLOTS,
    ensures
        0 < handle_for(generation, index) <= i64::MAX,
        handle_index(handle_for(generation, index) as i64) == index,
        handle_generation(handle_for(generation, index) as i64) == generation,
{
    let h = handle_for(generation, index);
    let r = RADIX as int;
    assert(h == generation * r + (index + 1));
    assert(generation * r <= (MAX_GENERATION - 1) * r) by (nonlinear_arith)
        requires
            generation <= MAX_GENERATION - 1,
            r > 0,
    ;
    assert(generation * r >= 0) by (nonlinear_arith)
        requires
            generation >= 0,
            r > 0,
    ;
    vstd::arithmetic::div_mod::lemma_fundamental_div_mod_converse(h, r, generation, index + 1);
}

/// What a table is, seen from outside.
pub struct TableView {
    /// The live contexts, each under its handle.
    pub live: Map<i64, ContextView>,
    /// The handles whose contexts were destroyed.
    pub retired: Set<i64>,
}

/// Whether a table can move from `before` to `after`: a retired handle stays
/// retired, and a live one stays live unless it is retired.
pub open spec fn moves_on(before: TableView, after: TableView) -> bool {
    &&& forall|handle: i64| before.retired.contains(handle) ==> after.retired.contains(handle)
    &&& forall|handle: i64|
        before.live.contains_key(handle) ==> after.live.contains_key(handle) || after.retired.contains(
            handle,
        )
}

struct Slot {
    generation: u32,
    context: Option<CipherContext>,
}

/// The contexts that are live, each reachable through its handle alone.
pub struct ContextTable {
    slots: Vec<Slot>,
}

impl View for ContextTable {
    type V = TableView;

    closed spec fn view(&self) -> TableView {
        TableView {
            live: Map::new(
                |handle: i64| self.live_at(handle),
                |handle: i64| self.slots[handle_index(handle)].context.unwrap()@,
            ),
            retired: Set::new(|handle: i64| self.retired_at(handle)),
        }
    }
}

impl ContextTable {
    spec fn names_slot(&self, handle: i64) -> bool {
        handle > 0 && 0 <= handle_index(handle) < self.slots.len()
    }

    spec fn live_at(&self, handle: i64) -> bool {
        &&& self.names_slot(handle)
        &&& self.slots[handle_index(handle)].generation == handle_generation(handle)
        &&& self.slots[handle_index(handle)].context is Some
    }

    spec fn retired_at(&self, handle: i64) -> bool {
        &&& self.names_slot(handle)
        &&& handle_generation(handle) < self.slots[handle_index(handle)].generation
    }

    /// The table's own invariant: it is within its limits, and a slot that was
    /// given up holds nothing.
    pub closed spec fn well_formed(&self) -> bool {
        &&& self.slots.len() <= MAX_SLOTS
        &&& forall|i: int|
            0 <= i < self.slots.len() ==> {
                &&& (#[trigger] self.slots[i]).generation <= MAX_GENERATION
                &&& self.slots[i].generation == MAX_GENERATION ==> self.slots[i].context is None
            }
    }

    /// Whether the table can take one more context whatever its state.
    pub closed spec fn has_room(&self) -> bool {
        self.slots.len() < MAX_SLOTS
    }

    /// An empty table: no handle is live, none is retired.
    pub fn new() -> (table: ContextTable)
        ensures
            table.well_formed(),
            table.has_room(),
            table@.live == Map::<i64, ContextView>::empty(),
            table@.retired == Set::<i64>::empty(),
    {
        let table = ContextTable { slots: Vec::new() };
        assert(table@.live =~= Map::<i64, ContextView>::empty());
        assert(table@.retired =~= Set::<i64>::empty());
        table
    }

    /// The handle that stands for no context is never live and never retired.
    pub proof fn lemma_no_handle(&self)
        ensures
            !self@.live.contains_key(NO_HANDLE),
            !self@.retired.contains(NO_HANDLE),
    {
    }

    /// No handle is live and retired at once: a retired handle names no context.
    pub proof fn lemma_retired_is_not_live(&self, handle: i64)
        ensures
            !(self@.live.contains_key(handle) && self@.retired.contains(handle)),
    {
    }

    /// The slot of a live handle.
    fn locate(&self, handle: i64) -> (found: Option<usize>)
        requires
            self.well_formed(),
        ensures
            found is Some <==> self.live_at(handle),
            found matches Some(index) ==> index == handle_index(handle),
    {
        if handle <= 0 {
            return None;
        }
        let raw: u64 = handle as u64;
        let low: u64 = raw % RADIX;
        let generation: u64 = raw / RADIX;
        if low == 0 {
            return None;
        }
        let index: u64 = low - 1;
        if index >= self.slots.len() as u64 {
            return None;
        }
        let at: usize = index as usize;
        if self.slots[at].generation as u64 == generation && self.slots[at].context.is_some() {
            Some(at)
        } else {
            None
        }
    }

    /// Whether `handle` stands for a live context.
    pub fn is_live(&self, handle: i64) -> (live: bool)
        requires
            self.well_formed(),
        ensures
            live == self@.live.contains_key(handle),
    {
        self.locate(handle).is_some()
    }

    /// Sends `source` through the context that `handle` stands for and writes
    /// what comes out to `dest`. A handle that is not live, like spans that do
    /// not fit, makes the call a silent no-op. No other context is touched.
    pub fn process(&mut self, handle: i64, source: &[u8], dest: &mut [u8]) -> (step: Step)
        requires
            old(self).well_formed(),
        ensures
            final(self).well_formed(),
            final(self).has_room() == old(self).has_room(),
            moves_on(old(self)@, final(self)@),
            final(self)@.retired == old(self)@.retired,
            final(self)@.live.dom() == old(self)@.live.dom(),
            forall|other: i64|
                other != handle && old(self)@.live.contains_key(other) ==> final(self)@.live[other]
                    == old(self)@.live[other],
            final(dest)@.len() == old(dest)@.len(),
            step == Step::Skipped <==> !(old(self)@.live.contains_key(handle) && spans_fit(
                source@.len() as int,
                old(dest)@.len() as int,
            )),
            step == Step::Skipped ==> final(dest)@ == old(dest)@ && final(self)@ == old(self)@,
            handle == NO_HANDLE ==> step == Step::Skipped,
            old(self)@.live.contains_key(handle) ==> step_taken(
                step,
                old(self)@.live[handle],
                final(self)@.live[handle],
                source@,
                old(dest)@,
                final(dest)@,
            ),
    {
        let found = self.locate(handle);
        match found {
            None => Step::Skipped,
            Some(at) => {
                let step = match &mut self.slots[at].context {
                    Some(context) => context.process(source, dest),
                    None => Step::Skipped,
                };
                proof {
                    assert(self@.retired =~= old(self)@.retired);
                    assert(self@.live.dom() =~= old(self)@.live.dom());
                    if step == Step::Skipped {
                        assert(self@.live =~= old(self)@.live);
                    }
                }
                step
            },
        }
    }

    /// Whether the table can take one more context whatever its state.
    pub fn can_create(&self) -> (room: bool)
        ensures
            room == self.has_room(),
    {
        self.slots.len() < MAX_SLOTS
    }

    /// A slot that is empty and not given up; a new one where there is none.
    fn free_slot(&mut self) -> (at: usize)
        requires
            old(self).well_formed(),
            old(self).has_room(),
        ensures
            final(self).well_formed(),
            final(self)@ == old(self)@,
            at < final(self).slots.len(),
            final(self).slots[at as int].context is None,
            final(self).slots[at as int].generation < MAX_GENERATION,
            forall|handle: i64|
                handle_index(handle) == at && handle_generation(handle) >= final(self).slots[at as int].generation
                    ==> !old(self)@.retired.contains(handle),
    {
        let mut at: usize = 0;
        while at < self.slots.len()
            invariant
                *self == *old(self),
                self.well_formed(),
                at <= self.slots.len(),
            decreases self.slots.len() - at,
        {
            if self.slots[at].context.is_none() && self.slots[at].generation < MAX_GENERATION {
                return at;
            }
            at = at + 1;
        }
        self.slots.push(Slot { generation: 0, context: None });
        proof {
            assert(self@.live =~= old(self)@.live);
            assert(self@.retired =~= old(self)@.retired);
        }
        at
    }

    /// Takes a context that was made into the table and gives it a handle that
    /// was never issued before; hands a failure on and leaves the table as it
    /// was.
    pub fn install(&mut self, made: Result<CipherContext, CipherError>) -> (given: Result<i64, CipherError>)
        requires
            old(self).well_formed(),
            made is Ok ==> old(self).has_room(),
        ensures
            final(self).well_formed(),
            moves_on(old(self)@, final(self)@),
            match made {
                Ok(context) => {
                    &&& given matches Ok(handle)
                    &&& handle > 0
                    &&& !old(self)@.live.contains_key(handle)
                    &&& !old(self)@.retired.contains(handle)
                    &&& final(self)@.retired == old(self)@.retired
                    &&& final(self)@.live == old(self)@.live.insert(handle, context@)
                },
                Err(error) => {
                    &&& given == Err::<i64, CipherError>(error)
                    &&& final(self)@ == old(self)@
                    &&& final(self).has_room() == old(self).has_room()
                },
            },
    {
        let context = match made {
            Ok(context) => context,
            Err(error) => {
                return Err(error);
            },
        };
        let ghost fresh = context@;
        let at = self.free_slot();
        let generation = self.slots[at].generation;
        let ghost found = *self;
        self.slots[at].context = Some(context);
        let handle: u64 = (generation as u64) * RADIX + (at as u64) + 1;
        proof {
            lemma_handle_parts(generation as int, at as int);
            assert(handle == handle_for(generation as int, at as int));
            let issued = handle as i64;
            assert forall|other: i64| self.live_at(other) <==> (found.live_at(other) || other == issued) by {
                if handle_index(other) == at && handle_generation(other) == generation && other > 0 {
                    assert(other == issued);
                }
            }
            assert(self@.retired =~= found@.retired);
            assert(self@.live =~= found@.live.insert(issued, fresh));
        }
        Ok(handle as i64)
    }

    /// Creates a context under `key` and gives it a handle that was never
    /// issued before. Where no context is created the table is as it was.
    pub fn create(&mut self, key: &[u8], direction: Direction) -> (made: Result<i64, CipherError>)
        requires
            old(self).well_formed(),
            key@.len() == KEY_LEN ==> old(self).has_room(),
        ensures
            final(self).well_formed(),
            moves_on(old(self)@, final(self)@),
            key@.len() != KEY_LEN ==> made == Err::<i64, CipherError>(CipherError::InvalidArgument),
            made is Err ==> final(self)@ == old(self)@ && final(self).has_room() == old(self).has_room(),
            key@.len() == KEY_LEN ==> match made {
                Ok(handle) => {
                    &&& handle > 0
                    &&& !old(self)@.live.contains_key(handle)
                    &&& !old(self)@.retired.contains(handle)
                    &&& final(self)@.retired == old(self)@.retired
                    &&& final(self)@.live == old(self)@.live.insert(
                        handle,
                        ContextView { direction, key: key@, consumed: Some(Seq::<u8>::empty()) },
                    )
                },
                Err(error) => error == CipherError::SecurityInitializationFailure,
            },
    {
        let made = CipherContext::new(key, direction);
        self.install(made)
    }

    /// Retires the context that `handle` stands for and releases what it
    /// holds. A handle that is not live, such as `NO_HANDLE` or one retired
    /// before, changes nothing.
    pub fn destroy(&mut self, handle: i64) -> (retired: bool)
        requires
            old(self).well_formed(),
        ensures
            final(self).well_formed(),
            final(self).has_room() == old(self).has_room(),
            moves_on(old(self)@, final(self)@),
            retired == old(self)@.live.contains_key(handle),
            handle == NO_HANDLE ==> !retired,
            !retired ==> final(self)@ == old(self)@,
            retired ==> final(self)@.live == old(self)@.live.remove(handle),
            retired ==> final(self)@.retired == old(self)@.retired.insert(handle),
    {
        let found = self.locate(handle);
        match found {
            None => false,
            Some(at) => {
                let generation = self.slots[at].generation;
                self.slots[at].context = None;
                self.slots[at].generation = generation + 1;
                proof {
                    assert forall|other: i64| self.retired_at(other) <==> (old(self).retired_at(other) || other
                        == handle) by {
                        if handle_index(other) == at && handle_generation(other) == generation && other > 0 {
                            assert(other == handle);
                        }
                    }
                    assert(self@.retired =~= old(self)@.retired.insert(handle));
                    assert(self@.live =~= old(self)@.live.remove(handle));
                }
                true
            },
        }
    }
}

} // verus!
