//! The interactive driver's decisions.
//!
//! The driver owns the inverse index, the accumulator-size counter and the
//! configured per-command amount. Each menu command's effect on that state
//! is a method here, with the command-code dispatch given by `classify`;
//! reading lines, printing, timing and the allocator-trim call belong to the
//! binary around the library. The size counter counts pairs requested, not
//! pairs stored: duplicates among the random draws are deliberately not
//! deducted.

use vstd::prelude::*;
use crate::fill::{fill_effect, fill_map, fill_map_iter, fill_map_light};
use crate::index::InverseIndex;

verus! {

/// The default number of pairs an accumulate command requests until the
/// operator reconfigures it.
pub const DEFAULT_AMOUNT: u32 = 5_000_000;

/// The mathematical model of the driver's state: the index's mapping, the
/// size counter and the configured amount.
pub struct StateModel {
    pub index: Map<Seq<u8>, Set<Seq<u8>>>,
    pub size: int,
    pub amount: int,
}

/// The model after a clear: the mapping is emptied and the counter drops to
/// zero; the configured amount survives. (Physically, clearing keeps the
/// index's backing storage for reuse.)
pub open spec fn cleared_model(s: StateModel) -> StateModel {
    StateModel { index: Map::empty(), size: 0, amount: s.amount }
}

/// The model after a reset: the same empty mapping and zero counter.
/// (Physically, resetting replaces the index with a brand-new instance,
/// releasing the old storage.)
pub open spec fn reset_model(s: StateModel) -> StateModel {
    StateModel { index: Map::empty(), size: 0, amount: s.amount }
}

/// The model after the amount is reconfigured to `m`.
pub open spec fn reconfigured_model(s: StateModel, m: int) -> StateModel {
    StateModel { index: s.index, size: s.size, amount: m }
}

/// How an accumulate command relates the model before to the model after:
/// the counter grows by exactly the configured amount, the amount itself is
/// untouched, and the mapping absorbs that many drawn pairs.
pub open spec fn accumulated(s0: StateModel, s1: StateModel) -> bool {
    &&& s1.amount == s0.amount
    &&& s1.size == s0.size + s0.amount
    &&& fill_effect(s0.index, s1.index, s0.amount as nat)
}

/// The eight menu commands, and the catch-all for any other number.
#[derive(Clone, Copy, Debug, PartialEq, Eq, Structural)]
pub enum CommandKind {
    /// Accumulate without materializing the draws.
    FillLight,
    /// Accumulate via a collected buffer read in place.
    FillIter,
    /// Accumulate via a collected buffer consumed entry by entry.
    FillConsume,
    /// Ask the operating system to take back unused allocator memory.
    Trim,
    /// Empty the index, keeping its storage.
    Clear,
    /// Replace the index with a fresh one.
    Reset,
    /// Read a new per-command amount.
    Reconfigure,
    /// Leave the loop.
    Exit,
    /// A number that names no command.
    Invalid,
}

/// Which command each input number selects.
pub open spec fn command_of(x: int) -> CommandKind {
    if x == 0 {
        CommandKind::Exit
    } else if x == 1 {
        CommandKind::FillLight
    } else if x == 2 {
        CommandKind::FillIter
    } else if x == 3 {
        CommandKind::FillConsume
    } else if x == 4 {
        CommandKind::Trim
    } else if x == 5 {
        CommandKind::Clear
    } else if x == 6 {
        CommandKind::Reset
    } else if x == 7 {
        CommandKind::Reconfigure
    } else {
        CommandKind::Invalid
    }
}

/// Maps a parsed input number to the command it selects.
pub fn classify(x: u32) -> (c: CommandKind)
    ensures
        c == command_of(x as int),
{
    match x {
        0 => CommandKind::Exit,
        1 => CommandKind::FillLight,
        2 => CommandKind::FillIter,
        3 => CommandKind::FillConsume,
        4 => CommandKind::Trim,
        5 => CommandKind::Clear,
        6 => CommandKind::Reset,
        7 => CommandKind::Reconfigure,
        _ => CommandKind::Invalid,
    }
}

/// The driver's state: the long-lived inverse index, the accumulator-size
/// counter, and the configured per-command amount.
pub struct DriverState {
    index: InverseIndex,
    size: u64,
    amount: u32,
}

impl View for DriverState {
    type V = StateModel;

    closed spec fn view(&self) -> StateModel {
        StateModel {
            index: self.index@,
            size: self.size as int,
            amount: self.amount as int,
        }
    }
}

impl DriverState {
    /// The driver's structural invariant: its index is well-formed.
    pub closed spec fn wf(&self) -> bool {
        self.index.wf()
    }

    /// How many keys the index holds in total, across all key sets.
    pub closed spec fn total_keys_spec(&self) -> int {
        self.index.total_keys_spec()
    }

    /// A fresh driver: empty index, zero counter, default amount.
    pub fn new() -> (s: Self)
        ensures
            s.wf(),
            s@.index == Map::<Seq<u8>, Set<Seq<u8>>>::empty(),
            s@.size == 0,
            s@.amount == DEFAULT_AMOUNT,
            s.total_keys_spec() == 0,
    {
        DriverState { index: InverseIndex::new(), size: 0, amount: DEFAULT_AMOUNT }
    }

    /// Accumulates with the light strategy: the configured number of pairs
    /// is drawn and filed, and the size counter grows by exactly that
    /// amount.
    pub fn accumulate_light(&mut self)
        requires
            old(self).wf(),
            old(self)@.size + old(self)@.amount <= u64::MAX,
            old(self).total_keys_spec() + old(self)@.amount <= usize::MAX,
        ensures
            final(self).wf(),
            accumulated(old(self)@, final(self)@),
            final(self).total_keys_spec()
                <= old(self).total_keys_spec() + old(self)@.amount,
    {
        fill_map_light(&mut self.index, self.amount);
        self.size = self.size + self.amount as u64;
    }

    /// Accumulates with the iterative-collect strategy; the observable
    /// effect equals `accumulate_light`'s.
    pub fn accumulate_iter(&mut self)
        requires
            old(self).wf(),
            old(self)@.size + old(self)@.amount <= u64::MAX,
            old(self).total_keys_spec() + old(self)@.amount <= usize::MAX,
        ensures
            final(self).wf(),
            accumulated(old(self)@, final(self)@),
            final(self).total_keys_spec()
                <= old(self).total_keys_spec() + old(self)@.amount,
    {
        fill_map_iter(&mut self.index, self.amount);
        self.size = self.size + self.amount as u64;
    }

    /// Accumulates with the consuming-collect strategy; the observable
    /// effect equals `accumulate_light`'s.
    pub fn accumulate_consume(&mut self)
        requires
            old(self).wf(),
            old(self)@.size + old(self)@.amount <= u64::MAX,
            old(self).total_keys_spec() + old(self)@.amount <= usize::MAX,
        ensures
            final(self).wf(),
            accumulated(old(self)@, final(self)@),
            final(self).total_keys_spec()
                <= old(self).total_keys_spec() + old(self)@.amount,
    {
        fill_map(&mut self.index, self.amount);
        self.size = self.size + self.amount as u64;
    }

    /// Empties the index and zeroes the counter, keeping the index's
    /// backing storage for reuse.
    pub fn clear(&mut self)
        requires
            old(self).wf(),
        ensures
            final(self).wf(),
            final(self)@ == cleared_model(old(self)@),
            final(self).total_keys_spec() == 0,
    {
        self.index.clear();
        self.size = 0;
    }

    /// Replaces the index with a brand-new empty instance and zeroes the
    /// counter; the old storage is released.
    pub fn reset(&mut self)
        requires
            old(self).wf(),
        ensures
            final(self).wf(),
            final(self)@ == reset_model(old(self)@),
            final(self).total_keys_spec() == 0,
    {
        self.index = InverseIndex::new();
        self.size = 0;
    }

    /// Reconfigures the per-command amount; index and counter are
    /// untouched.
    pub fn set_amount(&mut self, m: u32)
        requires
            old(self).wf(),
        ensures
            final(self).wf(),
            final(self)@ == reconfigured_model(old(self)@, m as int),
            final(self).total_keys_spec() == old(self).total_keys_spec(),
    {
        self.amount = m;
    }

    /// The accumulator-size counter: pairs requested since the last clear
    /// or reset.
    pub fn accumulator_size(&self) -> (r: u64)
        ensures
            r as int == self@.size,
    {
        self.size
    }

    /// The configured per-command amount.
    pub fn current_amount(&self) -> (r: u32)
        ensures
            r as int == self@.amount,
    {
        self.amount
    }

    /// How many distinct reference values the index holds.
    pub fn distinct_values(&self) -> (r: usize)
        requires
            self.wf(),
        ensures
            self@.index.dom().finite(),
            r == self@.index.dom().len(),
    {
        self.index.len()
    }

    /// How many keys the index holds in total, across all key sets.
    pub fn total_keys(&self) -> (r: usize)
        requires
            self.wf(),
        ensures
            r == self.total_keys_spec(),
    {
        self.index.total_keys()
    }
}

/// Clearing and resetting drive the model to the same place: an empty
/// mapping and a zero counter. A fill after a clear therefore relates old
/// to new state exactly as a fill after a reset would.
pub proof fn lemma_clear_matches_reset(s: StateModel)
    ensures
        cleared_model(s) == reset_model(s),
{
}

/// A reset followed by a clear and a clear followed by a reset end in the
/// same state — an empty mapping with a zero counter — so the order of the
/// two never matters.
pub proof fn lemma_clear_reset_order(s: StateModel)
    ensures
        cleared_model(reset_model(s)) == reset_model(cleared_model(s)),
        cleared_model(reset_model(s)).index == Map::<Seq<u8>, Set<Seq<u8>>>::empty(),
        cleared_model(reset_model(s)).size == 0,
{
}

/// Reconfiguring the amount to `m` makes the next accumulate draw exactly
/// `m` pairs and grow the size counter by exactly `m`.
pub proof fn lemma_reconfigure_governs_next_fill(s: StateModel, m: u32, s1: StateModel)
    requires
        accumulated(reconfigured_model(s, m as int), s1),
    ensures
        s1.amount == m,
        s1.size == s.size + m,
        fill_effect(s.index, s1.index, m as nat),
{
}

} // verus!
