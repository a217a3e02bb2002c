//! Debouncer for a return line that reads open while a key is still held.
//!
//! A press commits on two closed samples in a row. A release commits only
//! after the position reads open for `release_quiet_ms`. A run of open samples
//! during a hold shorter than that is not a release.

use crate::clock::now_ms;
use vstd::prelude::*;

verus! {

/// What the debouncer reports for one sample.
#[derive(Clone, Copy, PartialEq, Eq, Debug, Structural)]
pub enum DebounceState {
    /// The key's state changes now.
    Debounced,
    /// A change may be coming but is not committed yet.
    InProgress,
    /// Nothing to report.
    Ignored,
}

/// The committed state of one key.
#[derive(Clone, Copy, PartialEq, Eq, Debug, Structural)]
pub struct KeyState {
    /// True while the key is held.
    pub pressed: bool,
}

impl KeyState {
    pub fn new() -> (k: Self)
        ensures
            !k.pressed,
    {
        KeyState { pressed: false }
    }

    pub fn toggle_pressed(&mut self)
        ensures
            final(self).pressed == !old(self).pressed,
    {
        self.pressed = !self.pressed;
    }
}

/// What the debouncer keeps for one position.
pub struct Slot {
    /// The previous raw sample.
    pub prev_closed: bool,
    /// When the position last read closed, in ms.
    pub last_closed_ms: u32,
}

/// Milliseconds from `since` to `now` on a 32-bit clock that wraps.
pub open spec fn elapsed_ms(now: u32, since: u32) -> int {
    if now >= since {
        now - since
    } else {
        now - since + 0x1_0000_0000
    }
}

/// The clock may wrap between two samples: a time `d` ms after `since` on
/// the wrapping 32-bit clock is `d` ms after it, for every `d` the clock can
/// hold.
pub proof fn lemma_elapsed_wraps(since: u32, d: u32)
    ensures
        elapsed_ms(((since + d) % 0x1_0000_0000) as u32, since) == d,
{
}

/// The record of a position that has taken no sample.
pub open spec fn initial_slot() -> Slot {
    Slot { prev_closed: false, last_closed_ms: 0 }
}

/// What one sample reports for a key, given the position's record before
/// the sample.
pub open spec fn debounce_result(slot: Slot, pressed: bool, key_active: bool, now: u32, quiet: u32) -> DebounceState {
    if !pressed {
        if key_active {
            if slot.prev_closed {
                DebounceState::Debounced
            } else {
                DebounceState::InProgress
            }
        } else {
            DebounceState::Ignored
        }
    } else if key_active {
        DebounceState::Ignored
    } else if elapsed_ms(now, slot.last_closed_ms) >= quiet {
        DebounceState::Debounced
    } else {
        DebounceState::InProgress
    }
}

/// The position's record after a sample.
pub open spec fn next_slot(slot: Slot, key_active: bool, now: u32) -> Slot {
    Slot {
        prev_closed: key_active,
        last_closed_ms: if key_active { now } else { slot.last_closed_ms },
    }
}

/// Arrays are laid out `[col][row]`: position (row, col) is `col * ROW + row`.
pub open spec fn slot_index(rows: int, row: int, col: int) -> int {
    col * rows + row
}

/// The flat index of (row, col) lies inside a grid of `rows * cols`, and
/// different positions have different indices.
pub proof fn lemma_slot_index(rows: int, cols: int, row: int, col: int)
    requires
        0 <= row < rows,
        0 <= col < cols,
    ensures
        0 <= slot_index(rows, row, col) < rows * cols,
        forall|r2: int, c2: int|
            0 <= r2 < rows && 0 <= c2 < cols && slot_index(rows, r2, c2) == slot_index(rows, row, col)
                ==> r2 == row && c2 == col,
{
    assert(0 <= col * rows) by (nonlinear_arith)
        requires
            0 <= col,
            0 <= rows,
    ;
    assert(col * rows + row < rows * cols) by (nonlinear_arith)
        requires
            0 <= row < rows,
            0 <= col < cols,
    ;
    assert forall|r2: int, c2: int|
        0 <= r2 < rows && 0 <= c2 < cols && slot_index(rows, r2, c2) == slot_index(rows, row, col) implies r2 == row
        && c2 == col by {
        vstd::arithmetic::div_mod::lemma_fundamental_div_mod_converse(c2 * rows + r2, rows, c2, r2);
        vstd::arithmetic::div_mod::lemma_fundamental_div_mod_converse(col * rows + row, rows, col, row);
    }
}

/// Debouncer that commits a press on two closed samples in a row and a
/// release after `release_quiet_ms` of open samples.
pub struct QuietReleaseDebouncer<const ROW: usize, const COL: usize> {
    /// Previous raw sample of each position.
    prev_closed: Vec<bool>,
    /// When each position last read closed, in ms.
    last_closed_ms: Vec<u32>,
    release_quiet_ms: u32,
    /// Every sample each position has taken since `new`, oldest first: the
    /// raw reading and its time in ms.
    samples: Ghost<Seq<Seq<(bool, u32)>>>,
}

impl<const ROW: usize, const COL: usize> QuietReleaseDebouncer<ROW, COL> {
    pub closed spec fn wf(&self) -> bool {
        &&& ROW * COL <= usize::MAX
        &&& self.prev_closed@.len() == ROW * COL
        &&& self.last_closed_ms@.len() == ROW * COL
        &&& self.samples@.len() == ROW * COL
        &&& forall|i: int|
            0 <= i < ROW * COL ==> (Slot { prev_closed: self.prev_closed@[i], last_closed_ms: self.last_closed_ms@[i] })
                == after_samples(initial_slot(), #[trigger] self.samples@[i])
    }

    /// Every sample position (row, col) has taken since `new`, oldest first.
    pub closed spec fn samples(&self, row: int, col: int) -> Seq<(bool, u32)> {
        self.samples@[slot_index(ROW as int, row, col)]
    }

    /// A position's record is what its samples since `new` have made of the
    /// record it started with.
    pub proof fn lemma_slot_from_samples(&self, row: int, col: int)
        requires
            self.wf(),
            0 <= row < ROW,
            0 <= col < COL,
        ensures
            self.slot(row, col) == after_samples(initial_slot(), self.samples(row, col)),
    {
        lemma_slot_index(ROW as int, COL as int, row, col);
        let i = slot_index(ROW as int, row, col);
        assert(self.samples@[i] == self.samples(row, col));
    }

    /// A debouncer's grid fits in memory.
    pub proof fn lemma_grid_fits(&self)
        requires
            self.wf(),
        ensures
            ROW * COL <= usize::MAX,
    {
    }

    /// The record of position (row, col).
    pub closed spec fn slot(&self, row: int, col: int) -> Slot {
        let i = slot_index(ROW as int, row, col);
        Slot { prev_closed: self.prev_closed@[i], last_closed_ms: self.last_closed_ms@[i] }
    }

    pub closed spec fn quiet(&self) -> u32 {
        self.release_quiet_ms
    }

    /// `release_quiet_ms` is how long a position must read open before a
    /// release commits.
    pub fn new(release_quiet_ms: u32) -> (d: Self)
        requires
            ROW * COL <= usize::MAX,
        ensures
            d.wf(),
            d.quiet() == release_quiet_ms,
            forall|row: int, col: int|
                0 <= row < ROW && 0 <= col < COL ==> (#[trigger] d.slot(row, col)).prev_closed == false
                    && d.slot(row, col).last_closed_ms == 0 && d.samples(row, col).len() == 0,
    {
        let n: usize = ROW * COL;
        let mut prev_closed: Vec<bool> = Vec::new();
        let mut last_closed_ms: Vec<u32> = Vec::new();
        while prev_closed.len() < n
            invariant
                n == ROW * COL,
                prev_closed@.len() == last_closed_ms@.len(),
                prev_closed@.len() <= n,
                forall|i: int| 0 <= i < prev_closed@.len() ==> prev_closed@[i] == false && last_closed_ms@[i] == 0,
            decreases n - prev_closed@.len(),
        {
            prev_closed.push(false);
            last_closed_ms.push(0);
        }
        let d = Self {
            prev_closed,
            last_closed_ms,
            release_quiet_ms,
            samples: Ghost(Seq::new((ROW * COL) as nat, |i: int| Seq::<(bool, u32)>::empty())),
        };
        assert forall|i: int| 0 <= i < ROW * COL implies (Slot {
            prev_closed: d.prev_closed@[i],
            last_closed_ms: d.last_closed_ms@[i],
        }) == after_samples(initial_slot(), #[trigger] d.samples@[i]) by {}
        assert forall|row: int, col: int| 0 <= row < ROW && 0 <= col < COL implies (#[trigger] d.slot(row, col)).prev_closed
            == false && d.slot(row, col).last_closed_ms == 0 && d.samples(row, col).len() == 0 by {
            lemma_slot_index(ROW as int, COL as int, row, col);
        }
        d
    }

    /// One sample of position (row, col) taken at `now` ms. Reports what the
    /// sample commits for a key currently in `key_state`, and records it.
    pub fn detect_change_at(
        &mut self,
        row_idx: usize,
        col_idx: usize,
        key_active: bool,
        key_state: &KeyState,
        now: u32,
    ) -> (res: DebounceState)
        requires
            old(self).wf(),
            row_idx < ROW,
            col_idx < COL,
        ensures
            final(self).wf(),
            final(self).quiet() == old(self).quiet(),
            res == debounce_result(
                old(self).slot(row_idx as int, col_idx as int),
                key_state.pressed,
                key_active,
                now,
                old(self).quiet(),
            ),
            final(self).slot(row_idx as int, col_idx as int) == next_slot(
                old(self).slot(row_idx as int, col_idx as int),
                key_active,
                now,
            ),
            final(self).samples(row_idx as int, col_idx as int) == old(self).samples(row_idx as int, col_idx as int).push(
                (key_active, now),
            ),
            forall|row: int, col: int|
                0 <= row < ROW && 0 <= col < COL && (row != row_idx || col != col_idx) ==> #[trigger] final(self).slot(row, col) == old(self).slot(row, col),
            forall|row: int, col: int|
                0 <= row < ROW && 0 <= col < COL && (row != row_idx || col != col_idx) ==> #[trigger] final(self).samples(row, col) == old(self).samples(row, col),
    {
        proof {
            lemma_slot_index(ROW as int, COL as int, row_idx as int, col_idx as int);
        }
        let len = self.prev_closed.len();
        assert(col_idx * ROW + row_idx < len);
        let i = col_idx * ROW + row_idx;
        let prev_closed = self.prev_closed[i];
        self.prev_closed.set(i, key_active);

        if key_active {
            self.last_closed_ms.set(i, now);
        }
        let ghost before = old(self).samples@[i as int];
        self.samples = Ghost(self.samples@.update(i as int, before.push((key_active, now))));
        proof {
            assert(before.push((key_active, now)).drop_last() == before);
            assert(old(self).samples@[i as int] == before);
            assert forall|j: int| 0 <= j < ROW * COL implies (Slot {
                prev_closed: self.prev_closed@[j],
                last_closed_ms: self.last_closed_ms@[j],
            }) == after_samples(initial_slot(), #[trigger] self.samples@[j]) by {
                if j != i {
                    assert(old(self).samples@[j] == self.samples@[j]);
                }
            }
        }
        assert forall|row: int, col: int|
            0 <= row < ROW && 0 <= col < COL && (row != row_idx || col != col_idx) implies #[trigger] self.slot(row, col)
            == old(self).slot(row, col) by {
            lemma_slot_index(ROW as int, COL as int, row, col);
        }
        assert forall|row: int, col: int|
            0 <= row < ROW && 0 <= col < COL && (row != row_idx || col != col_idx) implies #[trigger] self.samples(row, col)
            == old(self).samples(row, col) by {
            lemma_slot_index(ROW as int, COL as int, row, col);
            lemma_slot_index(ROW as int, COL as int, row_idx as int, col_idx as int);
        }

        if !key_state.pressed {
            return if key_active {
                if prev_closed {
                    DebounceState::Debounced
                } else {
                    DebounceState::InProgress
                }
            } else {
                DebounceState::Ignored
            };
        }

        if key_active {
            return DebounceState::Ignored;
        }

        let quiet = now.wrapping_sub(self.last_closed_ms[i]);
        if quiet >= self.release_quiet_ms {
            DebounceState::Debounced
        } else {
            DebounceState::InProgress
        }
    }

    /// One sample of position (row, col), taken now.
    pub fn detect_change_with_debounce(
        &mut self,
        row_idx: usize,
        col_idx: usize,
        key_active: bool,
        key_state: &KeyState,
    ) -> (res: DebounceState)
        requires
            old(self).wf(),
            row_idx < ROW,
            col_idx < COL,
        ensures
            final(self).wf(),
            final(self).quiet() == old(self).quiet(),
            exists|now: u32|
                {
                    &&& res == debounce_result(
                        old(self).slot(row_idx as int, col_idx as int),
                        key_state.pressed,
                        key_active,
                        now,
                        old(self).quiet(),
                    )
                    &&& final(self).slot(row_idx as int, col_idx as int) == next_slot(
                        old(self).slot(row_idx as int, col_idx as int),
                        key_active,
                        now,
                    )
                    &&& final(self).samples(row_idx as int, col_idx as int) == old(self).samples(
                        row_idx as int,
                        col_idx as int,
                    ).push((key_active, now))
                },
            forall|row: int, col: int|
                0 <= row < ROW && 0 <= col < COL && (row != row_idx || col != col_idx) ==> #[trigger] final(self).slot(row, col) == old(self).slot(row, col),
            forall|row: int, col: int|
                0 <= row < ROW && 0 <= col < COL && (row != row_idx || col != col_idx) ==> #[trigger] final(self).samples(row, col) == old(self).samples(row, col),
    {
        let now = now_ms();
        self.detect_change_at(row_idx, col_idx, key_active, key_state, now)
    }
}


/// The record of a position after a run of samples, oldest first, each a raw
/// reading and its time in ms.
pub open spec fn after_samples(slot: Slot, samples: Seq<(bool, u32)>) -> Slot
    decreases samples.len(),
{
    if samples.len() == 0 {
        slot
    } else {
        let last = samples.last();
        next_slot(after_samples(slot, samples.drop_last()), last.0, last.1)
    }
}

/// A press commits on the second closed sample in a row, whatever the
/// position recorded before.
pub proof fn lemma_press_on_two_closed_samples(slot: Slot, t1: u32, t2: u32, quiet: u32)
    ensures
        debounce_result(next_slot(slot, true, t1), false, true, t2, quiet) == DebounceState::Debounced,
{
}

/// A single closed sample after an open one does not commit a press.
pub proof fn lemma_single_closed_sample_waits(slot: Slot, t: u32, quiet: u32)
    requires
        !slot.prev_closed,
    ensures
        debounce_result(slot, false, true, t, quiet) == DebounceState::InProgress,
{
}

/// An open sample never reports anything for a released key, and a closed
/// sample never reports anything for a held key.
pub proof fn lemma_no_report_without_change(slot: Slot, t: u32, quiet: u32)
    ensures
        debounce_result(slot, false, false, t, quiet) == DebounceState::Ignored,
        debounce_result(slot, true, true, t, quiet) == DebounceState::Ignored,
{
}

/// Open samples leave the time of the last closed sample where it was.
pub proof fn lemma_open_run_keeps_last_closed(slot: Slot, samples: Seq<(bool, u32)>)
    requires
        forall|k: int| 0 <= k < samples.len() ==> !(#[trigger] samples[k]).0,
    ensures
        after_samples(slot, samples).last_closed_ms == slot.last_closed_ms,
    decreases samples.len(),
{
    if samples.len() > 0 {
        lemma_open_run_keeps_last_closed(slot, samples.drop_last());
    }
}

/// A held key is released by an open sample exactly when the position has
/// read open for at least the quiet time since its last closed sample: after
/// a closed sample at `t1` and any run of open samples, an open sample at `t`
/// commits the release if and only if `t` is `quiet` ms or more past `t1`.
pub proof fn lemma_release_needs_quiet(
    slot: Slot,
    t1: u32,
    opens: Seq<(bool, u32)>,
    t: u32,
    quiet: u32,
)
    requires
        forall|k: int| 0 <= k < opens.len() ==> !(#[trigger] opens[k]).0,
    ensures
        (debounce_result(after_samples(next_slot(slot, true, t1), opens), true, false, t, quiet)
            == DebounceState::Debounced) <==> elapsed_ms(t, t1) >= quiet,
        (debounce_result(after_samples(next_slot(slot, true, t1), opens), true, false, t, quiet)
            == DebounceState::InProgress) <==> elapsed_ms(t, t1) < quiet,
{
    lemma_open_run_keeps_last_closed(next_slot(slot, true, t1), opens);
}


/// A position's previous raw sample, as its record keeps it, is the reading
/// of the last sample it took since `new`, or open if it took none.
pub proof fn lemma_prev_closed_is_last_sample(samples: Seq<(bool, u32)>)
    ensures
        after_samples(initial_slot(), samples).prev_closed == (samples.len() > 0 && samples.last().0),
{
}

/// A position's time of last closed sample, as its record keeps it, is the
/// time of the latest sample since `new` that read closed.
pub proof fn lemma_last_closed_is_latest_closed(samples: Seq<(bool, u32)>, k: int)
    requires
        0 <= k < samples.len(),
        samples[k].0,
        forall|j: int| k < j < samples.len() ==> !(#[trigger] samples[j]).0,
    ensures
        after_samples(initial_slot(), samples).last_closed_ms == samples[k].1,
    decreases samples.len(),
{
    if k < samples.len() - 1 {
        lemma_last_closed_is_latest_closed(samples.drop_last(), k);
    }
}

impl<const ROW: usize, const COL: usize> QuietReleaseDebouncer<ROW, COL> {
    /// A press commits on two closed samples in a row: for a released key at
    /// (row, col), a sample reports `Debounced` when it and the position's
    /// previous sample since `new` both read closed, `InProgress` when only
    /// it does, and `Ignored` when it reads open, whatever samples other
    /// positions took in between.
    pub proof fn lemma_press_rule(&self, row: int, col: int, key_active: bool, now: u32)
        requires
            self.wf(),
            0 <= row < ROW,
            0 <= col < COL,
        ensures
            ({
                let s = self.samples(row, col);
                let prev = s.len() > 0 && s.last().0;
                debounce_result(self.slot(row, col), false, key_active, now, self.quiet()) == if key_active && prev {
                    DebounceState::Debounced
                } else if key_active {
                    DebounceState::InProgress
                } else {
                    DebounceState::Ignored
                }
            }),
    {
        self.lemma_slot_from_samples(row, col);
        lemma_prev_closed_is_last_sample(self.samples(row, col));
    }

    /// A release commits only after the position reads open for the quiet
    /// time: for a held key at (row, col) whose latest closed sample since
    /// `new` is sample `k`, taken at `t`, a sample at `now` reports `Ignored`
    /// when it reads closed, and otherwise `Debounced` exactly when `now` is
    /// the quiet time or more past `t`, whatever samples other positions took
    /// in between.
    pub proof fn lemma_release_rule(&self, row: int, col: int, k: int, key_active: bool, now: u32)
        requires
            self.wf(),
            0 <= row < ROW,
            0 <= col < COL,
            0 <= k < self.samples(row, col).len(),
            self.samples(row, col)[k].0,
            forall|j: int| k < j < self.samples(row, col).len() ==> !(#[trigger] self.samples(row, col)[j]).0,
        ensures
            debounce_result(self.slot(row, col), true, key_active, now, self.quiet()) == if key_active {
                DebounceState::Ignored
            } else if elapsed_ms(now, self.samples(row, col)[k].1) >= self.quiet() {
                DebounceState::Debounced
            } else {
                DebounceState::InProgress
            },
    {
        self.lemma_slot_from_samples(row, col);
        lemma_last_closed_is_latest_closed(self.samples(row, col), k);
    }
}

} // verus!
