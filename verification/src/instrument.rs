//! Per-position counters for a scan under test: sample transitions and the
//! longest run of open samples while a key is held.
//!
//! Nothing is formatted here. A release hands its counters back in a
//! `ReleaseReport` for the caller to log once it has left the scan loop.

use crate::clock::now_ms;
use crate::debounce::{elapsed_ms, lemma_slot_index, slot_index};
use vstd::prelude::*;

verus! {

/// What is tracked for one position.
#[derive(Clone, Copy, PartialEq, Eq, Debug, Structural)]
pub struct Trace {
    /// Previous raw sample, for counting transitions.
    pub prev_closed: bool,
    /// Sample transitions since the last release, saturating.
    pub flips: u16,
    /// Whether a run of open samples is in progress.
    pub in_burst: bool,
    /// Start of the run in progress, in ms.
    pub burst_start_ms: u32,
    /// Longest run of open samples since the last release, in ms.
    pub max_burst_ms: u16,
}

/// The counters of one release, as the log line reports them.
#[derive(Clone, Copy, PartialEq, Eq, Debug, Structural)]
pub struct ReleaseReport {
    /// Chain position, `row * COL + col`.
    pub position: usize,
    pub row: usize,
    pub col: usize,
    pub flips: u16,
    pub longest_dropout_ms: u16,
}

/// A run of `d` ms as the 16-bit counter holds it.
pub open spec fn run_len(d: int) -> u16 {
    (d % 0x10000) as u16
}

/// Closes the run in progress, if any, folding its length into the longest.
pub open spec fn close_burst(t: Trace, now: u32) -> Trace {
    if !t.in_burst {
        t
    } else {
        let len = run_len(elapsed_ms(now, t.burst_start_ms));
        Trace { in_burst: false, max_burst_ms: if len > t.max_burst_ms { len } else { t.max_burst_ms }, ..t }
    }
}

/// The trace of a position after a sample taken at `now`, with the key held
/// or not.
pub open spec fn traced(t: Trace, closed: bool, pressed: bool, now: u32) -> Trace {
    let flips = if closed != t.prev_closed {
        if t.flips == u16::MAX { t.flips } else { (t.flips + 1) as u16 }
    } else {
        t.flips
    };
    let t1 = Trace { prev_closed: closed, flips, ..t };
    if pressed && !closed {
        if !t1.in_burst {
            Trace { in_burst: true, burst_start_ms: now, ..t1 }
        } else {
            t1
        }
    } else {
        close_burst(t1, now)
    }
}

/// The trace after a run of samples that all read open while the key is
/// held, at the given times, oldest first.
pub open spec fn open_run(t: Trace, times: Seq<u32>) -> Trace
    decreases times.len(),
{
    if times.len() == 0 {
        t
    } else {
        traced(open_run(t, times.drop_last()), false, true, times.last())
    }
}

/// A run of open samples while the key is held starts at its first sample:
/// whatever the times of the later open samples, the run in progress is
/// timed from the first one, and the longest run so far is untouched until
/// the run ends.
pub proof fn lemma_run_starts_at_first_open(t: Trace, times: Seq<u32>)
    requires
        !t.in_burst,
        times.len() > 0,
    ensures
        open_run(t, times).in_burst,
        open_run(t, times).burst_start_ms == times[0],
        open_run(t, times).max_burst_ms == t.max_burst_ms,
    decreases times.len(),
{
    if times.len() > 1 {
        lemma_run_starts_at_first_open(t, times.drop_last());
        assert(times.drop_last()[0] == times[0]);
    } else {
        assert(times.drop_last().len() == 0);
        assert(open_run(t, times.drop_last()) == t);
        assert(times.last() == times[0]);
    }
}

/// The longest dropout is the longest run of open samples: when a run that
/// started at its first open sample `times[0]` ends at `end`, with a closed
/// sample or a release, the longest run becomes the larger of the longest so
/// far and the run's length from `times[0]` to `end`.
pub proof fn lemma_run_length_recorded(t: Trace, times: Seq<u32>, end: u32, pressed: bool)
    requires
        !t.in_burst,
        times.len() > 0,
    ensures
        ({
            let len = run_len(elapsed_ms(end, times[0]));
            let after = traced(open_run(t, times), true, pressed, end);
            &&& !after.in_burst
            &&& after.max_burst_ms == if len > t.max_burst_ms { len } else { t.max_burst_ms }
        }),
{
    lemma_run_starts_at_first_open(t, times);
}

/// Transitions are counted one by one and the count sticks at its maximum:
/// a sample that reads otherwise than the one before adds one to the count
/// unless it is full, and a sample that reads the same leaves it alone.
pub proof fn lemma_flips_count_transitions(t: Trace, closed: bool, pressed: bool, now: u32)
    ensures
        closed != t.prev_closed && t.flips < u16::MAX ==> traced(t, closed, pressed, now).flips == t.flips + 1,
        closed != t.prev_closed && t.flips == u16::MAX ==> traced(t, closed, pressed, now).flips == u16::MAX,
        closed == t.prev_closed ==> traced(t, closed, pressed, now).flips == t.flips,
        traced(t, closed, pressed, now).prev_closed == closed,
{
}

proof fn lemma_truncate_u16(d: u32)
    ensures
        (d as u16) == run_len(d as int),
{
    assert((d as u16) == ((d % 0x10000) as u16)) by (bit_vector);
}

/// Counters for every position of a `ROW * COL` chain, laid out `[col][row]`.
pub struct Instrument<const ROW: usize, const COL: usize> {
    traces: Vec<Trace>,
}

impl<const ROW: usize, const COL: usize> Instrument<ROW, COL> {
    pub closed spec fn wf(&self) -> bool {
        &&& ROW * COL <= usize::MAX
        &&& self.traces@.len() == ROW * COL
    }

    /// The trace of position (row, col).
    pub closed spec fn trace(&self, row: int, col: int) -> Trace {
        self.traces@[slot_index(ROW as int, row, col)]
    }

    /// All counters at zero, no run in progress.
    pub fn new() -> (ins: Self)
        requires
            ROW * COL <= usize::MAX,
        ensures
            ins.wf(),
            forall|row: int, col: int|
                0 <= row < ROW && 0 <= col < COL ==> #[trigger] ins.trace(row, col) == (Trace {
                    prev_closed: false,
                    flips: 0,
                    in_burst: false,
                    burst_start_ms: 0,
                    max_burst_ms: 0,
                }),
    {
        let n: usize = ROW * COL;
        let mut traces: Vec<Trace> = Vec::new();
        while traces.len() < n
            invariant
                n == ROW * COL,
                traces@.len() <= n,
                forall|i: int| 0 <= i < traces@.len() ==> traces@[i] == (Trace {
                    prev_closed: false,
                    flips: 0,
                    in_burst: false,
                    burst_start_ms: 0,
                    max_burst_ms: 0,
                }),
            decreases n - traces@.len(),
        {
            traces.push(Trace { prev_closed: false, flips: 0, in_burst: false, burst_start_ms: 0, max_burst_ms: 0 });
        }
        let ins = Self { traces };
        assert forall|row: int, col: int| 0 <= row < ROW && 0 <= col < COL implies #[trigger] ins.trace(row, col) == (
        Trace { prev_closed: false, flips: 0, in_burst: false, burst_start_ms: 0, max_burst_ms: 0 }) by {
            lemma_slot_index(ROW as int, COL as int, row, col);
        }
        ins
    }

    /// Counts a transition and tracks runs of open samples while the key is
    /// held, for a sample of (row, col) taken at `now` ms.
    pub fn record_sample_at(&mut self, row: usize, col: usize, closed: bool, pressed: bool, now: u32)
        requires
            old(self).wf(),
            row < ROW,
            col < COL,
        ensures
            final(self).wf(),
            final(self).trace(row as int, col as int) == traced(old(self).trace(row as int, col as int), closed, pressed, now),
            forall|r: int, c: int|
                0 <= r < ROW && 0 <= c < COL && (r != row || c != col) ==> #[trigger] final(self).trace(r, c) == old(self).trace(r, c),
    {
        proof {
            lemma_slot_index(ROW as int, COL as int, row as int, col as int);
        }
        let i = col * ROW + row;
        let mut t = self.traces[i];
        if closed != t.prev_closed {
            t.flips = t.flips.saturating_add(1);
        }
        t.prev_closed = closed;
        if pressed && !closed {
            if !t.in_burst {
                t.in_burst = true;
                t.burst_start_ms = now;
            }
        } else {
            t = Self::closed_burst(t, now);
        }
        self.traces.set(i, t);
        proof {
            assert forall|r: int, c: int| 0 <= r < ROW && 0 <= c < COL && (r != row || c != col) implies #[trigger] self.trace(r, c)
                == old(self).trace(r, c) by {
                lemma_slot_index(ROW as int, COL as int, r, c);
            }
        }
    }

    fn closed_burst(t: Trace, now: u32) -> (out: Trace)
        ensures
            out == close_burst(t, now),
    {
        if !t.in_burst {
            return t;
        }
        let d = now.wrapping_sub(t.burst_start_ms);
        proof {
            lemma_truncate_u16(d);
        }
        let len = d as u16;
        let mut out = t;
        out.in_burst = false;
        if len > out.max_burst_ms {
            out.max_burst_ms = len;
        }
        out
    }

    /// Folds the run in progress at (row, col), if any, into the longest one
    /// seen, closing it at `now` ms.
    pub fn end_burst_at(&mut self, row: usize, col: usize, now: u32)
        requires
            old(self).wf(),
            row < ROW,
            col < COL,
        ensures
            final(self).wf(),
            final(self).trace(row as int, col as int) == close_burst(old(self).trace(row as int, col as int), now),
            forall|r: int, c: int|
                0 <= r < ROW && 0 <= c < COL && (r != row || c != col) ==> #[trigger] final(self).trace(r, c) == old(self).trace(r, c),
    {
        proof {
            lemma_slot_index(ROW as int, COL as int, row as int, col as int);
        }
        let i = col * ROW + row;
        let t = Self::closed_burst(self.traces[i], now);
        self.traces.set(i, t);
        proof {
            assert forall|r: int, c: int| 0 <= r < ROW && 0 <= c < COL && (r != row || c != col) implies #[trigger] self.trace(r, c)
                == old(self).trace(r, c) by {
                lemma_slot_index(ROW as int, COL as int, r, c);
            }
        }
    }

    /// Closes the run that committed the release of (row, col) at `now` ms,
    /// hands back the counters since the previous release, and clears them.
    pub fn report_release_at(&mut self, row: usize, col: usize, now: u32) -> (rep: ReleaseReport)
        requires
            old(self).wf(),
            row < ROW,
            col < COL,
        ensures
            final(self).wf(),
            ({
                let closed = close_burst(old(self).trace(row as int, col as int), now);
                &&& rep == (ReleaseReport {
                    position: (row * COL + col) as usize,
                    row,
                    col,
                    flips: closed.flips,
                    longest_dropout_ms: closed.max_burst_ms,
                })
                &&& final(self).trace(row as int, col as int) == (Trace { flips: 0, max_burst_ms: 0, ..closed })
            }),
            forall|r: int, c: int|
                0 <= r < ROW && 0 <= c < COL && (r != row || c != col) ==> #[trigger] final(self).trace(r, c) == old(self).trace(r, c),
    {
        self.end_burst_at(row, col, now);
        let ghost mid = *self;
        proof {
            lemma_slot_index(ROW as int, COL as int, row as int, col as int);
            lemma_slot_index(COL as int, ROW as int, col as int, row as int);
            vstd::arithmetic::mul::lemma_mul_is_commutative(ROW as int, COL as int);
        }
        let i = col * ROW + row;
        let t = self.traces[i];
        let rep = ReleaseReport {
            position: row * COL + col,
            row,
            col,
            flips: t.flips,
            longest_dropout_ms: t.max_burst_ms,
        };
        let mut cleared = t;
        cleared.max_burst_ms = 0;
        cleared.flips = 0;
        self.traces.set(i, cleared);
        proof {
            assert forall|r: int, c: int| 0 <= r < ROW && 0 <= c < COL && (r != row || c != col) implies #[trigger] self.trace(r, c)
                == old(self).trace(r, c) by {
                lemma_slot_index(ROW as int, COL as int, r, c);
                assert(mid.trace(r, c) == old(self).trace(r, c));
            }
        }
        rep
    }

    /// `record_sample_at` with the sample taken now.
    pub fn record_sample(&mut self, row: usize, col: usize, closed: bool, pressed: bool)
        requires
            old(self).wf(),
            row < ROW,
            col < COL,
        ensures
            final(self).wf(),
            exists|now: u32|
                #[trigger] traced(old(self).trace(row as int, col as int), closed, pressed, now) == final(self).trace(row as int, col as int),
            forall|r: int, c: int|
                0 <= r < ROW && 0 <= c < COL && (r != row || c != col) ==> #[trigger] final(self).trace(r, c) == old(self).trace(r, c),
    {
        let now = now_ms();
        self.record_sample_at(row, col, closed, pressed, now);
    }

    /// `report_release_at` with the run closed now.
    pub fn report_release(&mut self, row: usize, col: usize) -> (rep: ReleaseReport)
        requires
            old(self).wf(),
            row < ROW,
            col < COL,
        ensures
            final(self).wf(),
            exists|now: u32|
                {
                    let closed = #[trigger] close_burst(old(self).trace(row as int, col as int), now);
                    &&& rep == (ReleaseReport {
                        position: (row * COL + col) as usize,
                        row,
                        col,
                        flips: closed.flips,
                        longest_dropout_ms: closed.max_burst_ms,
                    })
                    &&& final(self).trace(row as int, col as int) == (Trace { flips: 0, max_burst_ms: 0, ..closed })
                },
            forall|r: int, c: int|
                0 <= r < ROW && 0 <= c < COL && (r != row || c != col) ==> #[trigger] final(self).trace(r, c) == old(self).trace(r, c),
    {
        let now = now_ms();
        self.report_release_at(row, col, now)
    }
}

} // verus!
