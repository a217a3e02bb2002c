//! Key selection over a shift-register chain, one stage per key, with no
//! row/column grid.
//!
//! A single token is clocked along the chain and every key returns on one
//! shared line. This module holds the decisions of a scan: which position the
//! next sample belongs to, what the debouncer makes of it, and which key
//! event it commits. Driving the line and waiting on timers is the caller's.
//!
//! Position `p` in the chain maps to row `p / COL`, col `p % COL`.

use crate::clock::now_ms;
use crate::debounce::{
    debounce_result, lemma_slot_index, next_slot, slot_index, DebounceState, KeyState, QuietReleaseDebouncer,
};
use vstd::prelude::*;

verus! {

/// Shortest gap between the start of one pass and the next, in ms.
pub const SCAN_INTERVAL_MS: u64 = 1;

/// Idle between releasing the shared line and reading it, in microseconds.
pub const SETTLE_US: u64 = 5;

/// Level that marks the token on the data line. ver5020 clocks a high
/// token, ver595 inverts it.
#[derive(Clone, Copy, PartialEq, Eq, Debug, Structural)]
pub enum TokenPolarity {
    High,
    Low,
}

impl TokenPolarity {
    /// The revision strap on B9 is read against a pull-up. Tied low is
    /// ver5020, which clocks a high token; ver595 reads high and inverts it.
    pub fn read(strapped_low: bool) -> (p: Self)
        ensures
            p == (if strapped_low { TokenPolarity::High } else { TokenPolarity::Low }),
    {
        if strapped_low {
            TokenPolarity::High
        } else {
            TokenPolarity::Low
        }
    }

    /// The line level that carries the token.
    pub fn token_level(self) -> (high: bool)
        ensures
            high == (self == TokenPolarity::High),
    {
        self == TokenPolarity::High
    }
}

/// The shared line, alternating between driving the chain and reading the
/// selected position.
pub trait SenseLine {
    /// Drive the line push-pull.
    fn drive(&mut self, high: bool);

    /// Release the line to a pulled-up input.
    fn release(&mut self);

    /// Read the line while it is released.
    fn is_low(&self) -> bool;
}

/// A key changed state at (row, col).
#[derive(Clone, Copy, PartialEq, Eq, Debug, Structural)]
pub struct KeyboardEvent {
    pub row: u8,
    pub col: u8,
    pub pressed: bool,
}

impl KeyboardEvent {
    pub fn key(row: u8, col: u8, pressed: bool) -> (ev: Self)
        ensures
            ev == (KeyboardEvent { row, col, pressed }),
    {
        KeyboardEvent { row, col, pressed }
    }
}

/// Chain position `p` is read as row `p / cols`, col `p % cols`; every
/// position of a `rows * cols` chain lands on its own (row, col) of the grid.
pub proof fn lemma_position_grid(rows: int, cols: int, p: int)
    requires
        0 <= rows,
        0 <= cols,
        0 <= p < rows * cols,
    ensures
        0 <= p / cols < rows,
        0 <= p % cols < cols,
        (p / cols) * cols + p % cols == p,
{
    assert(cols > 0) by (nonlinear_arith)
        requires
            0 <= rows,
            0 <= cols,
            0 <= p < rows * cols,
    ;
    vstd::arithmetic::div_mod::lemma_fundamental_div_mod(p, cols);
    vstd::arithmetic::mul::lemma_mul_is_commutative(cols, p / cols);
    vstd::arithmetic::div_mod::lemma_mod_bound(p, cols);
    vstd::arithmetic::div_mod::lemma_div_pos_is_pos(p, cols);
    assert(p / cols < rows) by {
        vstd::arithmetic::div_mod::lemma_div_is_ordered(p, rows * cols - 1, cols);
        vstd::arithmetic::div_mod::lemma_div_multiples_vanish_fancy(rows - 1, cols - 1, cols);
        assert((rows * cols - 1) == (rows - 1) * cols + (cols - 1)) by (nonlinear_arith);
    }
}

/// Two chain positions that read as the same (row, col) are the same
/// position.
pub proof fn lemma_position_distinct(rows: int, cols: int, p: int, q: int)
    requires
        0 <= rows,
        0 <= cols,
        0 <= p < rows * cols,
        0 <= q < rows * cols,
        p / cols == q / cols,
        p % cols == q % cols,
    ensures
        p == q,
{
    lemma_position_grid(rows, cols, p);
    lemma_position_grid(rows, cols, q);
}

/// Whether a sample reads closed. The selected position is read twice and a
/// transient that lands on only one read is rejected before it reaches the
/// debouncer.
pub fn reading_closed(first: bool, second: bool) -> (closed: bool)
    ensures
        closed == (first && second),
{
    first && second
}

/// What a debouncer result does to a key that is `held`: the key's state
/// after it, and the event it reports, if any.
pub open spec fn key_step(held: bool, res: DebounceState) -> (bool, Option<bool>) {
    if res == DebounceState::Debounced {
        (!held, Some(!held))
    } else {
        (held, None)
    }
}

/// The state of a key after a run of debouncer results for it.
pub open spec fn key_after(held: bool, results: Seq<DebounceState>) -> bool
    decreases results.len(),
{
    if results.len() == 0 {
        held
    } else {
        key_step(key_after(held, results.drop_last()), results.last()).0
    }
}

/// The events (their `pressed` values) that a run of debouncer results
/// reports for a key, oldest first.
pub open spec fn key_events(held: bool, results: Seq<DebounceState>) -> Seq<bool>
    decreases results.len(),
{
    if results.len() == 0 {
        Seq::empty()
    } else {
        let before = key_events(held, results.drop_last());
        match key_step(key_after(held, results.drop_last()), results.last()).1 {
            Some(p) => before.push(p),
            None => before,
        }
    }
}

/// Key events alternate: for a key that starts in state `held`, the events
/// reported for it over any run of samples are a release-or-press opposite
/// to `held`, then the other, and so on, and the key ends pressed exactly
/// when an odd number of events has flipped it from `held`. For a scan that
/// starts with every key released, each key's events go press, release,
/// press, ...
pub proof fn lemma_events_alternate(held: bool, results: Seq<DebounceState>)
    ensures
        forall|k: int| 0 <= k < key_events(held, results).len() ==> #[trigger] key_events(held, results)[k] == (if k
            % 2 == 0 {
            !held
        } else {
            held
        }),
        key_after(held, results) == (if key_events(held, results).len() % 2 == 1 {
            !held
        } else {
            held
        }),
    decreases results.len(),
{
    if results.len() > 0 {
        lemma_events_alternate(held, results.drop_last());
    }
}

/// The scan state of a chain of `ROW * COL` positions.
pub struct ShiftMatrix<const ROW: usize, const COL: usize> {
    polarity: TokenPolarity,
    /// Committed key states, laid out `[col][row]`.
    key_states: Vec<KeyState>,
    /// Position the next sample reads. A pass resumes here after an event
    /// instead of reloading the token.
    next_pos: usize,
    /// Earliest start of the next pass, in clock ticks.
    next_pass: u64,
    /// Every debouncer result each position has taken since `new`, oldest
    /// first, laid out `[col][row]`.
    results: Ghost<Seq<Seq<DebounceState>>>,
}

impl<const ROW: usize, const COL: usize> ShiftMatrix<ROW, COL> {
    pub closed spec fn wf(&self) -> bool {
        &&& ROW * COL <= usize::MAX
        &&& self.key_states@.len() == ROW * COL
        &&& self.next_pos <= ROW * COL
        &&& self.results@.len() == ROW * COL
        &&& forall|i: int|
            0 <= i < ROW * COL ==> self.key_states@[i].pressed == key_after(false, #[trigger] self.results@[i])
    }

    /// Every debouncer result the key at (row, col) has taken since `new`,
    /// oldest first.
    pub closed spec fn results(&self, row: int, col: int) -> Seq<DebounceState> {
        self.results@[slot_index(ROW as int, row, col)]
    }

    /// The `pressed` values of the events reported for (row, col) since
    /// `new`, oldest first.
    pub open spec fn events(&self, row: int, col: int) -> Seq<bool> {
        key_events(false, self.results(row, col))
    }

    /// A key's state is what its debouncer results since `new` have made of
    /// a released key.
    pub proof fn lemma_pressed_from_results(&self, row: int, col: int)
        requires
            self.wf(),
            0 <= row < ROW,
            0 <= col < COL,
        ensures
            self.pressed(row, col) == key_after(false, self.results(row, col)),
    {
        lemma_slot_index(ROW as int, COL as int, row, col);
        assert(self.results@[slot_index(ROW as int, row, col)] == self.results(row, col));
    }

    /// Events alternate on a scan: since `new`, the events reported for any
    /// key go press, release, press, ..., and the key is held exactly when an
    /// odd number of them has been reported.
    pub proof fn lemma_key_events(&self, row: int, col: int)
        requires
            self.wf(),
            0 <= row < ROW,
            0 <= col < COL,
        ensures
            forall|k: int| 0 <= k < self.events(row, col).len() ==> #[trigger] self.events(row, col)[k] == (k % 2 == 0),
            self.pressed(row, col) == (self.events(row, col).len() % 2 == 1),
    {
        self.lemma_pressed_from_results(row, col);
        lemma_events_alternate(false, self.results(row, col));
    }

    /// Position the next sample reads.
    pub closed spec fn spec_next_pos(&self) -> nat {
        self.next_pos as nat
    }

    /// Earliest start of the next pass, in clock ticks.
    pub closed spec fn spec_next_pass(&self) -> u64 {
        self.next_pass
    }

    /// Whether the key at (row, col) is held.
    pub closed spec fn pressed(&self, row: int, col: int) -> bool {
        self.key_states@[slot_index(ROW as int, row, col)].pressed
    }

    pub closed spec fn spec_polarity(&self) -> TokenPolarity {
        self.polarity
    }

    /// A scan at the start of a pass with every key released, whose first
    /// pass may start at `now` ticks.
    pub fn new(polarity: TokenPolarity, now: u64) -> (m: Self)
        requires
            ROW * COL <= usize::MAX,
        ensures
            m.wf(),
            m.spec_next_pos() == 0,
            m.spec_next_pass() == now,
            m.spec_polarity() == polarity,
            forall|row: int, col: int| 0 <= row < ROW && 0 <= col < COL ==> !#[trigger] m.pressed(row, col),
            forall|row: int, col: int| 0 <= row < ROW && 0 <= col < COL ==> (#[trigger] m.results(row, col)).len() == 0,
    {
        let n: usize = ROW * COL;
        let mut key_states: Vec<KeyState> = Vec::new();
        while key_states.len() < n
            invariant
                n == ROW * COL,
                key_states@.len() <= n,
                forall|i: int| 0 <= i < key_states@.len() ==> !key_states@[i].pressed,
            decreases n - key_states@.len(),
        {
            key_states.push(KeyState::new());
        }
        let m = Self {
            polarity,
            key_states,
            next_pos: 0,
            next_pass: now,
            results: Ghost(Seq::new((ROW * COL) as nat, |i: int| Seq::<DebounceState>::empty())),
        };
        assert forall|row: int, col: int| 0 <= row < ROW && 0 <= col < COL implies !#[trigger] m.pressed(row, col) by {
            lemma_slot_index(ROW as int, COL as int, row, col);
        }
        assert forall|row: int, col: int| 0 <= row < ROW && 0 <= col < COL implies (#[trigger] m.results(row, col)).len()
            == 0 by {
            lemma_slot_index(ROW as int, COL as int, row, col);
        }
        m
    }

    pub fn polarity(&self) -> (p: TokenPolarity)
        ensures
            p == self.spec_polarity(),
    {
        self.polarity
    }

    /// Chain positions, one stage per key. Also the flush length that clears
    /// every stage before a token is loaded.
    pub fn positions(&self) -> (n: usize)
        requires
            self.wf(),
        ensures
            n == ROW * COL,
    {
        self.key_states.len()
    }

    /// A pass starts here: the token must be loaded before the next sample.
    pub fn at_pass_start(&self) -> (b: bool)
        ensures
            b == (self.spec_next_pos() == 0),
    {
        self.next_pos == 0
    }

    /// Earliest start of the next pass, in clock ticks.
    pub fn next_pass(&self) -> (t: u64)
        ensures
            t == self.spec_next_pass(),
    {
        self.next_pass
    }

    /// A pass starts at `now` ticks, no sooner than the previous pass allowed.
    /// The one after it starts no sooner than `interval` ticks later, so two
    /// pass starts are always at least the interval apart.
    pub fn start_pass(&mut self, now: u64, interval: u64)
        requires
            old(self).wf(),
            old(self).spec_next_pos() == 0,
            now >= old(self).spec_next_pass(),
            now + interval <= u64::MAX,
        ensures
            final(self).wf(),
            final(self).spec_next_pass() == now + interval,
            final(self).spec_next_pos() == 0,
            final(self).spec_polarity() == old(self).spec_polarity(),
            forall|row: int, col: int| #[trigger] final(self).pressed(row, col) == old(self).pressed(row, col),
            forall|row: int, col: int| #[trigger] final(self).results(row, col) == old(self).results(row, col),
    {
        self.next_pass = now + interval;
    }

    /// Positions are left to read in the current pass.
    pub fn in_pass(&self) -> (b: bool)
        requires
            self.wf(),
        ensures
            b == (self.spec_next_pos() < ROW * COL),
    {
        self.next_pos < self.key_states.len()
    }

    /// Every position of the pass has been read: the next pass starts over.
    pub fn end_pass(&mut self)
        requires
            old(self).wf(),
            old(self).spec_next_pos() == ROW * COL,
        ensures
            final(self).wf(),
            final(self).spec_next_pos() == 0,
            final(self).spec_next_pass() == old(self).spec_next_pass(),
            final(self).spec_polarity() == old(self).spec_polarity(),
            forall|row: int, col: int| #[trigger] final(self).pressed(row, col) == old(self).pressed(row, col),
            forall|row: int, col: int| #[trigger] final(self).results(row, col) == old(self).results(row, col),
    {
        self.next_pos = 0;
    }

    /// The (row, col) that the next sample belongs to.
    pub fn next_position(&self) -> (rc: (usize, usize))
        requires
            self.wf(),
            self.spec_next_pos() < ROW * COL,
        ensures
            rc.0 == self.spec_next_pos() / (COL as nat),
            rc.1 == self.spec_next_pos() % (COL as nat),
            rc.0 < ROW,
            rc.1 < COL,
    {
        proof {
            lemma_position_grid(ROW as int, COL as int, self.next_pos as int);
        }
        (self.next_pos / COL, self.next_pos % COL)
    }

    /// The committed state of the key at (row, col).
    pub fn key_state(&self, row: usize, col: usize) -> (k: KeyState)
        requires
            self.wf(),
            row < ROW,
            col < COL,
        ensures
            k.pressed == self.pressed(row as int, col as int),
    {
        proof {
            lemma_slot_index(ROW as int, COL as int, row as int, col as int);
        }
        self.key_states[col * ROW + row]
    }

    /// What a debouncer result `res` for the current position does: `before`
    /// is the scan before it, `after` the scan after it, `ev` what came back.
    pub open spec fn step_outcome(before: Self, after: Self, res: DebounceState, ev: Option<KeyboardEvent>) -> bool {
        let pos = before.spec_next_pos() as int;
        let row = pos / (COL as int);
        let col = pos % (COL as int);
        let (held, event) = key_step(before.pressed(row, col), res);
        &&& after.wf()
        &&& after.spec_polarity() == before.spec_polarity()
        &&& after.spec_next_pass() == before.spec_next_pass()
        &&& after.spec_next_pos() == before.spec_next_pos() + 1
        &&& after.pressed(row, col) == held
        &&& after.results(row, col) == before.results(row, col).push(res)
        &&& after.events(row, col) == match event {
            Some(p) => before.events(row, col).push(p),
            None => before.events(row, col),
        }
        &&& (forall|r: int, c: int|
            0 <= r < ROW && 0 <= c < COL && (r != row || c != col) ==> #[trigger] after.results(r, c) == before.results(r, c))
        &&& ev == match event {
            Some(p) => Some(KeyboardEvent { row: row as u8, col: col as u8, pressed: p }),
            None => None,
        }
        &&& forall|r: int, c: int|
            0 <= r < ROW && 0 <= c < COL && (r != row || c != col) ==> #[trigger] after.pressed(r, c) == before.pressed(r, c)
    }

    /// Takes the debouncer's result `res` for the current position and moves
    /// to the next position. A committed change toggles the key and is
    /// reported as an event with the key's new state.
    pub fn apply(&mut self, res: DebounceState) -> (ev: Option<KeyboardEvent>)
        requires
            old(self).wf(),
            old(self).spec_next_pos() < ROW * COL,
        ensures
            Self::step_outcome(*old(self), *final(self), res, ev),
    {
        let pos = self.next_pos;
        proof {
            lemma_position_grid(ROW as int, COL as int, pos as int);
        }
        let row = pos / COL;
        let col = pos % COL;
        self.next_pos = self.next_pos + 1;
        proof {
            lemma_slot_index(ROW as int, COL as int, row as int, col as int);
        }
        let i = col * ROW + row;
        let ghost before = old(self).results@[i as int];
        proof {
            assert(old(self).results(row as int, col as int) == before);
            assert(before.push(res).drop_last() == before);
        }
        self.results = Ghost(self.results@.update(i as int, before.push(res)));
        proof {
            assert forall|r: int, c: int|
                0 <= r < ROW && 0 <= c < COL && (r != row || c != col) implies #[trigger] self.results(r, c) == old(self).results(r, c) by {
                lemma_slot_index(ROW as int, COL as int, row as int, col as int);
                lemma_slot_index(ROW as int, COL as int, r, c);
            }
        }
        match res {
            DebounceState::Debounced => {
                let mut k = self.key_states[i];
                k.toggle_pressed();
                self.key_states.set(i, k);
                proof {
                    assert(key_after(false, old(self).results@[i as int]) == old(self).key_states@[i as int].pressed);
                    assert(before.push(res).drop_last() == before);
                    assert(key_after(false, before.push(res)) == !key_after(false, before));
                    assert forall|r: int, c: int|
                        0 <= r < ROW && 0 <= c < COL && (r != row || c != col) implies #[trigger] self.results(r, c)
                        == old(self).results(r, c) by {
                        lemma_slot_index(ROW as int, COL as int, row as int, col as int);
                        lemma_slot_index(ROW as int, COL as int, r, c);
                    }
                    assert forall|j: int| 0 <= j < ROW * COL implies self.key_states@[j].pressed == key_after(
                        false,
                        #[trigger] self.results@[j],
                    ) by {
                        if j != i {
                            assert(self.results@[j] == old(self).results@[j]);
                        }
                    }
                    assert forall|r: int, c: int|
                        0 <= r < ROW && 0 <= c < COL && (r != row || c != col) implies #[trigger] self.pressed(r, c)
                        == old(self).pressed(r, c) by {
                        lemma_slot_index(ROW as int, COL as int, row as int, col as int);
                        lemma_slot_index(ROW as int, COL as int, r, c);
                    }
                }
                Some(KeyboardEvent::key(#[verifier::truncate] (row as u8), #[verifier::truncate] (col as u8), k.pressed))
            },
            _ => None,
        }
    }

    /// What a raw reading `closed` of the current position, sampled at `now`
    /// ms, does through the debouncer: the scan goes from `before` to `after`,
    /// the debouncer from `d0` to `d1`, and `ev` comes back.
    pub open spec fn sample_outcome(
        before: Self,
        after: Self,
        d0: QuietReleaseDebouncer<ROW, COL>,
        d1: QuietReleaseDebouncer<ROW, COL>,
        closed: bool,
        now: u32,
        ev: Option<KeyboardEvent>,
    ) -> bool {
        let pos = before.spec_next_pos() as int;
        let row = pos / (COL as int);
        let col = pos % (COL as int);
        let slot = d0.slot(row, col);
        let res = debounce_result(slot, before.pressed(row, col), closed, now, d0.quiet());
        &&& Self::step_outcome(before, after, res, ev)
        &&& d1.wf()
        &&& d1.quiet() == d0.quiet()
        &&& d1.slot(row, col) == next_slot(slot, closed, now)
    }

    /// Takes the raw reading `closed` of the current position, sampled at
    /// `now` ms, through `debouncer`, and moves to the next position.
    pub fn sample_at(&mut self, debouncer: &mut QuietReleaseDebouncer<ROW, COL>, closed: bool, now: u32) -> (ev: Option<KeyboardEvent>)
        requires
            old(self).wf(),
            old(debouncer).wf(),
            old(self).spec_next_pos() < ROW * COL,
        ensures
            Self::sample_outcome(*old(self), *final(self), *old(debouncer), *final(debouncer), closed, now, ev),
            forall|r: int, c: int|
                0 <= r < ROW && 0 <= c < COL && (r != (old(self).spec_next_pos() as int) / (COL as int) || c
                    != (old(self).spec_next_pos() as int) % (COL as int)) ==> #[trigger] final(debouncer).slot(r, c)
                    == old(debouncer).slot(r, c),
    {
        let (row, col) = self.next_position();
        let key_state = self.key_state(row, col);
        let res = debouncer.detect_change_at(row, col, closed, &key_state, now);
        self.apply(res)
    }

    /// `sample_at` with the sample taken now.
    pub fn sample(&mut self, debouncer: &mut QuietReleaseDebouncer<ROW, COL>, closed: bool) -> (ev: Option<KeyboardEvent>)
        requires
            old(self).wf(),
            old(debouncer).wf(),
            old(self).spec_next_pos() < ROW * COL,
        ensures
            exists|now: u32| #[trigger] Self::sample_outcome(*old(self), *final(self), *old(debouncer), *final(debouncer), closed, now, ev),
            forall|r: int, c: int|
                0 <= r < ROW && 0 <= c < COL && (r != (old(self).spec_next_pos() as int) / (COL as int) || c
                    != (old(self).spec_next_pos() as int) % (COL as int)) ==> #[trigger] final(debouncer).slot(r, c)
                    == old(debouncer).slot(r, c),
    {
        let now = now_ms();
        self.sample_at(debouncer, closed, now)
    }
}

} // verus!
