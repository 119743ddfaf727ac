//! The monitor's main loop decisions: when to quit, how long to wait for
//! input, and when to refresh the readings.

use vstd::prelude::*;

verus! {

/// The key of a keyboard event.
#[derive(Clone, Copy, Debug, PartialEq, Eq, Structural)]
pub enum KeyInput {
    Char(char),
    Other,
}

/// A terminal event the loop reacts to.
#[derive(Clone, Copy, Debug, PartialEq, Eq, Structural)]
pub enum TermEvent {
    /// A key event; `pressed` is false for releases and repeats.
    Key { pressed: bool, key: KeyInput },
    /// Any other event (resize, mouse, focus).
    Other,
}

/// Time between two refreshes of the readings, in nanoseconds (one second).
pub open spec fn tick_nanos() -> nat {
    1_000_000_000
}

/// True when the event asks the monitor to quit: a press of `q`.
pub open spec fn is_quit(ev: TermEvent) -> bool {
    ev == TermEvent::Key { pressed: true, key: KeyInput::Char('q') }
}

/// The main loop's state: whether the user asked to quit, and when the
/// readings were last refreshed (nanoseconds since start-up).
pub struct LoopState {
    exit: bool,
    last_tick: u128,
}

/// One round of the main loop: the event read in it, if any, the time at
/// which the refresh is decided, and the time at which a refresh made in
/// the round is over (nanoseconds since start-up).
#[derive(Clone, Copy, Debug)]
pub struct Round {
    pub event: Option<TermEvent>,
    pub now: u128,
    pub done: u128,
}

/// Nanoseconds from `last` to `now`, or 0 when `now` is earlier.
pub open spec fn elapsed_since(last: u128, now: u128) -> nat {
    if last <= now {
        (now - last) as nat
    } else {
        0
    }
}

/// True when a refresh is due at `now` after one at `last`: a whole period
/// has passed.
pub open spec fn refresh_due_at(last: u128, now: u128) -> bool {
    elapsed_since(last, now) >= tick_nanos()
}

/// True when the round's event is a press of `q`.
pub open spec fn round_quits(r: Round) -> bool {
    r.event matches Some(e) && is_quit(e)
}

/// The loop's state (quitting, last refresh) after the rounds `rounds`,
/// starting from `exit` and `last`: each round handles its event, then
/// refreshes when a period has passed since the last refresh was over.
pub open spec fn run_rounds(exit: bool, last: u128, rounds: Seq<Round>) -> (bool, u128)
    decreases rounds.len(),
{
    if rounds.len() == 0 {
        (exit, last)
    } else {
        let before = run_rounds(exit, last, rounds.drop_last());
        let r = rounds.last();
        (
            before.0 || round_quits(r),
            if refresh_due_at(before.1, r.now) {
                r.done
            } else {
                before.1
            },
        )
    }
}

/// True when round `i` of `rounds` refreshes the readings.
pub open spec fn refreshed_in(exit: bool, last: u128, rounds: Seq<Round>, i: int) -> bool {
    refresh_due_at(run_rounds(exit, last, rounds.take(i)).1, rounds[i].now)
}

/// True when the rounds' times never go back: none is before `last`, a
/// refresh ends no earlier than it was decided, and each round comes after
/// the earlier ones.
pub open spec fn clock_monotone(last: u128, rounds: Seq<Round>) -> bool {
    &&& forall|i: int| 0 <= i < rounds.len() ==> last <= #[trigger] rounds[i].now
    &&& forall|i: int| 0 <= i < rounds.len() ==> (#[trigger] rounds[i]).now <= rounds[i].done
    &&& forall|i: int, j: int|
        0 <= i < j < rounds.len() ==> (#[trigger] rounds[i]).done <= (#[trigger] rounds[j]).now
}

impl LoopState {
    /// The state at start-up: running, last refreshed at time 0.
    pub fn new() -> (s: Self)
        ensures
            !s.exiting(),
            s.last_refresh() == 0,
    {
        LoopState { exit: false, last_tick: 0 }
    }

    /// True once the user asked to quit.
    pub closed spec fn exiting(&self) -> bool {
        self.exit
    }

    /// When the readings were last refreshed, in nanoseconds since start-up.
    pub closed spec fn last_refresh(&self) -> u128 {
        self.last_tick
    }

    /// How long to wait for input at time `now`: the rest of the period
    /// since the last refresh, or nothing once it is over.
    pub fn timeout(&self, now: u128) -> (t: u128)
        ensures
            t == if elapsed_since(self.last_refresh(), now) < tick_nanos() {
                tick_nanos() - elapsed_since(self.last_refresh(), now)
            } else {
                0
            },
    {
        poll_timeout(now.saturating_sub(self.last_tick))
    }

    /// One round of the loop: handles the event read, if any, then decides
    /// at time `now` whether to refresh the readings (a whole period since
    /// the last refresh was over). Returns that decision; the caller
    /// refreshes and then reports the time with `refreshed`.
    pub fn step(&mut self, ev: Option<TermEvent>, now: u128) -> (refresh: bool)
        ensures
            final(self).exiting() == (old(self).exiting() || (ev matches Some(e) && is_quit(e))),
            final(self).last_refresh() == old(self).last_refresh(),
            refresh == refresh_due_at(old(self).last_refresh(), now),
    {
        match ev {
            Some(e) => self.on_event(e),
            None => {},
        }
        refresh_due(now.saturating_sub(self.last_tick))
    }

    /// Records that a refresh was over at time `done`.
    pub fn refreshed(&mut self, done: u128)
        ensures
            final(self).exiting() == old(self).exiting(),
            final(self).last_refresh() == done,
    {
        self.last_tick = done;
    }

    /// Whether the loop should run another round.
    pub fn running(&self) -> (b: bool)
        ensures
            b == !self.exiting(),
    {
        !self.exit
    }

    /// Reacts to a key: `q` asks to quit, any other key changes nothing.
    pub fn handle_key_event(&mut self, key: KeyInput)
        ensures
            final(self).exiting() == (old(self).exiting() || key == KeyInput::Char('q')),
            final(self).last_refresh() == old(self).last_refresh(),
    {
        match key {
            KeyInput::Char(c) => {
                if c == 'q' {
                    self.exit = true;
                }
            },
            KeyInput::Other => {},
        }
    }

    /// Reacts to a terminal event: only key presses are handled.
    pub fn on_event(&mut self, ev: TermEvent)
        ensures
            final(self).exiting() == (old(self).exiting() || is_quit(ev)),
            final(self).last_refresh() == old(self).last_refresh(),
    {
        match ev {
            TermEvent::Key { pressed, key } => {
                if pressed {
                    self.handle_key_event(key);
                }
            },
            TermEvent::Other => {},
        }
    }
}

/// The refresh period, in nanoseconds.
pub fn tick_rate_nanos() -> (t: u128)
    ensures
        t == tick_nanos(),
{
    1_000_000_000
}

/// How long to wait for input when `elapsed` nanoseconds have passed since
/// the last refresh: the rest of the period, or nothing once it is over.
pub fn poll_timeout(elapsed: u128) -> (t: u128)
    ensures
        t == if elapsed < tick_nanos() { tick_nanos() - elapsed } else { 0 },
{
    tick_rate_nanos().saturating_sub(elapsed)
}

/// Whether the readings are due for a refresh: a whole period has passed.
pub fn refresh_due(elapsed: u128) -> (b: bool)
    ensures
        b == (elapsed >= tick_nanos()),
{
    elapsed >= tick_rate_nanos()
}

/// The key pressed by an event: `None` for releases, repeats and non-key
/// events.
pub open spec fn pressed_key(ev: TermEvent) -> Option<KeyInput> {
    match ev {
        TermEvent::Key { pressed, key } => if pressed {
            Some(key)
        } else {
            None
        },
        TermEvent::Other => None,
    }
}

/// Only a press of the character key `q` quits: releases and repeats of
/// `q`, presses of any other key (character or not), and non-key events
/// (resize, mouse, focus) leave the loop as it was.
pub proof fn law_only_a_q_press_quits(ev: TermEvent)
    ensures
        is_quit(ev) <==> pressed_key(ev) == Some(KeyInput::Char('q')),
        pressed_key(ev) is None ==> !is_quit(ev),
        pressed_key(ev) == Some(KeyInput::Other) ==> !is_quit(ev),
        forall|c: char| c != 'q' && pressed_key(ev) == Some(KeyInput::Char(c)) ==> !is_quit(ev),
{
}

/// The refresh period is one second: a refresh is due exactly when at
/// least 1 000 000 000 nanoseconds have passed since the last one ended.
pub proof fn law_refresh_due_after_one_second(last: u128, now: u128)
    ensures
        refresh_due_at(last, now) <==> (last <= now && now - last >= 1_000_000_000),
        tick_nanos() == 1_000_000_000,
{
}

/// The last refresh after a prefix of the rounds is the start or the time
/// of an earlier refreshing round, so it lies between the start and every
/// later round's time, and no earlier refreshing round is after it.
proof fn lemma_last_refresh_bounds(exit: bool, last: u128, rounds: Seq<Round>, k: int)
    requires
        clock_monotone(last, rounds),
        0 <= k <= rounds.len(),
    ensures
        last <= run_rounds(exit, last, rounds.take(k)).1,
        forall|m: int| k <= m < rounds.len() ==> run_rounds(exit, last, rounds.take(k)).1
            <= #[trigger] rounds[m].now,
        forall|i: int| 0 <= i < k && refreshed_in(exit, last, rounds, i) ==> rounds[i].done
            <= run_rounds(exit, last, rounds.take(k)).1,
    decreases k,
{
    if k == 0 {
        assert(rounds.take(0) =~= Seq::<Round>::empty());
    } else {
        lemma_last_refresh_bounds(exit, last, rounds, k - 1);
        assert(rounds.take(k).drop_last() =~= rounds.take(k - 1));
        assert(rounds.take(k).last() == rounds[k - 1]);
        let lk = run_rounds(exit, last, rounds.take(k)).1;
        let lp = run_rounds(exit, last, rounds.take(k - 1)).1;
        assert(lk == lp || lk == rounds[k - 1].done);
        assert forall|m: int| k <= m < rounds.len() implies lk <= #[trigger] rounds[m].now by {
            assert(rounds[k - 1].done <= rounds[m].now);
        }
        assert forall|i: int| 0 <= i < k && refreshed_in(exit, last, rounds, i) implies rounds[i].done
            <= lk by {
            if i == k - 1 {
                assert(lk == rounds[k - 1].done);
            } else {
                assert(lp <= rounds[k - 1].now);
                assert(rounds[k - 1].now <= rounds[k - 1].done);
            }
        }
    }
}

/// Refreshes are at least one period apart: over any run whose clock never
/// goes back, a refresh is decided a whole period after the start and
/// after the end of any earlier refresh.
pub proof fn law_refreshes_a_period_apart(exit: bool, last: u128, rounds: Seq<Round>)
    requires
        clock_monotone(last, rounds),
    ensures
        forall|i: int|
            0 <= i < rounds.len() && #[trigger] refreshed_in(exit, last, rounds, i) ==> rounds[i].now
                - last >= tick_nanos(),
        forall|i: int, j: int|
            0 <= i < j < rounds.len() && #[trigger] refreshed_in(exit, last, rounds, i)
                && #[trigger] refreshed_in(exit, last, rounds, j) ==> rounds[j].now - rounds[i].done
                >= tick_nanos(),
{
    assert forall|i: int|
        0 <= i < rounds.len() && #[trigger] refreshed_in(exit, last, rounds, i) implies rounds[i].now
            - last >= tick_nanos() by {
        lemma_last_refresh_bounds(exit, last, rounds, i);
    }
    assert forall|i: int, j: int|
        0 <= i < j < rounds.len() && #[trigger] refreshed_in(exit, last, rounds, i)
            && #[trigger] refreshed_in(exit, last, rounds, j) implies rounds[j].now - rounds[i].done
            >= tick_nanos() by {
        lemma_last_refresh_bounds(exit, last, rounds, j);
    }
}

/// The loop quits exactly when a press of `q` has arrived: after any run
/// of rounds it is quitting if and only if it already was or one of the
/// rounds read a `q` press (other keys, releases, repeats and non-key
/// events change nothing). So the loop stops right after the round that
/// reads the first `q` press, and not before.
pub proof fn law_quits_exactly_on_q(exit: bool, last: u128, rounds: Seq<Round>)
    ensures
        run_rounds(exit, last, rounds).0 <==> (exit || exists|i: int|
            0 <= i < rounds.len() && #[trigger] round_quits(rounds[i])),
    decreases rounds.len(),
{
    if rounds.len() > 0 {
        let init = rounds.drop_last();
        law_quits_exactly_on_q(exit, last, init);
        if exists|i: int| 0 <= i < init.len() && #[trigger] round_quits(init[i]) {
            let i = choose|i: int| 0 <= i < init.len() && #[trigger] round_quits(init[i]);
            assert(round_quits(rounds[i]));
        }
        if exists|i: int| 0 <= i < rounds.len() && #[trigger] round_quits(rounds[i]) {
            let i = choose|i: int| 0 <= i < rounds.len() && #[trigger] round_quits(rounds[i]);
            if i < rounds.len() - 1 {
                assert(round_quits(init[i]));
            }
        }
    }
}

} // verus!
