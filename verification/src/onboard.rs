//! The LED and the LCD of the device that also logs to a host: one step at a time.
use crate::board::{
    blink, blink_lights_once, set_up, times_lit, BoardAction, BLINK_SECS, LCD_ADDRESS, SECOND_LINE,
};
use crate::count::SharedCount;
use crate::log::{
    log_state, log_text, logged_text, logging_adds_behind, LogQueue, LogRecord, LogSeverity,
};
use vstd::prelude::*;

verus! {

/// What the board is doing.
#[derive(Clone, Copy, Debug, PartialEq, Eq, Structural)]
pub enum OnboardPhase {
    /// Nothing yet.
    PowerUp,
    CreateLcd,
    ResetLcd,
    ClearLcd,
    ShowDisplay,
    WriteTitle,
    CreateLed,
    LedHigh,
    FindLine,
    BlankLine,
    FindLineAgain,
    WriteCount,
    WaitLit,
    LedLow,
    WaitDark,
}

/// What follows a phase. After the LED was dark, it is lit again.
pub open spec fn phase_after(phase: OnboardPhase) -> OnboardPhase {
    match phase {
        OnboardPhase::PowerUp => OnboardPhase::CreateLcd,
        OnboardPhase::CreateLcd => OnboardPhase::ResetLcd,
        OnboardPhase::ResetLcd => OnboardPhase::ClearLcd,
        OnboardPhase::ClearLcd => OnboardPhase::ShowDisplay,
        OnboardPhase::ShowDisplay => OnboardPhase::WriteTitle,
        OnboardPhase::WriteTitle => OnboardPhase::CreateLed,
        OnboardPhase::CreateLed => OnboardPhase::LedHigh,
        OnboardPhase::LedHigh => OnboardPhase::FindLine,
        OnboardPhase::FindLine => OnboardPhase::BlankLine,
        OnboardPhase::BlankLine => OnboardPhase::FindLineAgain,
        OnboardPhase::FindLineAgain => OnboardPhase::WriteCount,
        OnboardPhase::WriteCount => OnboardPhase::WaitLit,
        OnboardPhase::WaitLit => OnboardPhase::LedLow,
        OnboardPhase::LedLow => OnboardPhase::WaitDark,
        OnboardPhase::WaitDark => OnboardPhase::LedHigh,
    }
}

/// Whether the device cannot go on if a phase fails: setting up the LCD has to work.
pub open spec fn must_succeed(phase: OnboardPhase) -> bool {
    phase is CreateLcd || phase is ResetLcd || phase is ClearLcd || phase is ShowDisplay
        || phase is WriteTitle
}

/// What there is to do in a phase, if anything.
pub open spec fn action_in(phase: OnboardPhase, count: u32) -> Option<BoardAction> {
    match phase {
        OnboardPhase::PowerUp => None,
        OnboardPhase::CreateLcd => Some(BoardAction::CreateLcd { address: LCD_ADDRESS }),
        OnboardPhase::ResetLcd => Some(BoardAction::ResetLcd),
        OnboardPhase::ClearLcd => Some(BoardAction::ClearLcd),
        OnboardPhase::ShowDisplay => Some(BoardAction::ShowDisplay),
        OnboardPhase::WriteTitle => Some(BoardAction::WriteText { text: "LED Count:" }),
        OnboardPhase::CreateLed => Some(BoardAction::CreateLed),
        OnboardPhase::LedHigh => Some(BoardAction::LedHigh),
        OnboardPhase::FindLine => Some(BoardAction::SetCursor { position: SECOND_LINE }),
        OnboardPhase::BlankLine => Some(BoardAction::WriteText { text: "        " }),
        OnboardPhase::FindLineAgain => Some(BoardAction::SetCursor { position: SECOND_LINE }),
        OnboardPhase::WriteCount => Some(BoardAction::WriteCount { count }),
        OnboardPhase::WaitLit => Some(BoardAction::WaitSecs { secs: BLINK_SECS }),
        OnboardPhase::LedLow => Some(BoardAction::LedLow),
        OnboardPhase::WaitDark => Some(BoardAction::WaitSecs { secs: BLINK_SECS }),
    }
}

/// What is logged between a phase, which worked or failed, and the next one.
pub open spec fn texts_after(phase: OnboardPhase, ok: bool) -> Seq<Seq<char>> {
    match phase {
        OnboardPhase::PowerUp => seq!["Starting up..."@],
        OnboardPhase::ClearLcd => seq!["Initialised LCD"@],
        OnboardPhase::ShowDisplay => seq!["Configured LCD"@],
        OnboardPhase::CreateLed => seq!["Powered LCD"@, "Powering LED"@],
        OnboardPhase::LedHigh => seq!["Updating LCD"@],
        OnboardPhase::FindLine => if ok {
            seq![]
        } else {
            seq!["LCD cursor pos error"@]
        },
        OnboardPhase::BlankLine => if ok {
            seq![]
        } else {
            seq!["LCD clear error"@]
        },
        OnboardPhase::FindLineAgain => if ok {
            seq![]
        } else {
            seq!["LCD cursor pos2 error"@]
        },
        OnboardPhase::WriteCount => if ok {
            seq!["LED timer wait"@]
        } else {
            seq!["LCD write error"@, "LED timer wait"@]
        },
        OnboardPhase::WaitLit => seq!["Unpowering LED"@],
        OnboardPhase::LedLow => seq!["LED off timer wait"@],
        OnboardPhase::WaitDark => seq!["Powering LED"@],
        _ => seq![],
    }
}

/// The log after some fixed texts were added to it.
pub open spec fn logged_texts(log: Option<Seq<LogRecord>>, texts: Seq<Seq<char>>) -> Option<
    Seq<LogRecord>,
>
    decreases texts.len(),
{
    if texts.len() == 0 {
        log
    } else {
        logged_text(logged_texts(log, texts.drop_last()), texts.last())
    }
}

/// A count after one more. After the greatest one comes 0.
pub open spec fn count_after(count: u32) -> u32 {
    ((count + 1) % 0x1_0000_0000) as u32
}

/// Where the board stands: what it is doing, and the count of this blink.
pub struct OnboardState {
    pub phase: OnboardPhase,
    pub count: u32,
}

/// The next state. When the LED is lit, the count becomes one more than `times`, where
/// the shared count stands then.
pub open spec fn state_after(state: OnboardState, times: u32) -> OnboardState {
    let phase = phase_after(state.phase);
    OnboardState {
        phase,
        count: if phase is LedHigh {
            count_after(times)
        } else {
            state.count
        },
    }
}

/// Where the shared count stands then: once the LED is lit, at the new count.
pub open spec fn shared_after(state: OnboardState, times: u32) -> u32 {
    if state.phase is LedHigh {
        state.count
    } else {
        times
    }
}

/// Drives the LED and the LCD.
#[derive(Debug)]
pub struct Onboard {
    phase: OnboardPhase,
    count: u32,
}

impl View for Onboard {
    type V = OnboardState;

    closed spec fn view(&self) -> OnboardState {
        OnboardState { phase: self.phase, count: self.count }
    }
}

proof fn lemma_one_text(log: Option<Seq<LogRecord>>, text: Seq<char>)
    ensures
        logged_texts(log, seq![text]) == logged_text(log, text),
{
    reveal_with_fuel(logged_texts, 2);
    assert(seq![text].drop_last() =~= Seq::<Seq<char>>::empty());
}

proof fn lemma_two_texts(log: Option<Seq<LogRecord>>, first: Seq<char>, second: Seq<char>)
    ensures
        logged_texts(log, seq![first, second]) == logged_text(logged_text(log, first), second),
{
    assert(seq![first, second].drop_last() =~= seq![first]);
    lemma_one_text(log, first);
}

impl Onboard {
    /// A board on which nothing was done yet.
    pub fn new() -> (board: Self)
        ensures
            board@ == (OnboardState { phase: OnboardPhase::PowerUp, count: 0 }),
    {
        Onboard { phase: OnboardPhase::PowerUp, count: 0 }
    }

    /// Whether what the board is doing has to work for the device to go on.
    pub fn must_succeed(&self) -> (must: bool)
        ensures
            must == must_succeed(self@.phase),
    {
        match self.phase {
            OnboardPhase::CreateLcd
            | OnboardPhase::ResetLcd
            | OnboardPhase::ClearLcd
            | OnboardPhase::ShowDisplay
            | OnboardPhase::WriteTitle => true,
            _ => false,
        }
    }

    /// Takes note that what the board was doing worked or failed, counts if the LED was
    /// lit, logs what there is to log, and says what to do next.
    pub fn advance(
        &mut self,
        slot: &mut Option<LogQueue>,
        times: &mut SharedCount,
        ok: bool,
    ) -> (action: BoardAction)
        requires
            ok || !must_succeed(old(self)@.phase),
        ensures
            final(self)@ == state_after(old(self)@, old(times)@),
            final(times)@ == shared_after(old(self)@, old(times)@),
            Some(action) == action_in(final(self)@.phase, final(self)@.count),
            log_state(*final(slot)) == logged_texts(
                log_state(*old(slot)),
                texts_after(old(self)@.phase, ok),
            ),
            // What waits in the log stays there.
            *old(slot) is Some <==> *final(slot) is Some,
            log_state(*old(slot)) matches Some(before) ==> {
                let after = log_state(*final(slot))->0;
                &&& before.len() <= after.len()
                &&& after.subrange(0, before.len() as int) == before
            },
            // The count is stored once the LED is lit, and only then.
            old(self)@.phase is LedHigh ==> final(times)@ == old(self)@.count,
            !(old(self)@.phase is LedHigh) ==> final(times)@ == old(times)@,
    {
        proof {
            texts_are_logged_in_order(log_state(*slot), texts_after(self@.phase, ok));
        }
        let ghost log = log_state(*slot);
        match self.phase {
            OnboardPhase::PowerUp => {
                log_text(slot, "Starting up...");
                proof {
                    lemma_one_text(log, "Starting up..."@);
                }
                self.phase = OnboardPhase::CreateLcd;
                BoardAction::CreateLcd { address: LCD_ADDRESS }
            },
            OnboardPhase::CreateLcd => {
                self.phase = OnboardPhase::ResetLcd;
                BoardAction::ResetLcd
            },
            OnboardPhase::ResetLcd => {
                self.phase = OnboardPhase::ClearLcd;
                BoardAction::ClearLcd
            },
            OnboardPhase::ClearLcd => {
                log_text(slot, "Initialised LCD");
                proof {
                    lemma_one_text(log, "Initialised LCD"@);
                }
                self.phase = OnboardPhase::ShowDisplay;
                BoardAction::ShowDisplay
            },
            OnboardPhase::ShowDisplay => {
                log_text(slot, "Configured LCD");
                proof {
                    lemma_one_text(log, "Configured LCD"@);
                }
                self.phase = OnboardPhase::WriteTitle;
                BoardAction::WriteText { text: "LED Count:" }
            },
            OnboardPhase::WriteTitle => {
                self.phase = OnboardPhase::CreateLed;
                BoardAction::CreateLed
            },
            OnboardPhase::CreateLed => {
                log_text(slot, "Powered LCD");
                log_text(slot, "Powering LED");
                proof {
                    lemma_two_texts(log, "Powered LCD"@, "Powering LED"@);
                }
                self.phase = OnboardPhase::LedHigh;
                self.count = times.load().wrapping_add(1);
                BoardAction::LedHigh
            },
            OnboardPhase::LedHigh => {
                times.store(self.count);
                log_text(slot, "Updating LCD");
                proof {
                    lemma_one_text(log, "Updating LCD"@);
                }
                self.phase = OnboardPhase::FindLine;
                BoardAction::SetCursor { position: SECOND_LINE }
            },
            OnboardPhase::FindLine => {
                if !ok {
                    log_text(slot, "LCD cursor pos error");
                    proof {
                        lemma_one_text(log, "LCD cursor pos error"@);
                    }
                }
                self.phase = OnboardPhase::BlankLine;
                BoardAction::WriteText { text: "        " }
            },
            OnboardPhase::BlankLine => {
                if !ok {
                    log_text(slot, "LCD clear error");
                    proof {
                        lemma_one_text(log, "LCD clear error"@);
                    }
                }
                self.phase = OnboardPhase::FindLineAgain;
                BoardAction::SetCursor { position: SECOND_LINE }
            },
            OnboardPhase::FindLineAgain => {
                if !ok {
                    log_text(slot, "LCD cursor pos2 error");
                    proof {
                        lemma_one_text(log, "LCD cursor pos2 error"@);
                    }
                }
                self.phase = OnboardPhase::WriteCount;
                BoardAction::WriteCount { count: self.count }
            },
            OnboardPhase::WriteCount => {
                if !ok {
                    log_text(slot, "LCD write error");
                }
                log_text(slot, "LED timer wait");
                proof {
                    lemma_one_text(log, "LED timer wait"@);
                    lemma_two_texts(log, "LCD write error"@, "LED timer wait"@);
                }
                self.phase = OnboardPhase::WaitLit;
                BoardAction::WaitSecs { secs: BLINK_SECS }
            },
            OnboardPhase::WaitLit => {
                log_text(slot, "Unpowering LED");
                proof {
                    lemma_one_text(log, "Unpowering LED"@);
                }
                self.phase = OnboardPhase::LedLow;
                BoardAction::LedLow
            },
            OnboardPhase::LedLow => {
                log_text(slot, "LED off timer wait");
                proof {
                    lemma_one_text(log, "LED off timer wait"@);
                }
                self.phase = OnboardPhase::WaitDark;
                BoardAction::WaitSecs { secs: BLINK_SECS }
            },
            OnboardPhase::WaitDark => {
                log_text(slot, "Powering LED");
                proof {
                    lemma_one_text(log, "Powering LED"@);
                }
                self.phase = OnboardPhase::LedHigh;
                self.count = times.load().wrapping_add(1);
                BoardAction::LedHigh
            },
        }
    }
}

/// What the board does about a step is logged in fixed texts, and a failing LCD is: each of
/// its four steps in a blink has a text of its own for that, and the blink goes on.
pub proof fn steps_are_logged(phase: OnboardPhase, ok: bool)
    ensures
        phase is PowerUp ==> texts_after(phase, ok) == seq!["Starting up..."@],
        phase is CreateLcd || phase is ResetLcd || phase is WriteTitle ==> texts_after(
            phase,
            ok,
        ).len() == 0,
        phase is ClearLcd ==> texts_after(phase, ok) == seq!["Initialised LCD"@],
        phase is ShowDisplay ==> texts_after(phase, ok) == seq!["Configured LCD"@],
        phase is CreateLed ==> texts_after(phase, ok) == seq!["Powered LCD"@, "Powering LED"@],
        phase is LedHigh ==> texts_after(phase, ok) == seq!["Updating LCD"@],
        phase is FindLine && !ok ==> texts_after(phase, ok) == seq!["LCD cursor pos error"@],
        phase is BlankLine && !ok ==> texts_after(phase, ok) == seq!["LCD clear error"@],
        phase is FindLineAgain && !ok ==> texts_after(phase, ok) == seq!["LCD cursor pos2 error"@],
        (phase is FindLine || phase is BlankLine || phase is FindLineAgain) && ok ==> texts_after(
            phase,
            ok,
        ).len() == 0,
        phase is WriteCount && ok ==> texts_after(phase, ok) == seq!["LED timer wait"@],
        phase is WriteCount && !ok ==> texts_after(phase, ok) == seq![
            "LCD write error"@,
            "LED timer wait"@,
        ],
        phase is WaitLit ==> texts_after(phase, ok) == seq!["Unpowering LED"@],
        phase is LedLow ==> texts_after(phase, ok) == seq!["LED off timer wait"@],
        phase is WaitDark ==> texts_after(phase, ok) == seq!["Powering LED"@],
{
}

/// Only the steps that set up the LCD have to work.
pub proof fn only_the_set_up_must_work(phase: OnboardPhase)
    ensures
        must_succeed(phase) <==> (phase is CreateLcd || phase is ResetLcd || phase is ClearLcd
            || phase is ShowDisplay || phase is WriteTitle),
{
}

/// Texts are logged one after the other, in order, and what waits in the log stays there.
pub proof fn texts_are_logged_in_order(log: Option<Seq<LogRecord>>, texts: Seq<Seq<char>>)
    ensures
        texts.len() == 0 ==> logged_texts(log, texts) == log,
        texts.len() == 1 ==> logged_texts(log, texts) == logged_text(log, texts[0]),
        texts.len() == 2 ==> logged_texts(log, texts) == logged_text(
            logged_text(log, texts[0]),
            texts[1],
        ),
        log is None ==> logged_texts(log, texts) is None,
        log matches Some(before) ==> {
            &&& logged_texts(log, texts) matches Some(after)
            &&& before.len() <= after.len()
            &&& after.subrange(0, before.len() as int) == before
        },
    decreases texts.len(),
{
    if texts.len() == 0 {
        if log is Some {
            assert(log->0.subrange(0, log->0.len() as int) =~= log->0);
        }
    } else {
        let past = texts.drop_last();
        texts_are_logged_in_order(log, past);
        let middle = logged_texts(log, past);
        logging_adds_behind(
            middle,
            LogSeverity::Info,
            vstd::utf8::encode_utf8(texts.last()).push(0),
        );
        if log is Some {
            let before = log->0;
            let m = middle->0;
            let after = logged_texts(log, texts)->0;
            assert forall|i: int| 0 <= i < before.len() implies after[i] == before[i] by {
                assert(after.subrange(0, m.len() as int)[i] == after[i]);
                assert(m.subrange(0, before.len() as int)[i] == m[i]);
            }
            assert(after.subrange(0, before.len() as int) =~= before);
        }
    }
}

/// Where the shared count stands after the host set it some number of times, or did
/// not.
pub open spec fn told(times: u32, sets: Seq<Option<u32>>) -> u32
    decreases sets.len(),
{
    if sets.len() == 0 {
        times
    } else {
        match sets.last() {
            Some(value) => value,
            None => told(times, sets.drop_last()),
        }
    }
}

/// The board's state, the shared count and the actions after one step for each of
/// `sets`: before each step the host may have set the count.
pub open spec fn run(state: OnboardState, times: u32, sets: Seq<Option<u32>>) -> (
    OnboardState,
    u32,
    Seq<BoardAction>,
)
    decreases sets.len(),
{
    if sets.len() == 0 {
        (state, times, Seq::empty())
    } else {
        let (before, shared, actions) = run(state, times, sets.drop_last());
        let seen = match sets.last() {
            Some(value) => value,
            None => shared,
        };
        let after = state_after(before, seen);
        (
            after,
            shared_after(before, seen),
            actions.push(action_in(after.phase, after.count)->0),
        )
    }
}

proof fn lemma_run_step(state: OnboardState, times: u32, sets: Seq<Option<u32>>, k: int)
    requires
        0 <= k < sets.len(),
    ensures
        run(state, times, sets.take(k + 1)) == ({
            let (before, shared, actions) = run(state, times, sets.take(k));
            let seen = match sets[k] {
                Some(value) => value,
                None => shared,
            };
            let after = state_after(before, seen);
            (
                after,
                shared_after(before, seen),
                actions.push(action_in(after.phase, after.count)->0),
            )
        }),
{
    assert(sets.take(k + 1).drop_last() =~= sets.take(k));
}

proof fn lemma_told_step(times: u32, sets: Seq<Option<u32>>, from: int, k: int)
    requires
        0 <= from <= k < sets.len(),
    ensures
        told(times, sets.subrange(from, k + 1)) == match sets[k] {
            Some(value) => value,
            None => told(times, sets.subrange(from, k)),
        },
{
    assert(sets.subrange(from, k + 1).drop_last() =~= sets.subrange(from, k));
}

/// The LCD is set up before the LED is ever lit, and meanwhile the count stays where
/// the host sets it.
pub proof fn set_up_comes_first(count: u32, times: u32, sets: Seq<Option<u32>>)
    requires
        sets.len() == 6,
    ensures
        run(OnboardState { phase: OnboardPhase::PowerUp, count }, times, sets) == (
            OnboardState { phase: OnboardPhase::CreateLed, count },
            told(times, sets),
            set_up(),
        ),
        ({
            let actions = run(
                OnboardState { phase: OnboardPhase::PowerUp, count },
                times,
                sets,
            ).2;
            &&& actions.len() == 6
            &&& actions[0] == (BoardAction::CreateLcd { address: 0x27 })
            &&& actions[1] == BoardAction::ResetLcd
            &&& actions[2] == BoardAction::ClearLcd
            &&& actions[3] == BoardAction::ShowDisplay
            &&& actions[4] == (BoardAction::WriteText { text: "LED Count:" })
            &&& actions[5] == BoardAction::CreateLed
        }),
{
    let state = OnboardState { phase: OnboardPhase::PowerUp, count };
    assert(sets.take(0) =~= Seq::<Option<u32>>::empty());
    assert(sets.subrange(0, 0) =~= Seq::<Option<u32>>::empty());
    assert(sets.take(6) =~= sets);
    assert(sets.subrange(0, 6) =~= sets);
    lemma_run_step(state, times, sets, 0);
    lemma_run_step(state, times, sets, 1);
    lemma_run_step(state, times, sets, 2);
    lemma_run_step(state, times, sets, 3);
    lemma_run_step(state, times, sets, 4);
    lemma_run_step(state, times, sets, 5);
    lemma_told_step(times, sets, 0, 0);
    lemma_told_step(times, sets, 0, 1);
    lemma_told_step(times, sets, 0, 2);
    lemma_told_step(times, sets, 0, 3);
    lemma_told_step(times, sets, 0, 4);
    lemma_told_step(times, sets, 0, 5);
    assert(run(state, times, sets).2 =~= set_up());
}

/// Once set up, the board blinks, over and over, whatever the LCD reports: each time it
/// shows one more than the shared count stood at when the LED was lit, and stores that.
/// What the host sets later stands; only what it sets between the lighting and the
/// storing is overwritten.
pub proof fn board_blinks(state: OnboardState, times: u32, sets: Seq<Option<u32>>)
    requires
        state.phase is CreateLed || state.phase is WaitDark,
        sets.len() == 8,
    ensures
        ({
            let count = count_after(told(times, sets.take(1)));
            run(state, times, sets) == (
                OnboardState { phase: OnboardPhase::WaitDark, count },
                told(count, sets.skip(2)),
                blink(count),
            )
        }),
        ({
            let actions = run(state, times, sets).2;
            let lit = match sets[0] {
                Some(value) => value,
                None => times,
            };
            let count = if lit == u32::MAX {
                0u32
            } else {
                (lit + 1) as u32
            };
            &&& actions.len() == 8
            &&& actions[0] == BoardAction::LedHigh
            &&& actions[1] == (BoardAction::SetCursor { position: 40 })
            &&& actions[2] == (BoardAction::WriteText { text: "        " })
            &&& actions[3] == (BoardAction::SetCursor { position: 40 })
            &&& actions[4] == (BoardAction::WriteCount { count })
            &&& actions[5] == (BoardAction::WaitSecs { secs: 1 })
            &&& actions[6] == BoardAction::LedLow
            &&& actions[7] == (BoardAction::WaitSecs { secs: 1 })
            &&& run(state, times, sets).0.count == count
            // The count is stored in the second step, over what was set just before it.
            &&& run(state, times, sets.take(2)).1 == count
        }),
{
    let count = count_after(told(times, sets.take(1)));
    assert(sets.take(0) =~= Seq::<Option<u32>>::empty());
    assert(sets.subrange(0, 0) =~= Seq::<Option<u32>>::empty());
    assert(sets.subrange(0, 1) =~= sets.take(1));
    assert(sets.subrange(2, 2) =~= Seq::<Option<u32>>::empty());
    assert(sets.take(8) =~= sets);
    assert(sets.subrange(2, 8) =~= sets.skip(2));
    lemma_told_step(times, sets, 0, 0);
    lemma_run_step(state, times, sets, 0);
    lemma_run_step(state, times, sets, 1);
    lemma_run_step(state, times, sets, 2);
    lemma_run_step(state, times, sets, 3);
    lemma_run_step(state, times, sets, 4);
    lemma_run_step(state, times, sets, 5);
    lemma_run_step(state, times, sets, 6);
    lemma_run_step(state, times, sets, 7);
    lemma_told_step(count, sets, 2, 2);
    lemma_told_step(count, sets, 2, 3);
    lemma_told_step(count, sets, 2, 4);
    lemma_told_step(count, sets, 2, 5);
    lemma_told_step(count, sets, 2, 6);
    lemma_told_step(count, sets, 2, 7);
    assert(run(state, times, sets).2 =~= blink(count));
    assert(sets.take(1).drop_last() =~= Seq::<Option<u32>>::empty());
}

proof fn lemma_run_in_two_parts(
    state: OnboardState,
    times: u32,
    first: Seq<Option<u32>>,
    second: Seq<Option<u32>>,
)
    ensures
        run(state, times, first + second) == ({
            let (middle, shared, begun) = run(state, times, first);
            let (after, left, done) = run(middle, shared, second);
            (after, left, begun + done)
        }),
    decreases second.len(),
{
    let (middle, shared, begun) = run(state, times, first);
    if second.len() == 0 {
        assert(first + second =~= first);
        assert(begun + Seq::<BoardAction>::empty() =~= begun);
    } else {
        lemma_run_in_two_parts(state, times, first, second.drop_last());
        assert((first + second).drop_last() =~= first + second.drop_last());
        assert(run(state, times, first + second).2 =~= begun + run(middle, shared, second).2);
    }
}

/// As long as the host does not set it, the count grows by one each time the LED is lit,
/// up to the greatest count and around.
pub proof fn blinks_are_counted(state: OnboardState, times: u32, blinks: nat)
    requires
        state.phase is CreateLed || state.phase is WaitDark,
    ensures
        ({
            let (after, shared, actions) = run(
                state,
                times,
                Seq::new(8 * blinks, |i: int| None::<u32>),
            );
            &&& shared == (times + blinks) % 0x1_0000_0000
            &&& times_lit(actions) == blinks
            &&& blinks > 0 ==> after.phase is WaitDark && after.count == shared
            &&& blinks == 0 ==> after == state
        }),
    decreases blinks,
{
    if blinks > 0 {
        let past = Seq::new((8 * (blinks - 1)) as nat, |i: int| None::<u32>);
        let now = Seq::new(8, |i: int| None::<u32>);
        blinks_are_counted(state, times, (blinks - 1) as nat);
        let (middle, shared, actions) = run(state, times, past);
        assert(past + now =~= Seq::new(8 * blinks, |i: int| None::<u32>));
        lemma_run_in_two_parts(state, times, past, now);
        board_blinks(middle, shared, now);
        reveal_with_fuel(told, 8);
        blink_lights_once(actions, count_after(shared));
    }
}

}
