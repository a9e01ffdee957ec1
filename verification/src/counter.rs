//! The plain counter: a board that blinks and shows how often, without a host.
use crate::board::{blink, set_up, times_lit, BoardAction, BLINK_SECS, LCD_ADDRESS, SECOND_LINE};
use crate::decimal::{ascii_chars, decimal};
use vstd::prelude::*;
use vstd::string::*;

verus! {

/// Bytes of the buffer that the count is written into.
pub const NUMBER_BUFFER_SIZE: usize = 16;

/// Writes the decimal text of `num` at the start of `buffer` and returns it.
/// The rest of the buffer keeps its bytes.
pub fn format_number(num: u32, buffer: &mut [u8; NUMBER_BUFFER_SIZE]) -> (text: &str)
    ensures
        text.spec_bytes() == decimal(num as nat),
        text@ == ascii_chars(decimal(num as nat)),
        final(buffer)@ == decimal(num as nat) + old(buffer)@.skip(
            decimal(num as nat).len() as int,
        ),
{
    crate::decimal::format_number(num as u64, buffer)
}

/// What the board is doing.
#[derive(Clone, Copy, Debug, PartialEq, Eq, Structural)]
pub enum CounterPhase {
    /// Nothing yet.
    PowerUp,
    CreateLcd,
    ResetLcd,
    ClearLcd,
    ShowDisplay,
    WriteTitle,
    CreateLed,
    LedHigh,
    FindLine,
    BlankLine,
    FindLineAgain,
    WriteCount,
    WaitLit,
    LedLow,
    WaitDark,
}

/// What follows a phase. After the LED was dark, it is lit again.
pub open spec fn phase_after(phase: CounterPhase) -> CounterPhase {
    match phase {
        CounterPhase::PowerUp => CounterPhase::CreateLcd,
        CounterPhase::CreateLcd => CounterPhase::ResetLcd,
        CounterPhase::ResetLcd => CounterPhase::ClearLcd,
        CounterPhase::ClearLcd => CounterPhase::ShowDisplay,
        CounterPhase::ShowDisplay => CounterPhase::WriteTitle,
        CounterPhase::WriteTitle => CounterPhase::CreateLed,
        CounterPhase::CreateLed => CounterPhase::LedHigh,
        CounterPhase::LedHigh => CounterPhase::FindLine,
        CounterPhase::FindLine => CounterPhase::BlankLine,
        CounterPhase::BlankLine => CounterPhase::FindLineAgain,
        CounterPhase::FindLineAgain => CounterPhase::WriteCount,
        CounterPhase::WriteCount => CounterPhase::WaitLit,
        CounterPhase::WaitLit => CounterPhase::LedLow,
        CounterPhase::LedLow => CounterPhase::WaitDark,
        CounterPhase::WaitDark => CounterPhase::LedHigh,
    }
}

/// What there is to do in a phase, if anything.
pub open spec fn action_in(phase: CounterPhase, count: u32) -> Option<BoardAction> {
    match phase {
        CounterPhase::PowerUp => None,
        CounterPhase::CreateLcd => Some(BoardAction::CreateLcd { address: LCD_ADDRESS }),
        CounterPhase::ResetLcd => Some(BoardAction::ResetLcd),
        CounterPhase::ClearLcd => Some(BoardAction::ClearLcd),
        CounterPhase::ShowDisplay => Some(BoardAction::ShowDisplay),
        CounterPhase::WriteTitle => Some(BoardAction::WriteText { text: "LED Count:" }),
        CounterPhase::CreateLed => Some(BoardAction::CreateLed),
        CounterPhase::LedHigh => Some(BoardAction::LedHigh),
        CounterPhase::FindLine => Some(BoardAction::SetCursor { position: SECOND_LINE }),
        CounterPhase::BlankLine => Some(BoardAction::WriteText { text: "        " }),
        CounterPhase::FindLineAgain => Some(BoardAction::SetCursor { position: SECOND_LINE }),
        CounterPhase::WriteCount => Some(BoardAction::WriteCount { count }),
        CounterPhase::WaitLit => Some(BoardAction::WaitSecs { secs: BLINK_SECS }),
        CounterPhase::LedLow => Some(BoardAction::LedLow),
        CounterPhase::WaitDark => Some(BoardAction::WaitSecs { secs: BLINK_SECS }),
    }
}

/// Where the board stands: what it is doing, and how often it has lit the LED.
pub struct CounterState {
    pub phase: CounterPhase,
    pub count: nat,
}

/// The next state. Lighting the LED counts.
pub open spec fn state_after(state: CounterState) -> CounterState {
    let phase = phase_after(state.phase);
    CounterState {
        phase,
        count: if phase is LedHigh {
            state.count + 1
        } else {
            state.count
        },
    }
}

/// Drives the LED and the LCD, and counts.
#[derive(Debug)]
pub struct Counter {
    phase: CounterPhase,
    times: u32,
}

impl View for Counter {
    type V = CounterState;

    closed spec fn view(&self) -> CounterState {
        CounterState { phase: self.phase, count: self.times as nat }
    }
}

impl Counter {
    /// A board on which nothing was done yet.
    pub fn new() -> (counter: Self)
        ensures
            counter@ == (CounterState { phase: CounterPhase::PowerUp, count: 0 }),
    {
        Counter { phase: CounterPhase::PowerUp, times: 0 }
    }

    /// Whether there is a next step: the LED is not lit once more where the count has
    /// reached its end.
    pub fn can_advance(&self) -> (can: bool)
        ensures
            can == (phase_after(self@.phase) is LedHigh ==> self@.count < u32::MAX),
    {
        match self.phase {
            CounterPhase::CreateLed | CounterPhase::WaitDark => self.times < u32::MAX,
            _ => true,
        }
    }

    /// Takes note that what the board was doing is done, and says what to do next.
    pub fn advance(&mut self) -> (action: BoardAction)
        requires
            phase_after(old(self)@.phase) is LedHigh ==> old(self)@.count < u32::MAX,
        ensures
            final(self)@ == state_after(old(self)@),
            Some(action) == action_in(final(self)@.phase, final(self)@.count as u32),
    {
        match self.phase {
            CounterPhase::PowerUp => {
                self.phase = CounterPhase::CreateLcd;
                BoardAction::CreateLcd { address: LCD_ADDRESS }
            },
            CounterPhase::CreateLcd => {
                self.phase = CounterPhase::ResetLcd;
                BoardAction::ResetLcd
            },
            CounterPhase::ResetLcd => {
                self.phase = CounterPhase::ClearLcd;
                BoardAction::ClearLcd
            },
            CounterPhase::ClearLcd => {
                self.phase = CounterPhase::ShowDisplay;
                BoardAction::ShowDisplay
            },
            CounterPhase::ShowDisplay => {
                self.phase = CounterPhase::WriteTitle;
                BoardAction::WriteText { text: "LED Count:" }
            },
            CounterPhase::WriteTitle => {
                self.phase = CounterPhase::CreateLed;
                BoardAction::CreateLed
            },
            CounterPhase::CreateLed | CounterPhase::WaitDark => {
                self.phase = CounterPhase::LedHigh;
                self.times = self.times + 1;
                BoardAction::LedHigh
            },
            CounterPhase::LedHigh => {
                self.phase = CounterPhase::FindLine;
                BoardAction::SetCursor { position: SECOND_LINE }
            },
            CounterPhase::FindLine => {
                self.phase = CounterPhase::BlankLine;
                BoardAction::WriteText { text: "        " }
            },
            CounterPhase::BlankLine => {
                self.phase = CounterPhase::FindLineAgain;
                BoardAction::SetCursor { position: SECOND_LINE }
            },
            CounterPhase::FindLineAgain => {
                self.phase = CounterPhase::WriteCount;
                BoardAction::WriteCount { count: self.times }
            },
            CounterPhase::WriteCount => {
                self.phase = CounterPhase::WaitLit;
                BoardAction::WaitSecs { secs: BLINK_SECS }
            },
            CounterPhase::WaitLit => {
                self.phase = CounterPhase::LedLow;
                BoardAction::LedLow
            },
            CounterPhase::LedLow => {
                self.phase = CounterPhase::WaitDark;
                BoardAction::WaitSecs { secs: BLINK_SECS }
            },
        }
    }
}

/// The state and the actions after a number of steps.
pub open spec fn run(state: CounterState, steps: nat) -> (CounterState, Seq<BoardAction>)
    decreases steps,
{
    if steps == 0 {
        (state, Seq::empty())
    } else {
        let (before, actions) = run(state, (steps - 1) as nat);
        let after = state_after(before);
        (after, actions.push(action_in(after.phase, after.count as u32)->0))
    }
}

/// The LCD is set up before the LED is ever lit.
pub proof fn set_up_comes_first(count: nat)
    ensures
        run(CounterState { phase: CounterPhase::PowerUp, count }, 6) == (
            CounterState { phase: CounterPhase::CreateLed, count },
            set_up(),
        ),
        ({
            let actions = run(CounterState { phase: CounterPhase::PowerUp, count }, 6).1;
            &&& actions.len() == 6
            &&& actions[0] == (BoardAction::CreateLcd { address: 0x27 })
            &&& actions[1] == BoardAction::ResetLcd
            &&& actions[2] == BoardAction::ClearLcd
            &&& actions[3] == BoardAction::ShowDisplay
            &&& actions[4] == (BoardAction::WriteText { text: "LED Count:" })
            &&& actions[5] == BoardAction::CreateLed
        }),
{
    reveal_with_fuel(run, 7);
    assert(run(CounterState { phase: CounterPhase::PowerUp, count }, 6).1 =~= set_up());
}

/// Once set up, the board blinks, over and over, and each time shows a count that is
/// one more than before.
pub proof fn board_blinks(state: CounterState)
    requires
        state.phase is CreateLed || state.phase is WaitDark,
        state.count < u32::MAX,
    ensures
        run(state, 8) == (
            CounterState { phase: CounterPhase::WaitDark, count: state.count + 1 },
            blink((state.count + 1) as u32),
        ),
        ({
            let actions = run(state, 8).1;
            let count = (state.count + 1) as u32;
            &&& actions.len() == 8
            &&& actions[0] == BoardAction::LedHigh
            &&& actions[1] == (BoardAction::SetCursor { position: 40 })
            &&& actions[2] == (BoardAction::WriteText { text: "        " })
            &&& actions[3] == (BoardAction::SetCursor { position: 40 })
            &&& actions[4] == (BoardAction::WriteCount { count })
            &&& actions[5] == (BoardAction::WaitSecs { secs: 1 })
            &&& actions[6] == BoardAction::LedLow
            &&& actions[7] == (BoardAction::WaitSecs { secs: 1 })
        }),
{
    reveal_with_fuel(run, 9);
    assert(run(state, 8).1 =~= blink((state.count + 1) as u32));
}

/// The count is how often the LED was lit.
pub proof fn count_follows_led(state: CounterState, steps: nat)
    ensures
        run(state, steps).0.count == state.count + times_lit(run(state, steps).1),
    decreases steps,
{
    if steps > 0 {
        count_follows_led(state, (steps - 1) as nat);
        let (before, actions) = run(state, (steps - 1) as nat);
        assert(run(state, steps).1.drop_last() =~= actions);
    }
}

}
