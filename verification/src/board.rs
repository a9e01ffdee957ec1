//! What the board with the LED and the LCD can be told to do.
use vstd::prelude::*;

verus! {

/// The I2C address of the LCD.
pub const LCD_ADDRESS: u8 = 0x27;

/// Where the second line of the LCD starts.
pub const SECOND_LINE: u8 = 40;

/// Seconds that the LED stays on, and off.
pub const BLINK_SECS: u64 = 1;

/// One thing to do.
#[derive(Clone, Copy, Debug, PartialEq, Eq)]
pub enum BoardAction {
    /// Reach the LCD at its address.
    CreateLcd { address: u8 },
    ResetLcd,
    ClearLcd,
    /// Switch the display on, without a cursor.
    ShowDisplay,
    /// Write a fixed text at the cursor.
    WriteText { text: &'static str },
    /// Take the LED's pin, switched off.
    CreateLed,
    LedHigh,
    LedLow,
    SetCursor { position: u8 },
    /// Write the count in decimal at the cursor.
    WriteCount { count: u32 },
    WaitSecs { secs: u64 },
}

/// What has to be done before the LED is lit for the first time.
pub open spec fn set_up() -> Seq<BoardAction> {
    seq![
        BoardAction::CreateLcd { address: LCD_ADDRESS },
        BoardAction::ResetLcd,
        BoardAction::ClearLcd,
        BoardAction::ShowDisplay,
        BoardAction::WriteText { text: "LED Count:" },
        BoardAction::CreateLed,
    ]
}

/// What has to be done to blink once: the LED is lit, the count is shown, and after a
/// while the LED is dark for a while.
pub open spec fn blink(count: u32) -> Seq<BoardAction> {
    seq![
        BoardAction::LedHigh,
        BoardAction::SetCursor { position: SECOND_LINE },
        BoardAction::WriteText { text: "        " },
        BoardAction::SetCursor { position: SECOND_LINE },
        BoardAction::WriteCount { count },
        BoardAction::WaitSecs { secs: BLINK_SECS },
        BoardAction::LedLow,
        BoardAction::WaitSecs { secs: BLINK_SECS },
    ]
}

/// How often the LED was lit.
pub open spec fn times_lit(actions: Seq<BoardAction>) -> nat
    decreases actions.len(),
{
    if actions.len() == 0 {
        0
    } else {
        times_lit(actions.drop_last()) + if actions.last() is LedHigh {
            1nat
        } else {
            0nat
        }
    }
}

/// A blink lights the LED once.
pub proof fn blink_lights_once(before: Seq<BoardAction>, count: u32)
    ensures
        times_lit(before + blink(count)) == times_lit(before) + 1,
{
    reveal_with_fuel(times_lit, 9);
    let all = before + blink(count);
    let n = before.len() as int;
    assert(all.take(n) =~= before);
    assert(all.take(n + 8) =~= all);
    assert forall|k: int| n <= k < n + 8 implies #[trigger] all.take(k + 1).drop_last() == all.take(
        k,
    ) by {
        assert(all.take(k + 1).drop_last() =~= all.take(k));
    }
    assert(all.take(n + 1).drop_last() == all.take(n));
    assert(all.take(n + 2).drop_last() == all.take(n + 1));
    assert(all.take(n + 3).drop_last() == all.take(n + 2));
    assert(all.take(n + 4).drop_last() == all.take(n + 3));
    assert(all.take(n + 5).drop_last() == all.take(n + 4));
    assert(all.take(n + 6).drop_last() == all.take(n + 5));
    assert(all.take(n + 7).drop_last() == all.take(n + 6));
    assert(all.take(n + 8).drop_last() == all.take(n + 7));
}

}
