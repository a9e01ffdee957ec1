//! What is logged when the device panics.
use crate::decimal::decimal;
use crate::log::{log_state, LogQueue, LogRecord, LogSeverity};
use crate::text::{
    composed_text_is_added_behind, fitting, log_composed, logged_composed, Text,
};
use vstd::prelude::*;
use vstd::utf8::encode_utf8;

verus! {

/// How often the last words are logged, so that one of them gets through.
pub const HALT_NOTICES: usize = 3;

/// How often to wait for the log to be sent before the device halts.
pub const HALT_DELAYS: usize = 50;

/// Cycles of each wait before the device halts.
pub const HALT_DELAY_CYCLES: u32 = 100_000;

/// The log text for a panic: where it happened and what it says, as far as that is
/// known.
pub open spec fn panic_text(
    location: Option<(Seq<char>, u32)>,
    message: Option<Seq<char>>,
) -> Seq<u8> {
    match location {
        Some((file, line)) => {
            let place = encode_utf8("PANIC at "@) + encode_utf8(file) + encode_utf8(":"@) + decimal(
                line as nat,
            );
            match message {
                Some(message) => place + encode_utf8(" - "@) + encode_utf8(message),
                None => place,
            }
        },
        None => encode_utf8("PANIC occurred at unknown location"@),
    }
}

/// The log after the last words were added to it `times` times.
pub open spec fn logged_notices(log: Option<Seq<LogRecord>>, times: nat) -> Option<Seq<LogRecord>>
    decreases times,
{
    if times == 0 {
        log
    } else {
        logged_composed(
            logged_notices(log, (times - 1) as nat),
            LogSeverity::Critical,
            fitting(encode_utf8("SYSTEM PANIC - HALTING"@)),
        )
    }
}

/// The log after a panic.
pub open spec fn log_after_panic(
    log: Option<Seq<LogRecord>>,
    location: Option<(Seq<char>, u32)>,
    message: Option<Seq<char>>,
) -> Option<Seq<LogRecord>> {
    logged_notices(
        logged_composed(log, LogSeverity::Critical, fitting(panic_text(location, message))),
        HALT_NOTICES as nat,
    )
}

/// The place of a panic as plain text.
pub open spec fn place_of(location: Option<(&str, u32)>) -> Option<(Seq<char>, u32)> {
    match location {
        Some((file, line)) => Some((file@, line)),
        None => None,
    }
}

/// A text that may be missing.
pub open spec fn text_of(message: Option<&str>) -> Option<Seq<char>> {
    match message {
        Some(message) => Some(message@),
        None => None,
    }
}

/// Composes the log text for a panic.
fn compose_panic_text(location: Option<(&str, u32)>, message: Option<&str>) -> (text: Text)
    ensures
        text@ == fitting(panic_text(place_of(location), text_of(message))),
{
    let mut text = Text::new();
    match location {
        Some((file, line)) => {
            text.push_str("PANIC at ");
            assert(Seq::<u8>::empty() + encode_utf8("PANIC at "@) =~= encode_utf8("PANIC at "@));
            text.push_str(file);
            text.push_str(":");
            text.push_number(line as u64);
            match message {
                Some(message) => {
                    text.push_str(" - ");
                    text.push_str(message);
                },
                None => {},
            }
        },
        None => {
            text.push_str("PANIC occurred at unknown location");
            assert(Seq::<u8>::empty() + encode_utf8("PANIC occurred at unknown location"@)
                =~= encode_utf8("PANIC occurred at unknown location"@));
        },
    }
    text
}

/// A panic is logged as critical: with its place, and with what it says where that is known,
/// or as one at an unknown place. The last words follow, three times.
pub proof fn panic_is_logged(
    log: Option<Seq<LogRecord>>,
    location: Option<(Seq<char>, u32)>,
    message: Option<Seq<char>>,
)
    ensures
        ({
            let bytes = if location is Some {
                let (file, line) = location->0;
                let place = encode_utf8("PANIC at "@) + encode_utf8(file) + encode_utf8(":"@)
                    + decimal(line as nat);
                if message is Some {
                    place + encode_utf8(" - "@) + encode_utf8(message->0)
                } else {
                    place
                }
            } else {
                encode_utf8("PANIC occurred at unknown location"@)
            };
            let told = logged_composed(
                log,
                LogSeverity::Critical,
                if bytes.len() <= 256 {
                    Some(bytes)
                } else {
                    None
                },
            );
            let words = encode_utf8("SYSTEM PANIC - HALTING"@);
            let once = logged_composed(told, LogSeverity::Critical, Some(words));
            let twice = logged_composed(once, LogSeverity::Critical, Some(words));
            &&& words.len() == 22
            &&& log_after_panic(log, location, message) == logged_composed(
                twice,
                LogSeverity::Critical,
                Some(words),
            )
        }),
{
    reveal_with_fuel(logged_notices, 4);
    reveal_strlit("SYSTEM PANIC - HALTING");
    vstd::utf8::is_ascii_chars_encode_utf8("SYSTEM PANIC - HALTING"@);
}

/// Whatever the panic, what waits in the log stays there, in order, with what is logged
/// about the panic, all of it critical, behind it.
pub proof fn panic_keeps_what_waits(
    log: Option<Seq<LogRecord>>,
    location: Option<(Seq<char>, u32)>,
    message: Option<Seq<char>>,
)
    ensures
        log is None ==> log_after_panic(log, location, message) is None,
        log matches Some(before) ==> {
            &&& log_after_panic(log, location, message) matches Some(after)
            &&& before.len() <= after.len()
            &&& after.subrange(0, before.len() as int) == before
            &&& forall|k: int|
                before.len() <= k < after.len() ==> (#[trigger] after[k]).severity is Critical
        },
{
    let text = fitting(panic_text(location, message));
    let words = fitting(encode_utf8("SYSTEM PANIC - HALTING"@));
    let told = logged_composed(log, LogSeverity::Critical, text);
    reveal_with_fuel(logged_notices, 4);
    lemma_critical_behind(log, text);
    lemma_critical_behind(logged_notices(told, 0), words);
    lemma_critical_behind(logged_notices(told, 1), words);
    lemma_critical_behind(logged_notices(told, 2), words);
}

proof fn lemma_critical_behind(log: Option<Seq<LogRecord>>, text: Option<Seq<u8>>)
    ensures
        log is None ==> logged_composed(log, LogSeverity::Critical, text) is None,
        log matches Some(before) ==> {
            &&& logged_composed(log, LogSeverity::Critical, text) matches Some(after)
            &&& before.len() <= after.len()
            &&& after.subrange(0, before.len() as int) == before
            &&& forall|i: int| 0 <= i < before.len() ==> #[trigger] after[i] == before[i]
            &&& forall|k: int|
                before.len() <= k < after.len() ==> (#[trigger] after[k]).severity is Critical
        },
{
    composed_text_is_added_behind(log, LogSeverity::Critical, text);
    if log is Some {
        let before = log->0;
        let after = logged_composed(log, LogSeverity::Critical, text)->0;
        assert(before.subrange(0, before.len() as int) =~= before);
        assert forall|i: int| 0 <= i < before.len() implies #[trigger] after[i] == before[i] by {
            assert(after.subrange(0, before.len() as int)[i] == after[i]);
        }
    }
}

/// The place and the message of a panic are logged as they are.
pub proof fn panic_is_logged_as_it_is(file: &str, line: u32, message: &str)
    ensures
        place_of(Some((file, line))) == Some((file@, line)),
        place_of(None) is None,
        text_of(Some(message)) == Some(message@),
        text_of(None) is None,
{
}

/// The device waits 50 times 100000 cycles before it halts.
pub proof fn halting_takes_its_time()
    ensures
        HALT_DELAYS == 50,
        HALT_DELAY_CYCLES == 100_000,
{
}

/// Logs a panic, and then the last words.
pub fn log_panic(
    slot: &mut Option<LogQueue>,
    location: Option<(&str, u32)>,
    message: Option<&str>,
)
    ensures
        log_state(*final(slot)) == log_after_panic(
            log_state(*old(slot)),
            place_of(location),
            text_of(message),
        ),
        *old(slot) is Some <==> *final(slot) is Some,
        log_state(*old(slot)) matches Some(before) ==> {
            let after = log_state(*final(slot))->0;
            &&& before.len() <= after.len()
            &&& after.subrange(0, before.len() as int) == before
        },
{
    proof {
        panic_keeps_what_waits(log_state(*slot), place_of(location), text_of(message));
    }
    let text = compose_panic_text(location, message);
    log_composed(slot, LogSeverity::Critical, &text);
    let ghost logged = log_state(*slot);
    let mut i: usize = 0;
    while i < HALT_NOTICES
        invariant
            i <= HALT_NOTICES,
            log_state(*slot) == logged_notices(logged, i as nat),
        decreases HALT_NOTICES - i,
    {
        let mut notice = Text::new();
        notice.push_str("SYSTEM PANIC - HALTING");
        assert(Seq::<u8>::empty() + encode_utf8("SYSTEM PANIC - HALTING"@) =~= encode_utf8(
            "SYSTEM PANIC - HALTING"@,
        ));
        log_composed(slot, LogSeverity::Critical, &notice);
        i = i + 1;
    }
}

}
