//! What the host sends to the device, and how the device takes it.
use crate::count::SharedCount;
use crate::decimal::decimal;
use crate::delivery::{
    all_requests, requests_are_answered_and_then_no_more, run, Arrival,
};
use crate::log::{
    log_state, log_text, logged_text, logging_adds_behind, LogQueue, LogRecord, LogSeverity,
};
use crate::report::{counter_report, input_report_bytes, join_bytes, payload_value};
use crate::reporter::{step, ReporterAction, System, UPDATE_PAUSE_MS};
use crate::requests::{a_request_is_added_behind, requested, RequestQueue};
use crate::text::{
    composed_text_is_added_behind, fitting, log_composed, logged_composed, Text,
};
use vstd::prelude::*;
use vstd::utf8::encode_utf8;

verus! {

/// Bytes of a report that the host sends: the command, then its value.
pub const OUTPUT_REPORT_SIZE: usize = 5;

/// Milliseconds to wait after a report that was too short.
pub const SHORT_READ_PAUSE_MS: u64 = 10;

/// Milliseconds to wait after a read that failed.
pub const FAILED_READ_PAUSE_MS: u64 = 50;

/// The command that asks for the counter.
pub const READ_COUNTER: u8 = 1;

/// The command that sets the counter, and asks for it.
pub const SET_COUNTER: u8 = 2;

/// Why no report could be read from the host.
#[derive(Clone, Copy, Debug, PartialEq, Eq, Structural)]
pub enum ReadError {
    /// The buffer was too small for the report.
    BufferOverflow,
    /// The endpoint is disabled.
    Disabled,
    /// Only this range of the report was read.
    Sync { start: usize, end: usize },
}

/// The value of a command: four bytes, the lowest first.
pub open spec fn command_value(buf: Seq<u8>) -> u32 {
    (buf[1] + 0x100 * buf[2] + 0x1_0000 * buf[3] + 0x100_0000 * buf[4]) as u32
}

/// Bytes as a list: `[1, 2, 3]`.
pub open spec fn byte_list(bytes: Seq<u8>) -> Seq<u8> {
    encode_utf8("["@) + byte_items(bytes) + encode_utf8("]"@)
}

/// Bytes in decimal, with a comma and a space between them.
pub open spec fn byte_items(bytes: Seq<u8>) -> Seq<u8>
    decreases bytes.len(),
{
    if bytes.len() == 0 {
        Seq::empty()
    } else if bytes.len() == 1 {
        decimal(bytes[0] as nat)
    } else {
        byte_items(bytes.drop_last()) + encode_utf8(", "@) + decimal(bytes.last() as nat)
    }
}

/// The log text for a report from the host.
pub open spec fn data_text(len: usize, buf: Seq<u8>) -> Seq<u8> {
    encode_utf8("Received data from host of size "@) + decimal(len as nat) + encode_utf8(" "@)
        + byte_list(buf)
}

/// The log text for a report that was too short.
pub open spec fn short_read_text(len: usize) -> Seq<u8> {
    encode_utf8("Received incomplete data from host of size "@) + decimal(len as nat)
}

/// The name of a read error.
pub open spec fn error_name(error: ReadError) -> Seq<u8> {
    match error {
        ReadError::BufferOverflow => encode_utf8("BufferOverflow"@),
        ReadError::Disabled => encode_utf8("Disabled"@),
        ReadError::Sync { start, end } => encode_utf8("Sync("@) + decimal(start as nat)
            + encode_utf8(".."@) + decimal(end as nat) + encode_utf8(")"@),
    }
}

/// The log text for a read that failed.
pub open spec fn failed_read_text(error: ReadError) -> Seq<u8> {
    encode_utf8("Error reading data from host: "@) + error_name(error)
}

/// Whether a read gave a whole report.
pub open spec fn is_report(outcome: Result<usize, ReadError>) -> bool {
    outcome matches Ok(len) && len >= OUTPUT_REPORT_SIZE
}

/// How long to wait after a read, if at all.
pub open spec fn pause_after(outcome: Result<usize, ReadError>) -> Option<u64> {
    match outcome {
        Ok(len) => if len >= OUTPUT_REPORT_SIZE {
            None
        } else {
            Some(SHORT_READ_PAUSE_MS)
        },
        Err(_) => Some(FAILED_READ_PAUSE_MS),
    }
}

/// Where the counter stands after a read.
pub open spec fn times_after(times: u32, outcome: Result<usize, ReadError>, buf: Seq<u8>) -> u32 {
    if is_report(outcome) && buf[0] == SET_COUNTER {
        command_value(buf)
    } else {
        times
    }
}

/// The requests that wait after a read: both known commands ask for the counter.
pub open spec fn requests_after(
    requests: Seq<bool>,
    outcome: Result<usize, ReadError>,
    buf: Seq<u8>,
) -> Seq<bool> {
    if is_report(outcome) && (buf[0] == READ_COUNTER || buf[0] == SET_COUNTER) {
        requested(requests)
    } else {
        requests
    }
}

/// The log text for a command.
pub open spec fn command_text(cmd_type: u8) -> Seq<char> {
    if cmd_type == READ_COUNTER {
        "Host requested counter value"@
    } else if cmd_type == SET_COUNTER {
        "Counter set to new value"@
    } else {
        "Unknown command type"@
    }
}

/// The log after a read.
pub open spec fn log_after(
    log: Option<Seq<LogRecord>>,
    outcome: Result<usize, ReadError>,
    buf: Seq<u8>,
) -> Option<Seq<LogRecord>> {
    match outcome {
        Ok(len) => if len >= OUTPUT_REPORT_SIZE {
            logged_text(
                logged_composed(log, LogSeverity::Info, fitting(data_text(len, buf))),
                command_text(buf[0]),
            )
        } else {
            logged_composed(log, LogSeverity::Warn, fitting(short_read_text(len)))
        },
        Err(error) => logged_composed(
            log,
            LogSeverity::Error,
            fitting(failed_read_text(error)),
        ),
    }
}

proof fn lemma_from_nothing(bytes: Seq<u8>)
    ensures
        Seq::<u8>::empty() + bytes == bytes,
{
    assert(Seq::<u8>::empty() + bytes =~= bytes);
}

/// Composes the log text for a report from the host.
fn compose_data_text(len: usize, buf: &[u8; OUTPUT_REPORT_SIZE]) -> (text: Text)
    ensures
        text@ == fitting(data_text(len, buf@)),
{
    let mut text = Text::new();
    text.push_str("Received data from host of size ");
    proof {
        lemma_from_nothing(encode_utf8("Received data from host of size "@));
    }
    text.push_number(len as u64);
    text.push_str(" ");
    let ghost head = encode_utf8("Received data from host of size "@) + decimal(len as nat)
        + encode_utf8(" "@);
    assert(text@ == fitting(head));
    text.push_str("[");
    let ghost opened = head + encode_utf8("["@);
    let mut i: usize = 0;
    assert(opened + byte_items(buf@.take(0)) =~= opened);
    while i < OUTPUT_REPORT_SIZE
        invariant
            i <= OUTPUT_REPORT_SIZE,
            text@ == fitting(opened + byte_items(buf@.take(i as int))),
        decreases OUTPUT_REPORT_SIZE - i,
    {
        let ghost items = byte_items(buf@.take(i as int));
        if i > 0 {
            text.push_str(", ");
        }
        text.push_number(buf[i] as u64);
        proof {
            let more = buf@.take(i + 1);
            assert(more.drop_last() =~= buf@.take(i as int));
            if i > 0 {
                assert(opened + byte_items(more) =~= opened + items + encode_utf8(", "@) + decimal(
                    buf@[i as int] as nat,
                ));
            } else {
                assert(opened + byte_items(more) =~= opened + items + decimal(
                    buf@[i as int] as nat,
                ));
            }
        }
        i = i + 1;
    }
    text.push_str("]");
    assert(buf@.take(OUTPUT_REPORT_SIZE as int) =~= buf@);
    assert(opened + byte_items(buf@) + encode_utf8("]"@) =~= data_text(len, buf@));
    text
}

/// Composes the log text for a report that was too short.
fn compose_short_read_text(len: usize) -> (text: Text)
    ensures
        text@ == fitting(short_read_text(len)),
{
    let mut text = Text::new();
    text.push_str("Received incomplete data from host of size ");
    proof {
        lemma_from_nothing(encode_utf8("Received incomplete data from host of size "@));
    }
    text.push_number(len as u64);
    text
}

/// Composes the log text for a read that failed.
fn compose_failed_read_text(error: ReadError) -> (text: Text)
    ensures
        text@ == fitting(failed_read_text(error)),
{
    let mut text = Text::new();
    text.push_str("Error reading data from host: ");
    proof {
        lemma_from_nothing(encode_utf8("Error reading data from host: "@));
    }
    let ghost head = encode_utf8("Error reading data from host: "@);
    match error {
        ReadError::BufferOverflow => {
            text.push_str("BufferOverflow");
        },
        ReadError::Disabled => {
            text.push_str("Disabled");
        },
        ReadError::Sync { start, end } => {
            text.push_str("Sync(");
            text.push_number(start as u64);
            text.push_str("..");
            text.push_number(end as u64);
            text.push_str(")");
            assert(head + encode_utf8("Sync("@) + decimal(start as nat) + encode_utf8(".."@)
                + decimal(end as nat) + encode_utf8(")"@) =~= failed_read_text(error));
        },
    }
    text
}

/// Reads the value out of a command.
fn parse_value(buf: &[u8; OUTPUT_REPORT_SIZE]) -> (value: u32)
    ensures
        value == command_value(buf@),
{
    let cmd_low: u16 = join_bytes(buf[1], buf[2]);
    let cmd_high: u16 = join_bytes(buf[3], buf[4]);
    proof {
        let high = cmd_high as u32;
        let low = cmd_low as u32;
        assert(((high << 16) | low) == 0x1_0000 * high + low) by (bit_vector)
            requires
                high < 0x1_0000,
                low < 0x1_0000,
        ;
    }
    ((cmd_high as u32) << 16) | (cmd_low as u32)
}

/// Takes the outcome of a read from the host: logs it, sets the counter or queues a
/// request for it where the host says so, and gives the milliseconds to wait before
/// the next read, if any.
pub fn handle_read(
    slot: &mut Option<LogQueue>,
    requests: &mut RequestQueue,
    times: &mut SharedCount,
    outcome: Result<usize, ReadError>,
    buf: &[u8; OUTPUT_REPORT_SIZE],
) -> (pause_ms: Option<u64>)
    ensures
        pause_ms == pause_after(outcome),
        final(times)@ == times_after(old(times)@, outcome, buf@),
        final(requests)@ == requests_after(old(requests)@, outcome, buf@),
        log_state(*final(slot)) == log_after(log_state(*old(slot)), outcome, buf@),
        old(requests).wf() ==> final(requests).wf(),
        // A whole report with a known command asks for the counter once, behind what waits.
        (outcome matches Ok(len) && len >= 5 && (buf@[0] == 1 || buf@[0] == 2)) ==> (
        if old(requests)@.len() < 8 {
            final(requests)@ == old(requests)@.push(true)
        } else {
            final(requests)@ == old(requests)@
        }),
        !(outcome matches Ok(len) && len >= 5 && (buf@[0] == 1 || buf@[0] == 2))
            ==> final(requests)@ == old(requests)@,
        // Only the command to set the counter changes it.
        (outcome matches Ok(len) && len >= 5 && buf@[0] == 2) ==> final(times)@ == buf@[1] + 0x100
            * buf@[2] + 0x1_0000 * buf@[3] + 0x100_0000 * buf@[4],
        !(outcome matches Ok(len) && len >= 5 && buf@[0] == 2) ==> final(times)@ == old(times)@,
        // What waits in the log stays there.
        *old(slot) is Some <==> *final(slot) is Some,
        log_state(*old(slot)) matches Some(before) ==> {
            let after = log_state(*final(slot))->0;
            &&& before.len() <= after.len()
            &&& after.subrange(0, before.len() as int) == before
        },
{
    proof {
        reading_keeps_what_waits(log_state(*slot), outcome, buf@);
    }
    match outcome {
        Ok(len) => {
            if len >= OUTPUT_REPORT_SIZE {
                let text = compose_data_text(len, buf);
                log_composed(slot, LogSeverity::Info, &text);
                let cmd_type: u8 = buf[0];
                if cmd_type == READ_COUNTER {
                    log_text(slot, "Host requested counter value");
                    let _ = requests.request();
                } else if cmd_type == SET_COUNTER {
                    times.store(parse_value(buf));
                    log_text(slot, "Counter set to new value");
                    let _ = requests.request();
                } else {
                    log_text(slot, "Unknown command type");
                }
                None
            } else {
                let text = compose_short_read_text(len);
                log_composed(slot, LogSeverity::Warn, &text);
                Some(SHORT_READ_PAUSE_MS)
            }
        },
        Err(error) => {
            let text = compose_failed_read_text(error);
            log_composed(slot, LogSeverity::Error, &text);
            Some(FAILED_READ_PAUSE_MS)
        },
    }
}

/// Whatever is read from the host, what waits in the log stays there, in order, and what
/// is logged about the read stands behind it. A log that is not set up stays so.
pub proof fn reading_keeps_what_waits(
    log: Option<Seq<LogRecord>>,
    outcome: Result<usize, ReadError>,
    buf: Seq<u8>,
)
    ensures
        log is None ==> log_after(log, outcome, buf) is None,
        log matches Some(before) ==> {
            &&& log_after(log, outcome, buf) matches Some(after)
            &&& before.len() <= after.len()
            &&& after.subrange(0, before.len() as int) == before
        },
{
    if let Some(before) = log {
        assert(before.subrange(0, before.len() as int) =~= before);
        let after = log_after(log, outcome, buf)->0;
        match outcome {
            Ok(len) => {
                let text = fitting(data_text(len, buf));
                let middle = logged_composed(log, LogSeverity::Info, text);
                composed_text_is_added_behind(log, LogSeverity::Info, text);
                composed_text_is_added_behind(
                    log,
                    LogSeverity::Warn,
                    fitting(short_read_text(len)),
                );
                logging_adds_behind(
                    middle,
                    LogSeverity::Info,
                    encode_utf8(command_text(buf[0])).push(0),
                );
                if len >= 5 {
                    let m = middle->0;
                    assert(after.subrange(0, m.len() as int) == m);
                    assert(after.subrange(0, before.len() as int) =~= m.subrange(
                        0,
                        before.len() as int,
                    )) by {
                        assert forall|i: int| 0 <= i < before.len() implies after[i] == m[i] by {
                            assert(after.subrange(0, m.len() as int)[i] == after[i]);
                        }
                    }
                }
            },
            Err(error) => {
                composed_text_is_added_behind(
                    log,
                    LogSeverity::Error,
                    fitting(failed_read_text(error)),
                );
            },
        }
    }
}

/// The texts that a whole report from the host adds to the log: first its size and its
/// bytes, then what is done about it.
pub proof fn report_is_logged(log: Option<Seq<LogRecord>>, len: usize, buf: Seq<u8>)
    requires
        len >= 5,
        buf.len() == 5,
    ensures
        ({
            let comma = encode_utf8(", "@);
            let items = decimal(buf[0] as nat) + comma + decimal(buf[1] as nat) + comma + decimal(
                buf[2] as nat,
            ) + comma + decimal(buf[3] as nat) + comma + decimal(buf[4] as nat);
            let bytes = encode_utf8("Received data from host of size "@) + decimal(len as nat)
                + encode_utf8(" "@) + (encode_utf8("["@) + items + encode_utf8("]"@));
            let told = logged_composed(
                log,
                LogSeverity::Info,
                if bytes.len() <= 256 {
                    Some(bytes)
                } else {
                    None
                },
            );
            &&& buf[0] == 1 ==> log_after(log, Ok(len), buf) == logged_text(
                told,
                "Host requested counter value"@,
            )
            &&& buf[0] == 2 ==> log_after(log, Ok(len), buf) == logged_text(
                told,
                "Counter set to new value"@,
            )
            &&& buf[0] != 1 && buf[0] != 2 ==> log_after(log, Ok(len), buf) == logged_text(
                told,
                "Unknown command type"@,
            )
        }),
{
    let comma = encode_utf8(", "@);
    let b4 = buf.drop_last();
    let b3 = b4.drop_last();
    let b2 = b3.drop_last();
    let b1 = b2.drop_last();
    assert(byte_items(b1) == decimal(buf[0] as nat));
    assert(byte_items(b2) == byte_items(b1) + comma + decimal(buf[1] as nat));
    assert(byte_items(b3) == byte_items(b2) + comma + decimal(buf[2] as nat));
    assert(byte_items(b4) == byte_items(b3) + comma + decimal(buf[3] as nat));
    assert(byte_items(buf) == byte_items(b4) + comma + decimal(buf[4] as nat));
}

/// A report that is too short is logged with its size as a warning, a read that failed with
/// its reason as an error, and after the one 10 and after the other 50 milliseconds pass
/// before the next read; after a whole report none do.
pub proof fn bad_read_is_logged(
    log: Option<Seq<LogRecord>>,
    outcome: Result<usize, ReadError>,
    buf: Seq<u8>,
)
    ensures
        outcome matches Ok(len) ==> len < 5 ==> {
            let bytes = encode_utf8("Received incomplete data from host of size "@) + decimal(
                len as nat,
            );
            &&& pause_after(outcome) == Some(10u64)
            &&& log_after(log, outcome, buf) == logged_composed(
                log,
                LogSeverity::Warn,
                if bytes.len() <= 256 {
                    Some(bytes)
                } else {
                    None
                },
            )
        },
        outcome matches Ok(len) ==> len >= 5 ==> pause_after(outcome) is None,
        outcome matches Err(error) ==> {
            let reason = match error {
                ReadError::BufferOverflow => encode_utf8("BufferOverflow"@),
                ReadError::Disabled => encode_utf8("Disabled"@),
                ReadError::Sync { start, end } => encode_utf8("Sync("@) + decimal(start as nat)
                    + encode_utf8(".."@) + decimal(end as nat) + encode_utf8(")"@),
            };
            let bytes = encode_utf8("Error reading data from host: "@) + reason;
            &&& pause_after(outcome) == Some(50u64)
            &&& log_after(log, outcome, buf) == logged_composed(
                log,
                LogSeverity::Error,
                if bytes.len() <= 256 {
                    Some(bytes)
                } else {
                    None
                },
            )
        },
{
}

/// A command to read or to set the counter adds one request, and only one, behind those
/// that wait, as long as fewer than eight do; with eight waiting, and after anything else
/// that is read, the requests are those that waited before.
pub proof fn each_command_makes_one_request(
    requests: Seq<bool>,
    outcome: Result<usize, ReadError>,
    buf: Seq<u8>,
)
    ensures
        (outcome matches Ok(len) && len >= 5 && (buf[0] == 1 || buf[0] == 2) && requests.len() < 8)
            ==> requests_after(requests, outcome, buf) == requests + seq![true],
        !(outcome matches Ok(len) && len >= 5 && (buf[0] == 1 || buf[0] == 2) && requests.len() < 8)
            ==> requests_after(requests, outcome, buf) == requests,
{
    a_request_is_added_behind(requests);
}

/// A command to set the counter sets it to the number that the last four bytes stand for,
/// the lowest byte first; nothing else that is read changes the counter.
pub proof fn only_set_changes_the_counter(
    times: u32,
    outcome: Result<usize, ReadError>,
    buf: Seq<u8>,
)
    ensures
        (outcome matches Ok(len) && len >= 5 && buf[0] == 2) ==> times_after(times, outcome, buf)
            == buf[1] + 0x100 * buf[2] + 0x1_0000 * buf[3] + 0x100_0000 * buf[4],
        !(outcome matches Ok(len) && len >= 5 && buf[0] == 2) ==> times_after(times, outcome, buf)
            == times,
{
}

/// The requests that wait after some whole reports of the host's, one after the other.
pub open spec fn requests_after_all(requests: Seq<bool>, reports: Seq<Seq<u8>>) -> Seq<bool>
    decreases reports.len(),
{
    if reports.len() == 0 {
        requests
    } else {
        requests_after(
            requests_after_all(requests, reports.drop_last()),
            Ok(OUTPUT_REPORT_SIZE),
            reports.last(),
        )
    }
}

/// As many requests wait as the host has sent commands, as long as there is room for them.
pub proof fn commands_add_up(requests: Seq<bool>, reports: Seq<Seq<u8>>)
    requires
        requests.len() + reports.len() <= 8,
        forall|i: int| 0 <= i < reports.len() ==> #[trigger] reports[i][0] == 1 || reports[i][0]
            == 2,
    ensures
        requests_after_all(requests, reports) == requests + Seq::new(
            reports.len(),
            |i: int| true,
        ),
    decreases reports.len(),
{
    if reports.len() == 0 {
        assert(requests + Seq::new(0, |i: int| true) =~= requests);
    } else {
        let past = reports.drop_last();
        assert forall|i: int| 0 <= i < past.len() implies #[trigger] past[i][0] == 1 || past[i][0]
            == 2 by {
            assert(past[i] == reports[i]);
        }
        commands_add_up(requests, past);
        let last = reports.len() - 1;
        assert(reports.last() == reports[last]);
        assert(reports[last][0] == 1 || reports[last][0] == 2);
        each_command_makes_one_request(
            requests_after_all(requests, past),
            Ok(OUTPUT_REPORT_SIZE),
            reports.last(),
        );
        assert(requests_after_all(requests, reports) =~= requests + Seq::new(
            reports.len(),
            |i: int| true,
        ));
    }
}

/// The commands that the host sends to an idle device are answered one by one: exactly as
/// many counter reports follow as there were commands, first of all, and none after them
/// until the host sends another command.
pub proof fn each_command_gets_one_report(
    before: System,
    reports: Seq<Seq<u8>>,
    arrivals: Seq<Arrival>,
)
    requires
        before.reporter.phase is Idle,
        before.requests.len() == 0,
        reports.len() <= 8,
        forall|i: int| 0 <= i < reports.len() ==> #[trigger] reports[i][0] == 1 || reports[i][0]
            == 2,
        reports.len() <= arrivals.len(),
        all_requests(arrivals).len() == 0,
    ensures
        ({
            let told = System { requests: requests_after_all(before.requests, reports), ..before };
            let actions = run(told, arrivals).1;
            &&& actions.len() == arrivals.len()
            &&& forall|j: int|
                0 <= j < reports.len() ==> {
                    &&& #[trigger] actions[j] is Send
                    &&& input_report_bytes(actions[j]->report)[0] == 2
                    &&& input_report_bytes(actions[j]->report)[1] == (before.reporter.next_id + j)
                        % 256
                    &&& input_report_bytes(actions[j]->report)[3] + 0x100 * input_report_bytes(
                        actions[j]->report,
                    )[4] + 0x1_0000 * input_report_bytes(actions[j]->report)[5] + 0x100_0000
                        * input_report_bytes(actions[j]->report)[6] == arrivals[j].times
                }
            &&& forall|j: int|
                reports.len() <= j < actions.len() ==> !(#[trigger] actions[j] is Send
                    && input_report_bytes(actions[j]->report)[0] == 2)
        }),
{
    let told = System { requests: requests_after_all(before.requests, reports), ..before };
    commands_add_up(before.requests, reports);
    requests_are_answered_and_then_no_more(told, arrivals);
}

/// The bytes of a command.
pub open spec fn command_bytes(cmd_type: u8, value: u32) -> Seq<u8> {
    seq![
        cmd_type,
        (value % 0x100) as u8,
        (value / 0x100 % 0x100) as u8,
        (value / 0x1_0000 % 0x100) as u8,
        (value / 0x100_0000) as u8,
    ]
}

/// Setting the counter sets it to the value that the host sent, whatever the value,
/// and the next report that the device sends once no log text is under way tells the
/// counter: as long as nobody changes it, the host reads back what it set.
pub proof fn set_counter_is_read_back(len: usize, value: u32, times: u32, before: System)
    requires
        len >= OUTPUT_REPORT_SIZE,
        before.reporter.phase is Idle,
    ensures
        ({
            let buf = command_bytes(SET_COUNTER, value);
            let told = System { requests: requests_after(before.requests, Ok(len), buf), ..before };
            let id = before.reporter.next_id;
            &&& times_after(times, Ok(len), buf) == value
            &&& step(told, value).1 == (ReporterAction::Send {
                report: counter_report(id, value),
                pause_ms: UPDATE_PAUSE_MS,
            })
            &&& payload_value(counter_report(id, value)) == value
        }),
{
    let buf = command_bytes(SET_COUNTER, value);
    assert(buf[1] + 0x100 * buf[2] + 0x1_0000 * buf[3] + 0x100_0000 * buf[4] == value);
}

/// Asking for the counter leaves it as it is and has it told in the next report that
/// the device sends once no log text is under way.
pub proof fn read_counter_is_answered(len: usize, buf: Seq<u8>, times: u32, before: System)
    requires
        len >= OUTPUT_REPORT_SIZE,
        buf.len() == OUTPUT_REPORT_SIZE,
        buf[0] == READ_COUNTER,
        before.reporter.phase is Idle,
    ensures
        ({
            let told = System { requests: requests_after(before.requests, Ok(len), buf), ..before };
            let id = before.reporter.next_id;
            &&& times_after(times, Ok(len), buf) == times
            &&& step(told, times).1 == (ReporterAction::Send {
                report: counter_report(id, times),
                pause_ms: UPDATE_PAUSE_MS,
            })
            &&& payload_value(counter_report(id, times)) == times
        }),
{
}

/// What is no command of the host's changes neither the counter nor the requests: a
/// failed read, a report that is too short, a command that is not known.
pub proof fn anything_else_is_ignored(
    requests: Seq<bool>,
    times: u32,
    outcome: Result<usize, ReadError>,
    buf: Seq<u8>,
)
    requires
        !is_report(outcome) || (buf[0] != READ_COUNTER && buf[0] != SET_COUNTER),
    ensures
        times_after(times, outcome, buf) == times,
        requests_after(requests, outcome, buf) == requests,
{
}

}
