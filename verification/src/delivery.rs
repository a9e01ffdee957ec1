//! What the host can rely on: how the steps of a reporter add up.
use crate::log::{
    enqueued, frame, frame_count, logged_text, records, terminator_fits_padding, LogRecord,
    LogSeverity, LOG_MESSAGE_SIZE, MAX_LOG_MESSAGES,
};
use crate::report::{
    chunk, counter_report, counter_report_on_the_wire, heartbeat_report,
    heartbeat_report_on_the_wire, input_bytes_layout,
    input_report_bytes, log_report, log_report_carries_bytes, log_report_on_the_wire,
    log_report_tells_severity, payload_bytes, payload_value, PayloadType, USBHIDReport,
    LOG_CHUNK_SIZE,
};
use crate::reporter::{
    after_chunk, id_after, sent_part, step, ReporterAction, ReporterPhase, ReporterState, System,
    CHUNK_PAUSE_MS, UPDATE_PAUSE_MS,
};
use crate::text::logged_composed;
use vstd::prelude::*;
use vstd::utf8::encode_utf8;

verus! {

/// What happened since the step before: requests and log messages that came, and
/// where the counter stands.
pub struct Arrival {
    pub requests: Seq<bool>,
    pub log: Seq<LogRecord>,
    pub times: u32,
}

/// A system that the arrivals have reached.
pub open spec fn arrived(system: System, arrival: Arrival) -> System {
    System {
        reporter: system.reporter,
        requests: system.requests + arrival.requests,
        log: system.log + arrival.log,
    }
}

/// The system and the actions after one step for each arrival.
pub open spec fn run(system: System, arrivals: Seq<Arrival>) -> (System, Seq<ReporterAction>)
    decreases arrivals.len(),
{
    if arrivals.len() == 0 {
        (system, Seq::empty())
    } else {
        let (before, actions) = run(system, arrivals.drop_last());
        let (after, action) = step(arrived(before, arrivals.last()), arrivals.last().times);
        (after, actions.push(action))
    }
}

/// All requests that came.
pub open spec fn all_requests(arrivals: Seq<Arrival>) -> Seq<bool>
    decreases arrivals.len(),
{
    if arrivals.len() == 0 {
        Seq::empty()
    } else {
        all_requests(arrivals.drop_last()) + arrivals.last().requests
    }
}

/// All log messages that came.
pub open spec fn all_log(arrivals: Seq<Arrival>) -> Seq<LogRecord>
    decreases arrivals.len(),
{
    if arrivals.len() == 0 {
        Seq::empty()
    } else {
        all_log(arrivals.drop_last()) + arrivals.last().log
    }
}

/// The number of reports that `len` bytes of log text take.
pub open spec fn report_count(len: nat) -> nat {
    (len + LOG_CHUNK_SIZE - 1) as nat / LOG_CHUNK_SIZE as nat
}

/// The payloads of the reports that were sent, put together.
pub open spec fn received_bytes(actions: Seq<ReporterAction>) -> Seq<u8>
    decreases actions.len(),
{
    if actions.len() == 0 {
        Seq::empty()
    } else {
        received_bytes(actions.drop_last()) + match actions.last() {
            ReporterAction::Send { report, .. } => payload_bytes(report),
            ReporterAction::Pause { .. } => Seq::empty(),
        }
    }
}

/// The text that a host makes of the reports: their payloads up to the first zero
/// byte.
pub open spec fn received_text(actions: Seq<ReporterAction>) -> Seq<u8> {
    let bytes = received_bytes(actions);
    match bytes.index_of_first(0u8) {
        Some(i) => bytes.take(i),
        None => bytes,
    }
}

/// The text bytes of the reports that were sent: the last four bytes of every report whose
/// first byte is 1, put together.
pub open spec fn wire_bytes(actions: Seq<ReporterAction>) -> Seq<u8>
    decreases actions.len(),
{
    if actions.len() == 0 {
        Seq::empty()
    } else {
        wire_bytes(actions.drop_last()) + (match actions.last() {
            ReporterAction::Send { report, .. } => {
                let bytes = input_report_bytes(report);
                if bytes[0] == 1 {
                    seq![bytes[3], bytes[4], bytes[5], bytes[6]]
                } else {
                    Seq::empty()
                }
            },
            ReporterAction::Pause { .. } => Seq::empty(),
        })
    }
}

/// The text that a host reads from the bytes that were sent: up to the first zero byte.
pub open spec fn wire_text(actions: Seq<ReporterAction>) -> Seq<u8> {
    let bytes = wire_bytes(actions);
    match bytes.index_of_first(0u8) {
        Some(i) => bytes.take(i),
        None => bytes,
    }
}

/// The number of a severity.
pub open spec fn severity_number(severity: LogSeverity) -> u8 {
    if severity is Debug {
        0
    } else if severity is Info {
        1
    } else if severity is Warn {
        2
    } else if severity is Error {
        4
    } else {
        8
    }
}

/// What a host sees on the wire of a text: every report but the last action is a log
/// report with this correlation number and severity, 10 milliseconds apart, then a pause of
/// 50 milliseconds follows; and the text bytes of the reports are the text.
pub open spec fn seen_on_the_wire(
    actions: Seq<ReporterAction>,
    id: u8,
    severity: LogSeverity,
    text: Seq<u8>,
) -> bool {
    &&& actions.len() >= 1
    &&& forall|j: int|
        0 <= j < actions.len() - 1 ==> {
            &&& #[trigger] actions[j] is Send
            &&& actions[j]->Send_pause_ms == 10
            &&& input_report_bytes(actions[j]->report).len() == 7
            &&& input_report_bytes(actions[j]->report)[0] == 1
            &&& input_report_bytes(actions[j]->report)[1] == id
            &&& input_report_bytes(actions[j]->report)[2] == severity_number(severity)
        }
    &&& actions.last() == (ReporterAction::Pause { pause_ms: 50 })
    &&& wire_text(actions) == text
}

proof fn lemma_wire_bytes(
    id: u8,
    severity: LogSeverity,
    sent: Seq<u8>,
    actions: Seq<ReporterAction>,
)
    requires
        forall|k: int|
            0 <= k < actions.len() ==> #[trigger] actions[k] == (ReporterAction::Send {
                report: log_report(id, severity, sent.skip(LOG_CHUNK_SIZE * k)),
                pause_ms: CHUNK_PAUSE_MS,
            }),
    ensures
        wire_bytes(actions) == received_bytes(actions),
    decreases actions.len(),
{
    if actions.len() > 0 {
        let past = actions.drop_last();
        assert forall|k: int| 0 <= k < past.len() implies #[trigger] past[k] == (
        ReporterAction::Send {
            report: log_report(id, severity, sent.skip(LOG_CHUNK_SIZE * k)),
            pause_ms: CHUNK_PAUSE_MS,
        }) by {
            assert(past[k] == actions[k]);
        }
        lemma_wire_bytes(id, severity, sent, past);
        let left = sent.skip(LOG_CHUNK_SIZE * (actions.len() - 1));
        let report = log_report(id, severity, left);
        assert(actions.last() == actions[actions.len() - 1]);
        log_report_carries_bytes(id, severity, left);
        log_report_on_the_wire(id, severity, left);
        let bytes = input_report_bytes(report);
        assert(seq![bytes[3], bytes[4], bytes[5], bytes[6]] =~= payload_bytes(report));
    }
}

proof fn lemma_seen(
    system: System,
    severity: LogSeverity,
    text: Seq<u8>,
    sent: Seq<u8>,
    rest: Seq<LogRecord>,
    arrivals: Seq<Arrival>,
)
    requires
        delivered(system, severity, text, sent, rest, arrivals),
    ensures
        seen_on_the_wire(run(system, arrivals).1, system.reporter.next_id, severity, text),
{
    let actions = run(system, arrivals).1;
    let id = system.reporter.next_id;
    let reports = actions.drop_last();
    assert forall|k: int| 0 <= k < reports.len() implies #[trigger] reports[k] == (
    ReporterAction::Send {
        report: log_report(id, severity, sent.skip(LOG_CHUNK_SIZE * k)),
        pause_ms: CHUNK_PAUSE_MS,
    }) by {
        assert(reports[k] == actions[k]);
    }
    lemma_wire_bytes(id, severity, sent, reports);
    assert(wire_bytes(actions) =~= wire_bytes(reports));
    assert(received_bytes(actions) =~= received_bytes(reports));
    assert forall|j: int| 0 <= j < actions.len() - 1 implies {
        &&& #[trigger] actions[j] is Send
        &&& actions[j]->Send_pause_ms == 10
        &&& input_report_bytes(actions[j]->report).len() == 7
        &&& input_report_bytes(actions[j]->report)[0] == 1
        &&& input_report_bytes(actions[j]->report)[1] == id
        &&& input_report_bytes(actions[j]->report)[2] == severity_number(severity)
    } by {
        let left = sent.skip(LOG_CHUNK_SIZE * j);
        log_report_on_the_wire(id, severity, left);
        log_report_tells_severity(id, severity, left);
    }
}

/// The actions are the reports of a log text, in order and under one correlation
/// number, and the pause that follows it; the reporter is free again and goes on
/// with the next number; what stood behind the text waits still, with all that came
/// meanwhile behind it.
pub open spec fn delivered(
    system: System,
    severity: LogSeverity,
    text: Seq<u8>,
    sent: Seq<u8>,
    rest: Seq<LogRecord>,
    arrivals: Seq<Arrival>,
) -> bool {
    let (after, actions) = run(system, arrivals);
    let n = report_count(sent.len());
    let id = system.reporter.next_id;
    &&& actions.len() == n + 1
    &&& forall|j: int|
        0 <= j < n ==> #[trigger] actions[j] == (ReporterAction::Send {
            report: log_report(id, severity, sent.skip(LOG_CHUNK_SIZE * j)),
            pause_ms: CHUNK_PAUSE_MS,
        })
    &&& actions[n as int] == (ReporterAction::Pause { pause_ms: UPDATE_PAUSE_MS })
    &&& after == (System {
        reporter: ReporterState { next_id: id_after(id), phase: ReporterPhase::Idle },
        requests: all_requests(arrivals),
        log: rest + all_log(arrivals),
    })
    &&& received_text(actions) == text
}

/// No zero byte but perhaps the last one, and, where the last one is none either,
/// messages that are filled to the end.
spec fn sendable(sent: Seq<u8>) -> bool {
    &&& sent.len() > 0
    &&& forall|i: int| 0 <= i < sent.len() - 1 ==> sent[i] != 0
    &&& sent.last() == 0 || sent.len() % LOG_MESSAGE_SIZE as nat == 0
}

/// Where the message in which byte `at` stands ends.
spec fn frame_end(sent: Seq<u8>, at: int) -> int {
    let end = LOG_MESSAGE_SIZE * (at / LOG_MESSAGE_SIZE as int + 1);
    if end < sent.len() {
        end
    } else {
        sent.len() as int
    }
}

proof fn lemma_frame_part(sent: Seq<u8>, i: int)
    requires
        sendable(sent),
        0 <= i < frame_count(sent.len()),
    ensures
        sent_part(frame(sent, i)) == sent.subrange(
            LOG_MESSAGE_SIZE * i,
            frame_end(sent, LOG_MESSAGE_SIZE * i),
        ),
        frame(sent, i).contains(0u8) <==> i == frame_count(sent.len()) - 1 && sent.last() == 0,
{
    let bytes = frame(sent, i);
    let start = LOG_MESSAGE_SIZE * i;
    let end = frame_end(sent, start);
    bytes.index_of_first_ensures(0u8);
    if i == frame_count(sent.len()) - 1 && sent.last() == 0 {
        assert(end == sent.len());
        let k = end - 1 - start;
        assert(bytes[k] == 0);
        assert forall|j: int| 0 <= j < k implies bytes[j] != 0 by {
            assert(bytes[j] == sent[start + j]);
        }
        assert(bytes.take(k + 1) =~= sent.subrange(start, end));
    } else {
        assert(end == start + LOG_MESSAGE_SIZE);
        assert forall|j: int| 0 <= j < bytes.len() implies bytes[j] != 0 by {
            assert(bytes[j] == sent[start + j]);
            if start + j == sent.len() - 1 {
                assert(i == frame_count(sent.len()) - 1);
            }
        }
        assert(bytes =~= sent.subrange(start, end));
    }
}

/// The system after `j` reports of a text.
spec fn midway(
    system: System,
    severity: LogSeverity,
    sent: Seq<u8>,
    rest: Seq<LogRecord>,
    arrivals: Seq<Arrival>,
    j: int,
) -> System {
    let at = LOG_CHUNK_SIZE * j;
    let f = (at - 1) / LOG_MESSAGE_SIZE as int;
    let end = frame_end(sent, at - 1);
    System {
        reporter: ReporterState {
            next_id: system.reporter.next_id,
            phase: ReporterPhase::Sending {
                severity,
                left: if at < end {
                    sent.subrange(at, end)
                } else {
                    Seq::empty()
                },
                last: f == frame_count(sent.len()) - 1 && sent.last() == 0,
            },
        },
        requests: all_requests(arrivals.take(j)),
        log: records(severity, sent).skip(f + 1) + rest + all_log(arrivals.take(j)),
    }
}

proof fn lemma_midway(
    system: System,
    severity: LogSeverity,
    sent: Seq<u8>,
    rest: Seq<LogRecord>,
    arrivals: Seq<Arrival>,
    j: int,
)
    requires
        sendable(sent),
        system.reporter.phase is Idle,
        system.requests.len() == 0,
        system.log == records(severity, sent) + rest,
        1 <= j <= report_count(sent.len()),
        j <= arrivals.len(),
        arrivals[0].requests.len() == 0,
    ensures
        run(system, arrivals.take(j)).0 == midway(system, severity, sent, rest, arrivals, j),
        run(system, arrivals.take(j)).1.len() == j,
        forall|k: int|
            0 <= k < j ==> #[trigger] run(system, arrivals.take(j)).1[k] == (ReporterAction::Send {
                report: log_report(
                    system.reporter.next_id,
                    severity,
                    sent.skip(LOG_CHUNK_SIZE * k),
                ),
                pause_ms: CHUNK_PAUSE_MS,
            }),
    decreases j,
{
    let now = arrivals.take(j);
    let arrival = now.last();
    let past = now.drop_last();
    assert(past =~= arrivals.take(j - 1));
    let all = records(severity, sent);
    let start = LOG_CHUNK_SIZE * (j - 1);
    let f = start / LOG_MESSAGE_SIZE as int;
    let end = frame_end(sent, start);
    lemma_frame_part(sent, f);
    let left = sent.subrange(start, end);
    assert(chunk(left) =~= chunk(sent.skip(start)));
    assert(frame_end(sent, start + LOG_CHUNK_SIZE - 1) == end);
    if start + LOG_CHUNK_SIZE < end {
        assert(after_chunk(left) =~= sent.subrange(start + LOG_CHUNK_SIZE, end));
    }
    if j == 1 {
        let before = arrived(system, arrival);
        assert(run(system, past).0 == system);
        assert(before.requests.len() == 0);
        assert(before.log[0] == all[0]);
        assert(before.log.skip(1) =~= all.skip(1) + rest + arrival.log);
        assert(all_log(now) =~= arrival.log) by {
            assert(all_log(past) =~= Seq::<LogRecord>::empty());
        }
        assert(all_requests(now) =~= Seq::<bool>::empty()) by {
            assert(all_requests(past) =~= Seq::<bool>::empty());
        }
    } else {
        lemma_midway(system, severity, sent, rest, arrivals, j - 1);
        let mid = midway(system, severity, sent, rest, arrivals, j - 1);
        let before = arrived(mid, arrival);
        let g = (start - 1) / LOG_MESSAGE_SIZE as int;
        assert(all_log(now) == all_log(past) + arrival.log);
        assert(before.log =~= all.skip(g + 1) + rest + all_log(now));
        if g == f {
            assert(frame_end(sent, start - 1) == end);
        } else {
            assert(f == g + 1);
            assert(start == LOG_MESSAGE_SIZE * f);
            assert(before.log[0] == all[f]);
            assert(before.log.skip(1) =~= all.skip(f + 1) + rest + all_log(now));
        }
    }
}

proof fn lemma_received(
    id: u8,
    severity: LogSeverity,
    sent: Seq<u8>,
    actions: Seq<ReporterAction>,
)
    requires
        forall|k: int|
            0 <= k < actions.len() ==> #[trigger] actions[k] == (ReporterAction::Send {
                report: log_report(id, severity, sent.skip(LOG_CHUNK_SIZE * k)),
                pause_ms: CHUNK_PAUSE_MS,
            }),
        actions.len() <= report_count(sent.len()),
    ensures
        received_bytes(actions) == Seq::new(
            (LOG_CHUNK_SIZE * actions.len()) as nat,
            |i: int|
                if i < sent.len() {
                    sent[i]
                } else {
                    0u8
                },
        ),
    decreases actions.len(),
{
    let n = actions.len() as int;
    let padded = Seq::new(
        (LOG_CHUNK_SIZE * n) as nat,
        |i: int|
            if i < sent.len() {
                sent[i]
            } else {
                0u8
            },
    );
    if n > 0 {
        let past = actions.drop_last();
        assert forall|k: int| 0 <= k < past.len() implies #[trigger] past[k] == (
        ReporterAction::Send {
            report: log_report(id, severity, sent.skip(LOG_CHUNK_SIZE * k)),
            pause_ms: CHUNK_PAUSE_MS,
        }) by {
            assert(past[k] == actions[k]);
        }
        lemma_received(id, severity, sent, past);
        let left = sent.skip(LOG_CHUNK_SIZE * (n - 1));
        assert(actions.last() == actions[n - 1]);
        log_report_carries_bytes(id, severity, left);
        assert(received_bytes(actions) =~= received_bytes(past) + chunk(left));
    }
    assert(received_bytes(actions) =~= padded);
}

proof fn lemma_delivered(
    system: System,
    severity: LogSeverity,
    text: Seq<u8>,
    sent: Seq<u8>,
    rest: Seq<LogRecord>,
    arrivals: Seq<Arrival>,
)
    requires
        sendable(sent),
        forall|i: int| 0 <= i < text.len() ==> text[i] != 0,
        sent == text.push(0) || sent == text,
        system.reporter.phase is Idle,
        system.requests.len() == 0,
        system.log == records(severity, sent) + rest,
        arrivals.len() == report_count(sent.len()) + 1,
        arrivals[0].requests.len() == 0,
        sent == text ==> (rest + all_log(arrivals)).len() == 0,
    ensures
        delivered(system, severity, text, sent, rest, arrivals),
{
    let n = report_count(sent.len()) as int;
    let (mid, reports) = run(system, arrivals.take(n));
    let (after, actions) = run(system, arrivals);
    lemma_midway(system, severity, sent, rest, arrivals, n);
    assert(arrivals.drop_last() =~= arrivals.take(n));
    let all = records(severity, sent);
    let f = (LOG_CHUNK_SIZE * n - 1) / LOG_MESSAGE_SIZE as int;
    assert(f == frame_count(sent.len()) - 1);
    assert(frame_end(sent, LOG_CHUNK_SIZE * n - 1) == sent.len());
    assert(all.skip(f + 1) =~= Seq::<LogRecord>::empty());
    let before = arrived(mid, arrivals.last());
    assert(before.log =~= rest + all_log(arrivals));
    assert(actions =~= reports.push(ReporterAction::Pause { pause_ms: UPDATE_PAUSE_MS }));
    lemma_received(system.reporter.next_id, severity, sent, reports);
    let bytes = received_bytes(reports);
    assert(actions.drop_last() =~= reports);
    assert(received_bytes(actions) =~= bytes);
    bytes.index_of_first_ensures(0u8);
    if sent == text {
        assert(bytes =~= text);
        assert(!bytes.contains(0u8));
    } else {
        let k = text.len() as int;
        assert(bytes[k] == 0);
        assert forall|i: int| 0 <= i < k implies bytes[i] != 0 by {
            assert(bytes[i] == text[i]);
        }
        assert(bytes.take(k) =~= text);
    }
}

/// A fixed text reaches the host whole: once its messages stand at the head of the
/// log and no request is open, the reports that follow carry the text and the zero
/// byte that ends it, under one correlation number, whatever else is logged or
/// requested meanwhile.
pub proof fn log_text_is_delivered(
    system: System,
    severity: LogSeverity,
    text: Seq<u8>,
    rest: Seq<LogRecord>,
    arrivals: Seq<Arrival>,
)
    requires
        !text.contains(0u8),
        system.reporter.phase is Idle,
        system.requests.len() == 0,
        system.log == records(severity, text.push(0)) + rest,
        arrivals.len() == report_count(text.len() + 1) + 1,
        arrivals[0].requests.len() == 0,
    ensures
        delivered(system, severity, text, text.push(0), rest, arrivals),
        seen_on_the_wire(run(system, arrivals).1, system.reporter.next_id, severity, text),
{
    lemma_delivered(system, severity, text, text.push(0), rest, arrivals);
    lemma_seen(system, severity, text, text.push(0), rest, arrivals);
}

/// A fixed text that is logged while nothing else waits is what the host reads from the
/// wire, as information and under the next correlation number, whatever is logged or
/// requested after it.
pub proof fn host_reads_what_was_logged(
    reporter: ReporterState,
    text: Seq<char>,
    arrivals: Seq<Arrival>,
)
    requires
        reporter.phase is Idle,
        !encode_utf8(text).contains(0u8),
        encode_utf8(text).len() < 64 * 128,
        arrivals.len() == encode_utf8(text).len() / 4 + 2,
        arrivals[0].requests.len() == 0,
    ensures
        ({
            let log = logged_text(Some(Seq::<LogRecord>::empty()), text)->0;
            let system = System { reporter, requests: Seq::empty(), log };
            let (after, actions) = run(system, arrivals);
            &&& wire_text(actions) == encode_utf8(text)
            &&& forall|j: int|
                0 <= j < actions.len() - 1 ==> {
                    &&& #[trigger] actions[j] is Send
                    &&& actions[j]->Send_pause_ms == 10
                    &&& input_report_bytes(actions[j]->report)[0] == 1
                    &&& input_report_bytes(actions[j]->report)[1] == reporter.next_id
                    &&& input_report_bytes(actions[j]->report)[2] == 1
                }
            &&& actions.last() == (ReporterAction::Pause { pause_ms: 50 })
            &&& after.reporter.phase is Idle
            &&& after.reporter.next_id == (reporter.next_id + 1) % 256
            &&& after.requests == all_requests(arrivals)
            &&& after.log == all_log(arrivals)
        }),
{
    let bytes = encode_utf8(text);
    let all = records(LogSeverity::Info, bytes.push(0));
    let none = Seq::<LogRecord>::empty();
    assert(none + all =~= all);
    assert(all + none =~= all);
    assert(none + all_log(arrivals) =~= all_log(arrivals));
    let system = System { reporter, requests: Seq::empty(), log: all };
    log_text_is_delivered(system, LogSeverity::Info, bytes, none, arrivals);
}

/// A composed text that is logged while nothing else waits, and does not fill its last
/// message, is what the host reads from the wire, with its severity and under the next
/// correlation number, whatever is logged or requested after it.
pub proof fn host_reads_what_was_composed(
    reporter: ReporterState,
    severity: LogSeverity,
    text: Seq<u8>,
    arrivals: Seq<Arrival>,
)
    requires
        reporter.phase is Idle,
        !text.contains(0u8),
        text.len() <= 256,
        text.len() % 64 != 0,
        arrivals.len() == text.len() / 4 + 2,
        arrivals[0].requests.len() == 0,
    ensures
        ({
            let log = logged_composed(Some(Seq::<LogRecord>::empty()), severity, Some(text))->0;
            let system = System { reporter, requests: Seq::empty(), log };
            let (after, actions) = run(system, arrivals);
            &&& wire_text(actions) == text
            &&& forall|j: int|
                0 <= j < actions.len() - 1 ==> {
                    &&& #[trigger] actions[j] is Send
                    &&& actions[j]->Send_pause_ms == 10
                    &&& input_report_bytes(actions[j]->report)[0] == 1
                    &&& input_report_bytes(actions[j]->report)[1] == reporter.next_id
                    &&& input_report_bytes(actions[j]->report)[2] == (if severity is Debug {
                        0
                    } else if severity is Info {
                        1
                    } else if severity is Warn {
                        2
                    } else if severity is Error {
                        4
                    } else {
                        8u8
                    })
                }
            &&& actions.last() == (ReporterAction::Pause { pause_ms: 50 })
            &&& after.reporter.phase is Idle
            &&& after.reporter.next_id == (reporter.next_id + 1) % 256
            &&& after.requests == all_requests(arrivals)
            &&& after.log == all_log(arrivals)
        }),
{
    let all = records(severity, text);
    let none = Seq::<LogRecord>::empty();
    assert(none + all =~= all);
    assert(all + none =~= all);
    assert(none + all_log(arrivals) =~= all_log(arrivals));
    let system = System { reporter, requests: Seq::empty(), log: all };
    composed_text_is_delivered(system, severity, text, none, arrivals);
}

/// A composed text reaches the host whole in the same way where it does not fill its
/// last message: the padding ends it.
pub proof fn composed_text_is_delivered(
    system: System,
    severity: LogSeverity,
    text: Seq<u8>,
    rest: Seq<LogRecord>,
    arrivals: Seq<Arrival>,
)
    requires
        !text.contains(0u8),
        text.len() % LOG_MESSAGE_SIZE as nat != 0,
        system.reporter.phase is Idle,
        system.requests.len() == 0,
        system.log == records(severity, text) + rest,
        arrivals.len() == report_count(text.len() + 1) + 1,
        arrivals[0].requests.len() == 0,
    ensures
        delivered(system, severity, text, text.push(0), rest, arrivals),
        seen_on_the_wire(run(system, arrivals).1, system.reporter.next_id, severity, text),
{
    terminator_fits_padding(severity, text);
    lemma_delivered(system, severity, text, text.push(0), rest, arrivals);
    lemma_seen(system, severity, text, text.push(0), rest, arrivals);
}

/// A composed text that fills its last message to the end reaches the host whole
/// where no other message follows it.
pub proof fn full_composed_text_is_delivered(
    system: System,
    severity: LogSeverity,
    text: Seq<u8>,
    arrivals: Seq<Arrival>,
)
    requires
        !text.contains(0u8),
        text.len() > 0,
        text.len() % LOG_MESSAGE_SIZE as nat == 0,
        system.reporter.phase is Idle,
        system.requests.len() == 0,
        system.log == records(severity, text),
        arrivals.len() == report_count(text.len()) + 1,
        arrivals[0].requests.len() == 0,
        all_log(arrivals).len() == 0,
    ensures
        delivered(system, severity, text, text, Seq::empty(), arrivals),
        seen_on_the_wire(run(system, arrivals).1, system.reporter.next_id, severity, text),
{
    assert(system.log =~= records(severity, text) + Seq::<LogRecord>::empty());
    assert(text[text.len() - 1] != 0);
    lemma_delivered(system, severity, text, text, Seq::empty(), arrivals);
    lemma_seen(system, severity, text, text, Seq::empty(), arrivals);
}

/// A request for the counter is answered as soon as no log text is under way, before
/// any log text that waits: the report carries the counter's value and the next
/// correlation number, and the request is used up.
pub proof fn request_is_answered_first(before: System, times: u32)
    requires
        before.reporter.phase is Idle,
        before.requests.len() > 0,
    ensures
        step(before, times).1 == (ReporterAction::Send {
            report: counter_report(before.reporter.next_id, times),
            pause_ms: UPDATE_PAUSE_MS,
        }),
        payload_value(counter_report(before.reporter.next_id, times)) == times,
        step(before, times).0.requests == before.requests.skip(1),
        step(before, times).0.log == before.log,
        step(before, times).0.reporter.phase is Idle,
{
}

/// Open requests are answered one after the other, each with the counter's value at that
/// step and with the next correlation number, while the log waits.
pub proof fn requests_are_answered_in_turn(system: System, arrivals: Seq<Arrival>)
    requires
        system.reporter.phase is Idle,
        arrivals.len() <= system.requests.len(),
    ensures
        ({
            let (after, actions) = run(system, arrivals);
            &&& actions.len() == arrivals.len()
            &&& forall|j: int|
                0 <= j < actions.len() ==> #[trigger] actions[j] == (ReporterAction::Send {
                    report: counter_report(
                        ((system.reporter.next_id + j) % 256) as u8,
                        arrivals[j].times,
                    ),
                    pause_ms: UPDATE_PAUSE_MS,
                })
            &&& after == (System {
                reporter: ReporterState {
                    next_id: ((system.reporter.next_id + arrivals.len()) % 256) as u8,
                    phase: ReporterPhase::Idle,
                },
                requests: (system.requests + all_requests(arrivals)).skip(arrivals.len() as int),
                log: system.log + all_log(arrivals),
            })
        }),
    decreases arrivals.len(),
{
    let (after, actions) = run(system, arrivals);
    if arrivals.len() == 0 {
        assert(system.requests =~= (system.requests + all_requests(arrivals)).skip(0));
        assert(system.log =~= system.log + all_log(arrivals));
    } else {
        let past = arrivals.drop_last();
        requests_are_answered_in_turn(system, past);
        let (before, answers) = run(system, past);
        assert(actions.drop_last() =~= answers);
        assert forall|j: int| 0 <= j < actions.len() implies #[trigger] actions[j] == (
        ReporterAction::Send {
            report: counter_report(
                ((system.reporter.next_id + j) % 256) as u8,
                arrivals[j].times,
            ),
            pause_ms: UPDATE_PAUSE_MS,
        }) by {
            if j < answers.len() {
                assert(actions[j] == answers[j]);
            }
        }
        assert(after.requests =~= (system.requests + all_requests(arrivals)).skip(
            arrivals.len() as int,
        ));
        assert(after.log =~= system.log + all_log(arrivals));
    }
}

/// How many counter reports were sent: reports whose first byte is 2.
pub open spec fn counters_sent(actions: Seq<ReporterAction>) -> nat
    decreases actions.len(),
{
    if actions.len() == 0 {
        0
    } else {
        counters_sent(actions.drop_last()) + (match actions.last() {
            ReporterAction::Send { report, .. } => if input_report_bytes(report)[0] == 2 {
                1nat
            } else {
                0nat
            },
            ReporterAction::Pause { .. } => 0nat,
        })
    }
}

proof fn lemma_first_byte(report: USBHIDReport)
    ensures
        input_report_bytes(report)[0] == report.payload_type,
{
    input_bytes_layout(report);
}

/// In every run, whatever is under way and whatever comes, each request gets one counter
/// report and no more: those that were sent and those that still wait are as many as the
/// requests that waited and came.
pub proof fn no_request_is_lost_or_doubled(system: System, arrivals: Seq<Arrival>)
    ensures
        ({
            let (after, actions) = run(system, arrivals);
            counters_sent(actions) + after.requests.len() == system.requests.len() + all_requests(
                arrivals,
            ).len()
        }),
    decreases arrivals.len(),
{
    if arrivals.len() > 0 {
        let past = arrivals.drop_last();
        no_request_is_lost_or_doubled(system, past);
        let (before, begun) = run(system, past);
        let (after, actions) = run(system, arrivals);
        let reached = arrived(before, arrivals.last());
        each_request_gets_one_answer(reached, arrivals.last().times);
        assert(actions.drop_last() =~= begun);
        if let ReporterAction::Send { report, .. } = actions.last() {
            lemma_first_byte(report);
        }
    }
}

proof fn lemma_run_in_two_parts(system: System, first: Seq<Arrival>, second: Seq<Arrival>)
    ensures
        run(system, first + second) == ({
            let (middle, begun) = run(system, first);
            let (after, done) = run(middle, second);
            (after, begun + done)
        }),
    decreases second.len(),
{
    let (middle, begun) = run(system, first);
    if second.len() == 0 {
        assert(first + second =~= first);
        assert(begun + Seq::<ReporterAction>::empty() =~= begun);
    } else {
        lemma_run_in_two_parts(system, first, second.drop_last());
        assert((first + second).drop_last() =~= first + second.drop_last());
        assert(run(system, first + second).1 =~= begun + run(middle, second).1);
    }
}

proof fn lemma_all_requests_take(arrivals: Seq<Arrival>, n: int)
    requires
        0 <= n <= arrivals.len(),
        all_requests(arrivals).len() == 0,
    ensures
        all_requests(arrivals.take(n)).len() == 0,
    decreases arrivals.len(),
{
    if n == arrivals.len() {
        assert(arrivals.take(n) =~= arrivals);
    } else {
        lemma_all_requests_take(arrivals.drop_last(), n);
        assert(arrivals.drop_last().take(n) =~= arrivals.take(n));
    }
}

proof fn lemma_no_counter(system: System, arrivals: Seq<Arrival>)
    requires
        system.requests.len() == 0,
        all_requests(arrivals).len() == 0,
    ensures
        run(system, arrivals).1.len() == arrivals.len(),
        forall|j: int|
            0 <= j < arrivals.len() ==> !(#[trigger] run(system, arrivals).1[j] is Send
                && input_report_bytes(run(system, arrivals).1[j]->report)[0] == 2),
    decreases arrivals.len(),
{
    if arrivals.len() > 0 {
        let past = arrivals.drop_last();
        lemma_no_counter(system, past);
        no_request_is_lost_or_doubled(system, past);
        let (before, begun) = run(system, past);
        let actions = run(system, arrivals).1;
        each_request_gets_one_answer(arrived(before, arrivals.last()), arrivals.last().times);
        assert forall|j: int| 0 <= j < arrivals.len() implies !(#[trigger] actions[j] is Send
            && input_report_bytes(actions[j]->report)[0] == 2) by {
            if j < begun.len() {
                assert(actions[j] == begun[j]);
            } else if actions[j] is Send {
                lemma_first_byte(actions[j]->report);
            }
        }
    }
}

/// The open requests of a device that sends no text are answered first of all, one report
/// each with the counter's value at that step, and no other counter report follows as long
/// as no other request comes.
pub proof fn requests_are_answered_and_then_no_more(system: System, arrivals: Seq<Arrival>)
    requires
        system.reporter.phase is Idle,
        system.requests.len() <= arrivals.len(),
        all_requests(arrivals).len() == 0,
    ensures
        ({
            let actions = run(system, arrivals).1;
            let n = system.requests.len();
            &&& actions.len() == arrivals.len()
            &&& forall|j: int|
                0 <= j < n ==> {
                    &&& #[trigger] actions[j] is Send
                    &&& input_report_bytes(actions[j]->report)[0] == 2
                    &&& input_report_bytes(actions[j]->report)[1] == (system.reporter.next_id + j)
                        % 256
                    &&& input_report_bytes(actions[j]->report)[3] + 0x100 * input_report_bytes(
                        actions[j]->report,
                    )[4] + 0x1_0000 * input_report_bytes(actions[j]->report)[5] + 0x100_0000
                        * input_report_bytes(actions[j]->report)[6] == arrivals[j].times
                }
            &&& forall|j: int|
                n <= j < actions.len() ==> !(#[trigger] actions[j] is Send && input_report_bytes(
                    actions[j]->report,
                )[0] == 2)
        }),
{
    let n = system.requests.len() as int;
    let first = arrivals.take(n);
    let second = arrivals.skip(n);
    assert(first + second =~= arrivals);
    lemma_all_requests_take(arrivals, n);
    lemma_all_requests_add(first, second);
    requests_are_answered_in_turn(system, first);
    lemma_run_in_two_parts(system, first, second);
    let (middle, begun) = run(system, first);
    let actions = run(system, arrivals).1;
    assert(middle.requests.len() == 0);
    lemma_no_counter(middle, second);
    let done = run(middle, second).1;
    assert(actions == begun + done);
    assert forall|j: int| 0 <= j < n implies {
        &&& #[trigger] actions[j] is Send
        &&& input_report_bytes(actions[j]->report)[0] == 2
        &&& input_report_bytes(actions[j]->report)[1] == (system.reporter.next_id + j) % 256
        &&& input_report_bytes(actions[j]->report)[3] + 0x100 * input_report_bytes(
            actions[j]->report,
        )[4] + 0x1_0000 * input_report_bytes(actions[j]->report)[5] + 0x100_0000
            * input_report_bytes(actions[j]->report)[6] == arrivals[j].times
    } by {
        assert(actions[j] == begun[j]);
        assert(first[j] == arrivals[j]);
        counter_report_on_the_wire(
            ((system.reporter.next_id + j) % 256) as u8,
            arrivals[j].times,
        );
    }
    assert forall|j: int| n <= j < actions.len() implies !(#[trigger] actions[j] is Send
        && input_report_bytes(actions[j]->report)[0] == 2) by {
        assert(actions[j] == done[j - n]);
    }
}

proof fn lemma_all_requests_add(first: Seq<Arrival>, second: Seq<Arrival>)
    ensures
        all_requests(first + second) == all_requests(first) + all_requests(second),
    decreases second.len(),
{
    if second.len() == 0 {
        assert(first + second =~= first);
        assert(all_requests(first + second) =~= all_requests(first) + all_requests(second));
    } else {
        lemma_all_requests_add(first, second.drop_last());
        assert((first + second).drop_last() =~= first + second.drop_last());
        assert(all_requests(first + second) =~= all_requests(first) + all_requests(second));
    }
}

/// Requests that come while a text is under way wait for its end, and then each of them is
/// answered, before any other text.
pub proof fn requests_during_a_text_are_answered_after_it(
    system: System,
    severity: LogSeverity,
    text: Seq<u8>,
    rest: Seq<LogRecord>,
    during: Seq<Arrival>,
    later: Seq<Arrival>,
)
    requires
        !text.contains(0u8),
        system.reporter.phase is Idle,
        system.requests.len() == 0,
        system.log == records(severity, text.push(0)) + rest,
        during.len() == report_count(text.len() + 1) + 1,
        during[0].requests.len() == 0,
        later.len() >= all_requests(during).len(),
        all_requests(later).len() == 0,
    ensures
        ({
            let actions = run(system, during + later).1;
            let m = during.len();
            let n = all_requests(during).len();
            &&& wire_text(actions.take(m as int)) == text
            &&& forall|j: int|
                0 <= j < m ==> !(#[trigger] actions[j] is Send && input_report_bytes(
                    actions[j]->report,
                )[0] == 2)
            &&& forall|j: int|
                m <= j < m + n ==> #[trigger] actions[j] is Send && input_report_bytes(
                    actions[j]->report,
                )[0] == 2
            &&& forall|j: int|
                m + n <= j < actions.len() ==> !(#[trigger] actions[j] is Send
                    && input_report_bytes(actions[j]->report)[0] == 2)
        }),
{
    log_text_is_delivered(system, severity, text, rest, during);
    lemma_run_in_two_parts(system, during, later);
    let (middle, begun) = run(system, during);
    let done = run(middle, later).1;
    let actions = run(system, during + later).1;
    let m = during.len() as int;
    requests_are_answered_and_then_no_more(middle, later);
    assert(actions.take(m) =~= begun);
    assert forall|j: int| 0 <= j < m implies !(#[trigger] actions[j] is Send
        && input_report_bytes(actions[j]->report)[0] == 2) by {
        assert(actions[j] == begun[j]);
    }
    assert forall|j: int| m <= j < actions.len() implies #[trigger] actions[j] == done[j - m] by {}
}

/// Whether an action sends a report of a payload type.
pub open spec fn sends(action: ReporterAction, payload_type: PayloadType) -> bool {
    action matches ReporterAction::Send { report, .. } && report.payload_type
        == payload_type.spec_code()
}

/// A request leaves its queue exactly when the counter is sent, and no step adds any
/// or changes their order.
pub proof fn each_request_gets_one_answer(before: System, times: u32)
    ensures
        sends(step(before, times).1, PayloadType::Counter) ==> before.requests.len() > 0
            && step(before, times).0.requests == before.requests.skip(1),
        !sends(step(before, times).1, PayloadType::Counter) ==> step(before, times).0.requests
            == before.requests,
{
}

/// No step loses or reorders log messages: the oldest one leaves exactly when the
/// first report of it is sent.
pub proof fn each_log_message_is_begun(before: System, times: u32)
    ensures
        step(before, times).0.log == before.log || (before.log.len() > 0 && step(
            before,
            times,
        ).0.log == before.log.skip(1) && step(before, times).1 == (ReporterAction::Send {
            report: log_report(
                before.reporter.next_id,
                before.log[0].severity,
                sent_part(before.log[0].bytes),
            ),
            pause_ms: CHUNK_PAUSE_MS,
        })),
{
}

/// A heartbeat is sent exactly when nothing is under way and nothing waits, and then
/// nothing changes.
pub proof fn heartbeat_means_nothing_waits(before: System, times: u32)
    ensures
        sends(step(before, times).1, PayloadType::Heartbeat) <==> before.reporter.phase is Idle
            && before.requests.len() == 0 && before.log.len() == 0,
        sends(step(before, times).1, PayloadType::Heartbeat) ==> step(before, times).0 == before
            && step(before, times).1 == (ReporterAction::Send {
            report: heartbeat_report(),
            pause_ms: UPDATE_PAUSE_MS,
        }),
{
}

/// Every report but a heartbeat carries the next correlation number. A counter value
/// and a log text use up one number each; heartbeats carry 0 and use none.
pub proof fn correlation_numbers(before: System, times: u32)
    ensures
        ({
            let (after, action) = step(before, times);
            &&& action matches ReporterAction::Send { report, .. } ==> report.correlation_id == (
            if sends(action, PayloadType::Heartbeat) {
                0
            } else {
                before.reporter.next_id
            })
            &&& after.reporter.next_id == (if sends(action, PayloadType::Counter)
                || action is Pause {
                id_after(before.reporter.next_id)
            } else {
                before.reporter.next_id
            })
        }),
{
}

/// What the messages in the log still have to send.
pub open spec fn parts(log: Seq<LogRecord>) -> Seq<u8>
    decreases log.len(),
{
    if log.len() == 0 {
        Seq::empty()
    } else {
        sent_part(log[0].bytes) + parts(log.skip(1))
    }
}

/// All log text that is still to be sent: the rest of the message that is under way,
/// then what waits.
pub open spec fn unsent(system: System) -> Seq<u8> {
    (match system.reporter.phase {
        ReporterPhase::Sending { left, .. } => left,
        ReporterPhase::Idle => Seq::empty(),
    }) + parts(system.log)
}

/// The bytes that the next step sends, if it sends log text.
pub open spec fn next_piece(system: System) -> Seq<u8> {
    let left = match system.reporter.phase {
        ReporterPhase::Sending { left, .. } if left.len() > 0 => left,
        _ => sent_part(system.log[0].bytes),
    };
    if left.len() <= LOG_CHUNK_SIZE {
        left
    } else {
        left.take(LOG_CHUNK_SIZE as int)
    }
}

/// Log text leaves in the order in which it waits and without gaps: every log report
/// carries the next bytes of it, and no other step touches it.
pub proof fn log_text_leaves_in_order(before: System, times: u32)
    ensures
        ({
            let (after, action) = step(before, times);
            &&& sends(action, PayloadType::Log) ==> {
                &&& payload_bytes(action->report) == chunk(next_piece(before))
                &&& unsent(before) == next_piece(before) + unsent(after)
            }
            &&& !sends(action, PayloadType::Log) ==> unsent(after) == unsent(before)
        }),
{
    let (after, action) = step(before, times);
    if sends(action, PayloadType::Log) {
        let message = before.log[0];
        let left = match before.reporter.phase {
            ReporterPhase::Sending { left, .. } if left.len() > 0 => left,
            _ => sent_part(message.bytes),
        };
        let severity = match before.reporter.phase {
            ReporterPhase::Sending { severity, left, .. } if left.len() > 0 => severity,
            _ => message.severity,
        };
        log_report_carries_bytes(before.reporter.next_id, severity, left);
        assert(chunk(left) =~= chunk(next_piece(before)));
        assert(left =~= next_piece(before) + after_chunk(left));
        assert(unsent(before) =~= next_piece(before) + unsent(after));
    }
}

proof fn lemma_parts_add(first: Seq<LogRecord>, second: Seq<LogRecord>)
    ensures
        parts(first + second) == parts(first) + parts(second),
    decreases first.len(),
{
    if first.len() == 0 {
        assert(first + second =~= second);
        assert(parts(first + second) =~= parts(first) + parts(second));
    } else {
        lemma_parts_add(first.skip(1), second);
        assert((first + second).skip(1) =~= first.skip(1) + second);
        assert(parts(first + second) =~= parts(first) + parts(second));
    }
}

proof fn lemma_parts_of_text(severity: LogSeverity, sent: Seq<u8>, i: int)
    requires
        sendable(sent),
        0 <= i <= frame_count(sent.len()),
    ensures
        parts(records(severity, sent).skip(i)) == sent.skip(
            if LOG_MESSAGE_SIZE * i <= sent.len() {
                LOG_MESSAGE_SIZE * i
            } else {
                sent.len() as int
            },
        ),
    decreases frame_count(sent.len()) - i,
{
    let all = records(severity, sent);
    if i < frame_count(sent.len()) {
        lemma_parts_of_text(severity, sent, i + 1);
        lemma_frame_part(sent, i);
        assert(all.skip(i)[0] == all[i]);
        assert(all.skip(i).skip(1) =~= all.skip(i + 1));
        assert(parts(all.skip(i)) =~= sent.skip(LOG_MESSAGE_SIZE * i));
    } else {
        assert(all.skip(i) =~= Seq::<LogRecord>::empty());
        assert(parts(all.skip(i)) =~= sent.skip(sent.len() as int));
    }
}

/// Where the log has room, adding a fixed text to it adds the text and its zero byte
/// to what will be sent, behind all that waits.
pub proof fn log_text_will_be_sent(log: Seq<LogRecord>, severity: LogSeverity, text: Seq<u8>)
    requires
        !text.contains(0u8),
        log.len() + frame_count(text.len() + 1) <= MAX_LOG_MESSAGES,
    ensures
        parts(enqueued(log, records(severity, text.push(0)))) == parts(log) + text.push(0),
{
    let all = records(severity, text.push(0));
    lemma_parts_add(log, all);
    lemma_parts_of_text(severity, text.push(0), 0);
    assert(all.skip(0) =~= all);
    assert(text.push(0).skip(0) =~= text.push(0));
}

/// Where the log has room, adding a composed text to it adds the text to what will be
/// sent, and the zero byte that pads its last message where there is any.
pub proof fn composed_text_will_be_sent(log: Seq<LogRecord>, severity: LogSeverity, text: Seq<u8>)
    requires
        !text.contains(0u8),
        log.len() + frame_count(text.len()) <= MAX_LOG_MESSAGES,
    ensures
        parts(enqueued(log, records(severity, text))) == parts(log) + (if text.len()
            % LOG_MESSAGE_SIZE as nat == 0 {
            text
        } else {
            text.push(0)
        }),
{
    let all = records(severity, text);
    terminator_fits_padding(severity, text);
    lemma_parts_add(log, all);
    assert(all.skip(0) =~= all);
    assert(text.skip(0) =~= text);
    assert(text.push(0).skip(0) =~= text.push(0));
    if text.len() == 0 {
        assert(all =~= Seq::<LogRecord>::empty());
        assert(parts(log) + text =~= parts(log));
    } else if text.len() % LOG_MESSAGE_SIZE as nat == 0 {
        assert(text[text.len() - 1] != 0);
        lemma_parts_of_text(severity, text, 0);
    } else {
        lemma_parts_of_text(severity, text.push(0), 0);
    }
}

/// Of a message, what stands before its first zero byte is sent, and that byte; all of it
/// where it has none.
pub proof fn sent_part_ends_at_first_zero(bytes: Seq<u8>)
    ensures
        ({
            let part = sent_part(bytes);
            &&& part.len() <= bytes.len()
            &&& forall|i: int| 0 <= i < part.len() ==> #[trigger] part[i] == bytes[i]
            &&& forall|i: int| 0 <= i < part.len() - 1 ==> #[trigger] bytes[i] != 0
            &&& part.len() < bytes.len() ==> part.len() > 0 && part.last() == 0
            &&& bytes.len() > 0 ==> part.len() > 0
        }),
{
    bytes.index_of_first_ensures(0u8);
}

/// While a message is under way nothing else is looked at: the next four bytes of it are
/// sent, with its severity, and 10 milliseconds pass.
pub proof fn message_goes_on(before: System, times: u32)
    requires
        before.reporter.phase matches ReporterPhase::Sending { left, .. } && left.len() > 0,
    ensures
        ({
            let (after, action) = step(before, times);
            let severity = before.reporter.phase->severity;
            let left = before.reporter.phase->left;
            let bytes = input_report_bytes(action->report);
            &&& action is Send
            &&& action->Send_pause_ms == 10
            &&& bytes.len() == 7
            &&& bytes[0] == 1
            &&& bytes[1] == before.reporter.next_id
            &&& bytes[2] == severity_number(severity)
            &&& bytes[3] == left[0]
            &&& bytes[4] == (if left.len() > 1 {
                left[1]
            } else {
                0u8
            })
            &&& bytes[5] == (if left.len() > 2 {
                left[2]
            } else {
                0u8
            })
            &&& bytes[6] == (if left.len() > 3 {
                left[3]
            } else {
                0u8
            })
            &&& after.reporter.next_id == before.reporter.next_id
            &&& after.reporter.phase matches ReporterPhase::Sending {
                severity: s,
                left: l,
                last: e,
            }
            &&& s == severity
            &&& e == before.reporter.phase->last
            &&& l.len() == (if left.len() > 4 {
                left.len() - 4
            } else {
                0
            })
            &&& forall|i: int| 0 <= i < l.len() ==> #[trigger] l[i] == left[i + 4]
            &&& after.requests == before.requests
            &&& after.log == before.log
        }),
{
    let severity = before.reporter.phase->severity;
    let left = before.reporter.phase->left;
    log_report_on_the_wire(before.reporter.next_id, severity, left);
    log_report_tells_severity(before.reporter.next_id, severity, left);
}

/// Where no request is open, or a text is still without its end, the oldest message that
/// waits is taken and its first four bytes are sent, with its severity, and 10 milliseconds
/// pass. It ends the text if it holds a zero byte.
pub proof fn next_message_is_begun(before: System, times: u32)
    requires
        before.log.len() > 0,
        before.log[0].bytes.len() > 0,
        match before.reporter.phase {
            ReporterPhase::Idle => before.requests.len() == 0,
            ReporterPhase::Sending { left, last, .. } => left.len() == 0 && !last,
        },
    ensures
        ({
            let (after, action) = step(before, times);
            let message = before.log[0];
            let part = sent_part(message.bytes);
            let bytes = input_report_bytes(action->report);
            &&& action is Send
            &&& action->Send_pause_ms == 10
            &&& bytes.len() == 7
            &&& bytes[0] == 1
            &&& bytes[1] == before.reporter.next_id
            &&& bytes[2] == severity_number(message.severity)
            &&& bytes[3] == part[0]
            &&& bytes[4] == (if part.len() > 1 {
                part[1]
            } else {
                0u8
            })
            &&& bytes[5] == (if part.len() > 2 {
                part[2]
            } else {
                0u8
            })
            &&& bytes[6] == (if part.len() > 3 {
                part[3]
            } else {
                0u8
            })
            &&& after.reporter.next_id == before.reporter.next_id
            &&& after.reporter.phase matches ReporterPhase::Sending { severity, left, last }
            &&& severity == message.severity
            &&& last <==> exists|i: int|
                0 <= i < message.bytes.len() && #[trigger] message.bytes[i] == 0
            &&& left.len() == (if part.len() > 4 {
                part.len() - 4
            } else {
                0
            })
            &&& forall|i: int| 0 <= i < left.len() ==> #[trigger] left[i] == part[i + 4]
            &&& after.requests == before.requests
            &&& after.log.len() == before.log.len() - 1
            &&& forall|i: int| 0 <= i < after.log.len() ==> #[trigger] after.log[i] == before.log[i
                + 1]
        }),
{
    let message = before.log[0];
    let part = sent_part(message.bytes);
    sent_part_ends_at_first_zero(message.bytes);
    log_report_on_the_wire(before.reporter.next_id, message.severity, part);
    log_report_tells_severity(before.reporter.next_id, message.severity, part);
}

/// A text ends with a pause of 50 milliseconds once its last message is sent, or where no
/// further message waits: its correlation number is used up, and nothing else changes.
pub proof fn text_ends(before: System, times: u32)
    requires
        before.reporter.phase matches ReporterPhase::Sending { left, last, .. } && left.len() == 0
            && (last || before.log.len() == 0),
    ensures
        ({
            let (after, action) = step(before, times);
            &&& action == (ReporterAction::Pause { pause_ms: 50 })
            &&& after.reporter.phase is Idle
            &&& after.reporter.next_id == (before.reporter.next_id + 1) % 256
            &&& after.requests == before.requests
            &&& after.log == before.log
        }),
{
}

/// Where no text is under way, an open request is answered with the counter's value and 50
/// milliseconds pass: one request and one correlation number are used up, and nothing else
/// changes.
pub proof fn request_is_answered(before: System, times: u32)
    requires
        before.reporter.phase is Idle,
        before.requests.len() > 0,
    ensures
        ({
            let (after, action) = step(before, times);
            let bytes = input_report_bytes(action->report);
            &&& action is Send
            &&& action->Send_pause_ms == 50
            &&& bytes.len() == 7
            &&& bytes[0] == 2
            &&& bytes[1] == before.reporter.next_id
            &&& bytes[2] == 1
            &&& bytes[3] + 0x100 * bytes[4] + 0x1_0000 * bytes[5] + 0x100_0000 * bytes[6] == times
            &&& after.reporter.phase is Idle
            &&& after.reporter.next_id == (before.reporter.next_id + 1) % 256
            &&& after.requests.len() == before.requests.len() - 1
            &&& forall|i: int|
                0 <= i < after.requests.len() ==> #[trigger] after.requests[i]
                    == before.requests[i + 1]
            &&& after.log == before.log
        }),
{
    counter_report_on_the_wire(before.reporter.next_id, times);
}

/// Where nothing is under way and nothing waits, a heartbeat is sent and 50 milliseconds
/// pass, and nothing changes.
pub proof fn idle_device_sends_heartbeat(before: System, times: u32)
    requires
        before.reporter.phase is Idle,
        before.requests.len() == 0,
        before.log.len() == 0,
    ensures
        ({
            let (after, action) = step(before, times);
            &&& action is Send
            &&& action->Send_pause_ms == 50
            &&& input_report_bytes(action->report) == seq![3u8, 0u8, 1u8, 0u8, 0u8, 0u8, 0u8]
            &&& after == before
        }),
{
    heartbeat_report_on_the_wire();
}

}
