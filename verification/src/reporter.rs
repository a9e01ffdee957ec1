//! What the device sends to the host, and when.
use crate::count::SharedCount;
use crate::log::{LogMessage, LogQueue, LogRecord, LogSeverity, LOG_MESSAGE_SIZE};
use crate::report::{
    counter_report, heartbeat_report, log_report, USBHIDReport, LOG_CHUNK_SIZE,
};
use crate::requests::RequestQueue;
use vstd::prelude::*;

verus! {

/// Milliseconds to wait after a report that carries a piece of a log text.
pub const CHUNK_PAUSE_MS: u64 = 10;

/// Milliseconds to wait after any other report, and after a log text.
pub const UPDATE_PAUSE_MS: u64 = 50;

/// What is to be done next.
#[derive(Clone, Copy, Debug, PartialEq, Eq, Structural)]
pub enum ReporterAction {
    /// Send a report, then wait.
    Send { report: USBHIDReport, pause_ms: u64 },
    /// Only wait.
    Pause { pause_ms: u64 },
}

/// Whether a log text is being sent.
#[derive(Clone, Copy)]
enum Progress {
    Idle,
    Sending { message: LogMessage, msg_len: usize, last_msg: bool, offset: usize },
}

/// Sends what waits: counter values, log texts and, where there is nothing to tell,
/// heartbeats.
pub struct Reporter {
    next_correlation_id: u8,
    progress: Progress,
}

/// What a [`Reporter`] is at: between texts, or in the middle of a log message of
/// which `left` is still to be sent and after which the text ends if `last`.
#[verifier::ext_equal]
pub enum ReporterPhase {
    Idle,
    Sending { severity: LogSeverity, left: Seq<u8>, last: bool },
}

/// The state of a [`Reporter`].
#[verifier::ext_equal]
pub struct ReporterState {
    pub next_id: u8,
    pub phase: ReporterPhase,
}

/// A reporter with the queues that it serves.
#[verifier::ext_equal]
pub struct System {
    pub reporter: ReporterState,
    pub requests: Seq<bool>,
    pub log: Seq<LogRecord>,
}

/// The number that follows a correlation number. After 255 comes 0.
pub open spec fn id_after(id: u8) -> u8 {
    ((id + 1) % 256) as u8
}

/// The part of a message that is sent: up to its first zero byte, which is sent
/// too, or all of it where it has none.
pub open spec fn sent_part(bytes: Seq<u8>) -> Seq<u8> {
    match bytes.index_of_first(0u8) {
        Some(i) => bytes.take(i + 1),
        None => bytes,
    }
}

/// What remains of a message after the first bytes of it were sent in a report.
pub open spec fn after_chunk(left: Seq<u8>) -> Seq<u8> {
    if left.len() <= LOG_CHUNK_SIZE {
        Seq::empty()
    } else {
        left.skip(LOG_CHUNK_SIZE as int)
    }
}

/// Sending the first report of the part `left` of a message.
pub open spec fn send_chunk(
    before: System,
    severity: LogSeverity,
    left: Seq<u8>,
    last: bool,
) -> (System, ReporterAction) {
    (
        System {
            reporter: ReporterState {
                next_id: before.reporter.next_id,
                phase: ReporterPhase::Sending { severity, left: after_chunk(left), last },
            },
            ..before
        },
        ReporterAction::Send {
            report: log_report(before.reporter.next_id, severity, left),
            pause_ms: CHUNK_PAUSE_MS,
        },
    )
}

/// Taking the oldest log message out of the queue and sending the first report of
/// it.
pub open spec fn send_next_message(before: System) -> (System, ReporterAction) {
    let message = before.log[0];
    send_chunk(
        System { log: before.log.skip(1), ..before },
        message.severity,
        sent_part(message.bytes),
        message.bytes.contains(0u8),
    )
}

/// Ending a log text: its correlation number is used up.
pub open spec fn end_text(before: System) -> (System, ReporterAction) {
    (
        System {
            reporter: ReporterState {
                next_id: id_after(before.reporter.next_id),
                phase: ReporterPhase::Idle,
            },
            ..before
        },
        ReporterAction::Pause { pause_ms: UPDATE_PAUSE_MS },
    )
}

/// One step of the reporter, while the counter stands at `times`: a log text that
/// was begun is sent to its end; then a request for the counter comes first, a log
/// text second, and a heartbeat where nothing waits.
pub open spec fn step(before: System, times: u32) -> (System, ReporterAction) {
    match before.reporter.phase {
        ReporterPhase::Sending { severity, left, last } => if left.len() > 0 {
            send_chunk(before, severity, left, last)
        } else if !last && before.log.len() > 0 {
            send_next_message(before)
        } else {
            end_text(before)
        },
        ReporterPhase::Idle => if before.requests.len() > 0 {
            (
                System {
                    reporter: ReporterState {
                        next_id: id_after(before.reporter.next_id),
                        phase: ReporterPhase::Idle,
                    },
                    requests: before.requests.skip(1),
                    ..before
                },
                ReporterAction::Send {
                    report: counter_report(before.reporter.next_id, times),
                    pause_ms: UPDATE_PAUSE_MS,
                },
            )
        } else if before.log.len() > 0 {
            send_next_message(before)
        } else {
            (
                before,
                ReporterAction::Send { report: heartbeat_report(), pause_ms: UPDATE_PAUSE_MS },
            )
        },
    }
}

/// How many bytes of a message are sent, and whether they end a text.
fn message_extent(message: &[u8; LOG_MESSAGE_SIZE]) -> (extent: (usize, bool))
    ensures
        extent.0 <= LOG_MESSAGE_SIZE,
        message@.take(extent.0 as int) == sent_part(message@),
        extent.1 == message@.contains(0u8),
{
    let mut msg_len: usize = 0;
    while msg_len < LOG_MESSAGE_SIZE
        invariant
            msg_len <= LOG_MESSAGE_SIZE,
            forall|i: int| 0 <= i < msg_len ==> message@[i] != 0,
        decreases LOG_MESSAGE_SIZE - msg_len,
    {
        let byte: u8 = message[msg_len];
        msg_len = msg_len + 1;
        if byte == 0 {
            proof {
                assert(message@[msg_len - 1] == 0);
                message@.index_of_first_ensures(0u8);
            }
            return (msg_len, true);
        }
    }
    proof {
        message@.index_of_first_ensures(0u8);
        assert(message@.take(LOG_MESSAGE_SIZE as int) =~= message@);
    }
    (msg_len, false)
}

impl View for Reporter {
    type V = ReporterState;

    closed spec fn view(&self) -> ReporterState {
        ReporterState {
            next_id: self.next_correlation_id,
            phase: match self.progress {
                Progress::Idle => ReporterPhase::Idle,
                Progress::Sending { message, msg_len, last_msg, offset } => ReporterPhase::Sending {
                    severity: message.severity,
                    left: message.message@.subrange(offset as int, msg_len as int),
                    last: last_msg,
                },
            },
        }
    }
}

impl Reporter {
    #[verifier::type_invariant]
    spec fn inv(self) -> bool {
        match self.progress {
            Progress::Idle => true,
            Progress::Sending { message, msg_len, last_msg, offset } => offset <= msg_len
                <= LOG_MESSAGE_SIZE,
        }
    }

    /// A reporter that has sent nothing yet. Correlation numbers start with 1.
    pub fn new() -> (reporter: Self)
        ensures
            reporter@ == (ReporterState { next_id: 1, phase: ReporterPhase::Idle }),
    {
        Reporter { next_correlation_id: 1, progress: Progress::Idle }
    }

    /// Decides what to do next. `times` is the counter that the host may ask for.
    pub fn next(
        &mut self,
        requests: &mut RequestQueue,
        log: &mut LogQueue,
        times: &mut SharedCount,
    ) -> (action: ReporterAction)
        ensures
            final(times)@ == old(times)@,
            ({
                let before = System {
                    reporter: old(self)@,
                    requests: old(requests)@,
                    log: old(log)@,
                };
                let after = System {
                    reporter: final(self)@,
                    requests: final(requests)@,
                    log: final(log)@,
                };
                (after, action) == step(before, old(times)@)
            }),
    {
        proof {
            use_type_invariant(&*self);
        }
        let id: u8 = self.next_correlation_id;
        match self.progress {
            Progress::Idle => {
                if requests.take() {
                    self.next_correlation_id = id.wrapping_add(1);
                    return ReporterAction::Send {
                        report: USBHIDReport::counter(id, times.load()),
                        pause_ms: UPDATE_PAUSE_MS,
                    };
                }
            },
            Progress::Sending { message, msg_len, last_msg, offset } => {
                if offset < msg_len {
                    return self.send(message, msg_len, last_msg, offset);
                }
                if last_msg {
                    return self.end();
                }
            },
        }
        match log.try_receive() {
            Some(message) => {
                let (msg_len, last_msg) = message_extent(&message.message);
                self.send(message, msg_len, last_msg, 0)
            },
            None => match self.progress {
                Progress::Idle => ReporterAction::Send {
                    report: USBHIDReport::default(),
                    pause_ms: UPDATE_PAUSE_MS,
                },
                Progress::Sending { .. } => self.end(),
            },
        }
    }

    /// Sends the next report of a message.
    fn send(
        &mut self,
        message: LogMessage,
        msg_len: usize,
        last_msg: bool,
        offset: usize,
    ) -> (action: ReporterAction)
        requires
            offset <= msg_len <= LOG_MESSAGE_SIZE,
        ensures
            ({
                let left = message.message@.subrange(offset as int, msg_len as int);
                &&& final(self)@ == (ReporterState {
                    next_id: old(self)@.next_id,
                    phase: ReporterPhase::Sending {
                        severity: message.severity,
                        left: after_chunk(left),
                        last: last_msg,
                    },
                })
                &&& action == (ReporterAction::Send {
                    report: log_report(old(self)@.next_id, message.severity, left),
                    pause_ms: CHUNK_PAUSE_MS,
                })
            }),
    {
        let report = USBHIDReport::log(
            self.next_correlation_id,
            message.severity,
            &message.message,
            offset,
            msg_len,
        );
        let sent: usize = if msg_len - offset <= LOG_CHUNK_SIZE {
            msg_len
        } else {
            offset + LOG_CHUNK_SIZE
        };
        self.progress = Progress::Sending { message, msg_len, last_msg, offset: sent };
        assert(message.message@.subrange(sent as int, msg_len as int) =~= after_chunk(
            message.message@.subrange(offset as int, msg_len as int),
        ));
        ReporterAction::Send { report, pause_ms: CHUNK_PAUSE_MS }
    }

    /// Ends a log text.
    fn end(&mut self) -> (action: ReporterAction)
        ensures
            final(self)@ == (ReporterState {
                next_id: id_after(old(self)@.next_id),
                phase: ReporterPhase::Idle,
            }),
            action == (ReporterAction::Pause { pause_ms: UPDATE_PAUSE_MS }),
    {
        self.progress = Progress::Idle;
        self.next_correlation_id = self.next_correlation_id.wrapping_add(1);
        ReporterAction::Pause { pause_ms: UPDATE_PAUSE_MS }
    }
}

}
