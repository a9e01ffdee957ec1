//! The log: texts cut into messages of a fixed size, which wait in a bounded
//! queue until they are sent to the host.
use embassy_sync::blocking_mutex::raw::CriticalSectionRawMutex;
use embassy_sync::channel::Channel;
use vstd::prelude::*;
use vstd::string::*;

verus! {

/// Bytes in one log message.
pub const LOG_MESSAGE_SIZE: usize = 64;

/// Log messages that can wait at a time.
pub const MAX_LOG_MESSAGES: usize = 128;

/// How urgent a log message is.
#[derive(Clone, Copy, Debug, PartialEq, Eq, Structural)]
pub enum LogSeverity {
    Debug,
    Info,
    Warn,
    Error,
    Critical,
}

impl LogSeverity {
    /// The number that stands for a severity in a report.
    pub open spec fn spec_code(self) -> u8 {
        match self {
            LogSeverity::Debug => 0,
            LogSeverity::Info => 1,
            LogSeverity::Warn => 2,
            LogSeverity::Error => 4,
            LogSeverity::Critical => 8,
        }
    }

    /// The number that stands for this severity in a report.
    pub fn code(self) -> (code: u8)
        ensures
            code == self.spec_code(),
            self is Debug <==> code == 0,
            self is Info <==> code == 1,
            self is Warn <==> code == 2,
            self is Error <==> code == 4,
            self is Critical <==> code == 8,
    {
        match self {
            LogSeverity::Debug => 0,
            LogSeverity::Info => 1,
            LogSeverity::Warn => 2,
            LogSeverity::Error => 4,
            LogSeverity::Critical => 8,
        }
    }
}

/// One entry of the log queue: a text of up to [`LOG_MESSAGE_SIZE`] bytes, padded
/// with zero bytes.
#[derive(Clone, Copy, Debug, PartialEq, Eq)]
pub struct LogMessage {
    pub severity: LogSeverity,
    pub message: [u8; LOG_MESSAGE_SIZE],
}

/// What a [`LogMessage`] holds.
#[verifier::ext_equal]
pub struct LogRecord {
    pub severity: LogSeverity,
    pub bytes: Seq<u8>,
}

impl View for LogMessage {
    type V = LogRecord;

    open spec fn view(&self) -> LogRecord {
        LogRecord { severity: self.severity, bytes: self.message@ }
    }
}

impl LogMessage {
    /// A message of the given severity and bytes.
    pub fn new(severity: LogSeverity, message: [u8; LOG_MESSAGE_SIZE]) -> (new: Self)
        ensures
            new.severity == severity,
            new.message == message,
    {
        Self { severity, message }
    }
}

// ---------------------------------------------------------------------------
// Cutting a text into messages
// ---------------------------------------------------------------------------

/// The number of messages that `len` bytes take.
pub open spec fn frame_count(len: nat) -> nat {
    (len + LOG_MESSAGE_SIZE - 1) as nat / LOG_MESSAGE_SIZE as nat
}

/// The bytes of message number `i` of a text: its share of the text, then zeros.
pub open spec fn frame(bytes: Seq<u8>, i: int) -> Seq<u8> {
    Seq::new(
        LOG_MESSAGE_SIZE as nat,
        |j: int|
            if LOG_MESSAGE_SIZE * i + j < bytes.len() {
                bytes[LOG_MESSAGE_SIZE * i + j]
            } else {
                0u8
            },
    )
}

/// The messages that a text is cut into.
pub open spec fn records(severity: LogSeverity, bytes: Seq<u8>) -> Seq<LogRecord> {
    Seq::new(
        frame_count(bytes.len()),
        |i: int| LogRecord { severity, bytes: frame(bytes, i) },
    )
}

/// Ending a text with a zero byte changes its messages only where the text fills
/// its last message to the end: one message of zeros follows then.
pub proof fn terminator_fits_padding(severity: LogSeverity, bytes: Seq<u8>)
    ensures
        bytes.len() % LOG_MESSAGE_SIZE as nat != 0 ==> records(severity, bytes.push(0)) == records(
            severity,
            bytes,
        ),
        bytes.len() % LOG_MESSAGE_SIZE as nat == 0 ==> records(severity, bytes.push(0)) == records(
            severity,
            bytes,
        ).push(
            LogRecord { severity, bytes: Seq::new(LOG_MESSAGE_SIZE as nat, |j: int| 0u8) },
        ),
{
    let ended = bytes.push(0);
    assert forall|i: int| 0 <= i < frame_count(bytes.len()) implies frame(ended, i) == frame(
        bytes,
        i,
    ) by {
        assert(frame(ended, i) =~= frame(bytes, i));
    }
    if bytes.len() % LOG_MESSAGE_SIZE as nat != 0 {
        assert(frame_count(ended.len()) == frame_count(bytes.len()));
        assert(records(severity, ended) =~= records(severity, bytes));
    } else {
        let n = frame_count(bytes.len());
        assert(frame_count(ended.len()) == n + 1);
        assert(frame(ended, n as int) =~= Seq::new(LOG_MESSAGE_SIZE as nat, |j: int| 0u8));
        assert(records(severity, ended) =~= records(severity, bytes).push(
            LogRecord { severity, bytes: Seq::new(LOG_MESSAGE_SIZE as nat, |j: int| 0u8) },
        ));
    }
}

// ---------------------------------------------------------------------------
// The queue
// ---------------------------------------------------------------------------

/// The log messages that wait to be sent: an `embassy_sync` channel of
/// [`MAX_LOG_MESSAGES`] places.
#[verifier::external_body]
pub struct LogQueue {
    channel: Channel<CriticalSectionRawMutex, LogMessage, MAX_LOG_MESSAGES>,
}

/// What the channel in a [`LogQueue`] buffers, the oldest message first.
pub uninterp spec fn log_queue_contents(queue: LogQueue) -> Seq<LogRecord>;

/// `Channel::new`: a channel that buffers nothing.
#[verifier::external_body]
fn log_channel_new() -> (queue: LogQueue)
    ensures
        log_queue_contents(queue) == Seq::<LogRecord>::empty(),
{
    LogQueue { channel: Channel::new() }
}

/// `Channel::try_send`: puts the message behind those that wait if fewer than
/// [`MAX_LOG_MESSAGES`] do, and otherwise leaves the channel as it was and says so.
#[verifier::external_body]
fn log_channel_try_send(queue: &mut LogQueue, message: LogMessage) -> (sent: bool)
    ensures
        sent <==> log_queue_contents(*old(queue)).len() < MAX_LOG_MESSAGES,
        sent ==> log_queue_contents(*final(queue)) == log_queue_contents(*old(queue)).push(
            message@,
        ),
        !sent ==> log_queue_contents(*final(queue)) == log_queue_contents(*old(queue)),
{
    queue.channel.try_send(message).is_ok()
}

/// `Channel::try_receive`: takes the oldest message out, or gives nothing where
/// none waits.
#[verifier::external_body]
fn log_channel_try_receive(queue: &mut LogQueue) -> (received: Option<LogMessage>)
    ensures
        received is Some <==> log_queue_contents(*old(queue)).len() > 0,
        received matches Some(message) ==> {
            &&& message@ == log_queue_contents(*old(queue))[0]
            &&& log_queue_contents(*final(queue)) == log_queue_contents(*old(queue)).skip(1)
        },
        received is None ==> log_queue_contents(*final(queue)) == log_queue_contents(*old(queue)),
{
    queue.channel.try_receive().ok()
}

impl View for LogQueue {
    type V = Seq<LogRecord>;

    open spec fn view(&self) -> Seq<LogRecord> {
        log_queue_contents(*self)
    }
}

/// The queue after messages were offered to it one by one: it takes them in turn
/// while it has room, and drops the rest.
pub open spec fn enqueued(queue: Seq<LogRecord>, offered: Seq<LogRecord>) -> Seq<LogRecord> {
    if queue.len() + offered.len() <= MAX_LOG_MESSAGES {
        queue + offered
    } else if queue.len() < MAX_LOG_MESSAGES {
        queue + offered.take(MAX_LOG_MESSAGES - queue.len())
    } else {
        queue
    }
}

impl LogQueue {
    /// No more messages wait than the queue has places.
    pub open spec fn wf(self) -> bool {
        self@.len() <= MAX_LOG_MESSAGES
    }

    /// A queue in which nothing waits.
    pub fn new() -> (queue: Self)
        ensures
            queue@ == Seq::<LogRecord>::empty(),
            queue.wf(),
    {
        log_channel_new()
    }

    /// Offers one message to the queue without waiting for room, and says whether
    /// the queue took it.
    pub fn try_send(&mut self, message: LogMessage) -> (sent: bool)
        ensures
            sent <==> old(self)@.len() < MAX_LOG_MESSAGES,
            final(self)@ == enqueued(old(self)@, seq![message@]),
            old(self)@.len() < 128 ==> final(self)@ == old(self)@.push(message@),
            old(self)@.len() >= 128 ==> final(self)@ == old(self)@,
            old(self).wf() ==> final(self).wf(),
    {
        let sent = log_channel_try_send(self, message);
        assert(sent ==> old(self)@.push(message@) =~= old(self)@ + seq![message@]);
        sent
    }

    /// Takes the oldest message out of the queue.
    pub fn try_receive(&mut self) -> (received: Option<LogMessage>)
        ensures
            received is Some <==> old(self)@.len() > 0,
            received matches Some(message) ==> message@ == old(self)@[0] && final(self)@ == old(
                self,
            )@.skip(1),
            received is None ==> final(self)@ == old(self)@,
            old(self).wf() ==> final(self).wf(),
    {
        log_channel_try_receive(self)
    }

    /// Cuts a text into messages and offers them to the queue.
    pub fn enqueue(&mut self, severity: LogSeverity, bytes: &[u8])
        ensures
            final(self)@ == enqueued(old(self)@, records(severity, bytes@)),
            old(self).wf() ==> final(self).wf(),
    {
        let ghost before = self@;
        let ghost all = records(severity, bytes@);
        let ghost mut taken: int = 0;
        let mut offset: usize = 0;
        assert(all.take(0) =~= Seq::<LogRecord>::empty());
        assert(before + all.take(0) =~= before);
        while offset < bytes.len()
            invariant
                0 <= taken <= all.len(),
                all == records(severity, bytes@),
                offset <= bytes@.len(),
                offset < bytes@.len() ==> offset == LOG_MESSAGE_SIZE * taken,
                offset == bytes@.len() ==> taken == all.len(),
                self@ == enqueued(before, all.take(taken)),
            decreases bytes.len() - offset,
        {
            let mut log_msg: [u8; LOG_MESSAGE_SIZE] = [0u8; LOG_MESSAGE_SIZE];
            let left: usize = bytes.len() - offset;
            let chunk_len: usize = if left < LOG_MESSAGE_SIZE {
                left
            } else {
                LOG_MESSAGE_SIZE
            };
            let mut i: usize = 0;
            while i < chunk_len
                invariant
                    i <= chunk_len <= LOG_MESSAGE_SIZE,
                    offset + chunk_len <= bytes.len(),
                    forall|j: int| 0 <= j < i ==> log_msg@[j] == bytes@[offset + j],
                    forall|j: int| i <= j < LOG_MESSAGE_SIZE ==> log_msg@[j] == 0,
                decreases chunk_len - i,
            {
                log_msg[i] = bytes[offset + i];
                i = i + 1;
            }
            let message = LogMessage::new(severity, log_msg);
            assert(log_msg@ =~= frame(bytes@, taken));
            assert(message@ == all[taken]);
            let _ = self.try_send(message);
            proof {
                lemma_enqueued_one_more(before, all, taken);
                taken = taken + 1;
            }
            offset = offset + chunk_len;
        }
        assert(all.take(taken) =~= all);
    }
}

proof fn lemma_enqueued_one_more(queue: Seq<LogRecord>, all: Seq<LogRecord>, taken: int)
    requires
        0 <= taken < all.len(),
    ensures
        enqueued(enqueued(queue, all.take(taken)), seq![all[taken]]) == enqueued(
            queue,
            all.take(taken + 1),
        ),
{
    offering_in_two_parts(queue, all.take(taken), seq![all[taken]]);
    assert(all.take(taken) + seq![all[taken]] =~= all.take(taken + 1));
}

/// Offering messages in two parts, one after the other, is offering them all.
pub proof fn offering_in_two_parts(
    queue: Seq<LogRecord>,
    first: Seq<LogRecord>,
    second: Seq<LogRecord>,
)
    ensures
        enqueued(enqueued(queue, first), second) == enqueued(queue, first + second),
{
    assert(enqueued(enqueued(queue, first), second) =~= enqueued(queue, first + second));
}

/// Logging never grows the queue past its places, and never takes away or
/// reorders what waits already: new messages stand behind it, in order.
pub proof fn logging_keeps_what_waits(queue: Seq<LogRecord>, offered: Seq<LogRecord>)
    requires
        queue.len() <= MAX_LOG_MESSAGES,
    ensures
        enqueued(queue, offered).len() <= MAX_LOG_MESSAGES,
        queue.is_prefix_of(enqueued(queue, offered)),
        enqueued(queue, offered).is_prefix_of(queue + offered),
        queue.len() + offered.len() <= MAX_LOG_MESSAGES ==> enqueued(queue, offered) == queue
            + offered,
{
    let after = enqueued(queue, offered);
    assert(queue =~= after.subrange(0, queue.len() as int));
    assert(after =~= (queue + offered).subrange(0, after.len() as int));
}

// ---------------------------------------------------------------------------
// Logging
// ---------------------------------------------------------------------------

/// What waits in the log, if the log has been set up.
pub open spec fn log_state(slot: Option<LogQueue>) -> Option<Seq<LogRecord>> {
    match slot {
        Some(queue) => Some(queue@),
        None => None,
    }
}

/// What waits in a log that is set up is what its queue buffers, each message with its
/// severity and all of its bytes.
pub proof fn log_state_is_what_waits(queue: LogQueue, message: LogMessage)
    ensures
        log_state(Some(queue)) == Some(log_queue_contents(queue)),
        log_state(None) is None,
        queue@ == log_queue_contents(queue),
        message@.severity == message.severity,
        message@.bytes == message.message@,
{
}

/// The log after a text was added to it. Before the log is set up nothing is kept.
pub open spec fn logged(
    log: Option<Seq<LogRecord>>,
    severity: LogSeverity,
    bytes: Seq<u8>,
) -> Option<Seq<LogRecord>> {
    match log {
        Some(queue) => Some(enqueued(queue, records(severity, bytes))),
        None => None,
    }
}

/// The log after a fixed text was added to it: fixed texts are informational and
/// end with a zero byte.
pub open spec fn logged_text(log: Option<Seq<LogRecord>>, text: Seq<char>) -> Option<
    Seq<LogRecord>,
> {
    logged(log, LogSeverity::Info, vstd::utf8::encode_utf8(text).push(0))
}

/// Logging a text keeps everything that waits, in order, and puts the text behind it: in
/// messages of 64 bytes with the text's severity, each with its share of the text and zeros
/// after the end, as many as the 128 places allow. Without a log nothing is kept.
pub proof fn logging_adds_behind(
    log: Option<Seq<LogRecord>>,
    severity: LogSeverity,
    bytes: Seq<u8>,
)
    ensures
        log is None ==> logged(log, severity, bytes) is None,
        log matches Some(before) ==> {
            &&& logged(log, severity, bytes) matches Some(after)
            &&& after.len() == (if before.len() + (bytes.len() + 63) / 64 <= 128 {
                before.len() + (bytes.len() + 63) / 64
            } else if before.len() < 128 {
                128
            } else {
                before.len()
            })
            &&& after.subrange(0, before.len() as int) == before
            &&& forall|k: int|
                before.len() <= k < after.len() ==> (#[trigger] after[k]).severity == severity
                    && after[k].bytes.len() == 64
            &&& forall|k: int, j: int|
                before.len() <= k < after.len() && 0 <= j < 64
                    ==> #[trigger] after[k].bytes[j] == (if 64 * (k - before.len()) + j
                    < bytes.len() {
                    bytes[64 * (k - before.len()) + j]
                } else {
                    0u8
                })
        },
{
    if let Some(before) = log {
        let all = records(severity, bytes);
        let after = logged(log, severity, bytes)->0;
        assert(after.subrange(0, before.len() as int) =~= before);
        assert forall|k: int| before.len() <= k < after.len() implies after[k] == all[k
            - before.len()] by {}
        assert forall|k: int| before.len() <= k < after.len() implies (
        #[trigger] after[k]).severity == severity && after[k].bytes.len() == 64 by {
            assert(after[k] == all[k - before.len()]);
        }
        assert forall|k: int, j: int|
            before.len() <= k < after.len() && 0 <= j < 64 implies #[trigger] after[k].bytes[j]
            == (if 64 * (k - before.len()) + j < bytes.len() {
            bytes[64 * (k - before.len()) + j]
        } else {
            0u8
        }) by {
            assert(after[k] == all[k - before.len()]);
            assert(after[k].bytes == frame(bytes, k - before.len()));
        }
    }
}

/// A fixed text is logged as information, with one zero byte behind it.
pub proof fn fixed_text_is_terminated(log: Option<Seq<LogRecord>>, text: Seq<char>)
    ensures
        logged_text(log, text) == logged(
            log,
            LogSeverity::Info,
            vstd::utf8::encode_utf8(text) + seq![0u8],
        ),
{
    assert(vstd::utf8::encode_utf8(text).push(0) =~= vstd::utf8::encode_utf8(text) + seq![0u8]);
}

/// Adds a text, and the zero byte that ends it, to the log.
pub fn log_text(slot: &mut Option<LogQueue>, text: &str)
    ensures
        log_state(*final(slot)) == logged_text(log_state(*old(slot)), text@),
        *old(slot) is Some <==> *final(slot) is Some,
        log_state(*old(slot)) matches Some(before) ==> {
            let after = log_state(*final(slot))->0;
            &&& before.len() <= after.len()
            &&& after.subrange(0, before.len() as int) == before
            &&& forall|k: int|
                before.len() <= k < after.len() ==> (#[trigger] after[k]).severity is Info
        },
{
    proof {
        logging_adds_behind(log_state(*slot), LogSeverity::Info, text.spec_bytes().push(0));
    }
    match slot {
        Some(queue) => {
            let ghost before = queue@;
            let bytes = text.as_bytes();
            queue.enqueue(LogSeverity::Info, bytes);
            if bytes.len() % LOG_MESSAGE_SIZE == 0 {
                let end = LogMessage::new(LogSeverity::Info, [0u8; LOG_MESSAGE_SIZE]);
                let _ = queue.try_send(end);
                proof {
                    assert(end@.bytes =~= Seq::new(LOG_MESSAGE_SIZE as nat, |j: int| 0u8));
                    offering_in_two_parts(
                        before,
                        records(LogSeverity::Info, bytes@),
                        seq![end@],
                    );
                    assert(records(LogSeverity::Info, bytes@) + seq![end@] =~= records(
                        LogSeverity::Info,
                        bytes@,
                    ).push(end@));
                }
            }
            proof {
                terminator_fits_padding(LogSeverity::Info, bytes@);
            }
        },
        None => {},
    }
}

}
