//! Composed log texts: pieces put together in a buffer of a fixed size.
use crate::decimal::{decimal, format_number};
use crate::log::{log_state, logged, logging_adds_behind, LogQueue, LogRecord, LogSeverity};
use vstd::prelude::*;
use vstd::string::*;
use vstd::utf8::encode_utf8;

verus! {

/// Bytes that a composed text can hold.
pub const TEXT_CAPACITY: usize = 256;

#[verifier::external_type_specification]
#[verifier::external_body]
pub struct ExHeaplessString<const N: usize>(heapless::String<N>);

/// The UTF-8 bytes that a `heapless::String` holds.
pub uninterp spec fn heapless_bytes(string: heapless::String<TEXT_CAPACITY>) -> Seq<u8>;

/// `heapless::String::new`: an empty string.
#[verifier::external_body]
fn heapless_new() -> (string: heapless::String<TEXT_CAPACITY>)
    ensures
        heapless_bytes(string) == Seq::<u8>::empty(),
{
    heapless::String::new()
}

/// `heapless::String::push_str`: appends the text if the whole of it fits into the
/// capacity, and otherwise leaves the string as it was and says so.
#[verifier::external_body]
fn heapless_push_str(string: &mut heapless::String<TEXT_CAPACITY>, text: &str) -> (fits: bool)
    ensures
        fits <==> heapless_bytes(*old(string)).len() + text.spec_bytes().len() <= TEXT_CAPACITY,
        fits ==> heapless_bytes(*final(string)) == heapless_bytes(*old(string))
            + text.spec_bytes(),
        !fits ==> heapless_bytes(*final(string)) == heapless_bytes(*old(string)),
{
    string.push_str(text).is_ok()
}

/// `heapless::String::as_str`: the text that the string holds.
#[verifier::external_body]
fn heapless_as_str(string: &heapless::String<TEXT_CAPACITY>) -> (text: &str)
    ensures
        text.spec_bytes() == heapless_bytes(*string),
{
    string.as_str()
}

/// The bytes of a text where they fit into the buffer, nothing where they do not.
pub open spec fn fitting(bytes: Seq<u8>) -> Option<Seq<u8>> {
    if bytes.len() <= TEXT_CAPACITY {
        Some(bytes)
    } else {
        None
    }
}

/// A composed text with one more piece. A text that did not fit once stays lost.
pub open spec fn appended(text: Option<Seq<u8>>, piece: Seq<u8>) -> Option<Seq<u8>> {
    match text {
        Some(bytes) => fitting(bytes + piece),
        None => None,
    }
}

/// Composing piece by piece keeps exactly the texts that fit as a whole.
pub proof fn composing_keeps_what_fits(bytes: Seq<u8>, piece: Seq<u8>)
    ensures
        appended(fitting(bytes), piece) == fitting(bytes + piece),
{
}

/// A composed text holds up to 256 bytes, and what does not fit as a whole is lost.
pub proof fn text_holds_256_bytes(bytes: Seq<u8>, piece: Seq<u8>)
    ensures
        fitting(bytes) == (if bytes.len() <= 256 {
            Some(bytes)
        } else {
            None
        }),
        appended(Some(bytes), piece) == (if bytes.len() + piece.len() <= 256 {
            Some(bytes + piece)
        } else {
            None
        }),
        appended(None, piece) is None,
{
}

/// A text that is put together from pieces.
pub struct Text {
    string: heapless::String<TEXT_CAPACITY>,
    lost: bool,
}

impl View for Text {
    type V = Option<Seq<u8>>;

    closed spec fn view(&self) -> Option<Seq<u8>> {
        if self.lost {
            None
        } else {
            Some(heapless_bytes(self.string))
        }
    }
}

impl Text {
    /// The empty text.
    pub fn new() -> (text: Self)
        ensures
            text@ == fitting(Seq::<u8>::empty()),
    {
        Text { string: heapless_new(), lost: false }
    }

    /// Appends a piece of text.
    pub fn push_str(&mut self, piece: &str)
        ensures
            final(self)@ == appended(old(self)@, encode_utf8(piece@)),
    {
        if !self.lost {
            let fits = heapless_push_str(&mut self.string, piece);
            self.lost = !fits;
        }
    }

    /// Appends a number in decimal.
    pub fn push_number(&mut self, number: u64)
        ensures
            final(self)@ == appended(old(self)@, decimal(number as nat)),
    {
        let mut buffer: [u8; 20] = [0u8; 20];
        let digits = format_number(number, &mut buffer);
        self.push_str(digits);
    }
}

/// The log after a composed text was added to it: a text that did not fit into
/// its buffer is not logged at all.
pub open spec fn logged_composed(
    log: Option<Seq<LogRecord>>,
    severity: LogSeverity,
    text: Option<Seq<u8>>,
) -> Option<Seq<LogRecord>> {
    match text {
        Some(bytes) => logged(log, severity, bytes),
        None => log,
    }
}

/// Adding a composed text to the log keeps everything that waits, in order, and puts the
/// text behind it: in messages of 64 bytes with the text's severity, each with its share of
/// the text and zeros after the end, as many as the 128 places allow. A text that did not
/// fit into its buffer changes nothing, and without a log nothing is kept.
pub proof fn composed_text_is_added_behind(
    log: Option<Seq<LogRecord>>,
    severity: LogSeverity,
    text: Option<Seq<u8>>,
)
    ensures
        text is None ==> logged_composed(log, severity, text) == log,
        log is None ==> logged_composed(log, severity, text) is None,
        (log matches Some(before) && text matches Some(bytes)) ==> {
            let before = log->0;
            let bytes = text->0;
            let after = logged_composed(log, severity, text)->0;
            &&& logged_composed(log, severity, text) is Some
            &&& after.len() == (if before.len() + (bytes.len() + 63) / 64 <= 128 {
                before.len() + (bytes.len() + 63) / 64
            } else if before.len() < 128 {
                128
            } else {
                before.len()
            })
            &&& after.subrange(0, before.len() as int) == before
            &&& forall|k: int|
                before.len() <= k < after.len() ==> (#[trigger] after[k]).severity == severity
                    && after[k].bytes.len() == 64
            &&& forall|k: int, j: int|
                before.len() <= k < after.len() && 0 <= j < 64
                    ==> #[trigger] after[k].bytes[j] == (if 64 * (k - before.len()) + j
                    < bytes.len() {
                    bytes[64 * (k - before.len()) + j]
                } else {
                    0u8
                })
        },
{
    if log is Some {
        assert(log->0.subrange(0, log->0.len() as int) =~= log->0);
        if text is Some {
            logging_adds_behind(log, severity, text->0);
        }
    }
}

/// Adds a composed text to the log. No zero byte is put behind it.
pub fn log_composed(slot: &mut Option<LogQueue>, severity: LogSeverity, text: &Text)
    ensures
        log_state(*final(slot)) == logged_composed(log_state(*old(slot)), severity, text@),
        *old(slot) is Some <==> *final(slot) is Some,
        log_state(*old(slot)) matches Some(before) ==> {
            let after = log_state(*final(slot))->0;
            &&& before.len() <= after.len()
            &&& after.subrange(0, before.len() as int) == before
            &&& forall|k: int|
                before.len() <= k < after.len() ==> (#[trigger] after[k]).severity == severity
            &&& text@ is None ==> after == before
            &&& text@ matches Some(bytes) ==> before.len() + (bytes.len() + 63) / 64 <= 128
                ==> after.len() == before.len() + (bytes.len() + 63) / 64
        },
{
    proof {
        composed_text_is_added_behind(log_state(*slot), severity, text@);
    }
    if !text.lost {
        match slot {
            Some(queue) => {
                queue.enqueue(severity, heapless_as_str(&text.string).as_bytes());
            },
            None => {},
        }
    }
}

}
