//! The HID report that device and host exchange.
use crate::log::LogSeverity;
use vstd::prelude::*;

verus! {

/// Bytes of a report that the device sends.
pub const INPUT_REPORT_SIZE: usize = 7;

/// Bytes that the device keeps ready for a report that it sends.
pub const INPUT_BUFFER_SIZE: usize = 8;

/// Bytes of log text that one report carries.
pub const LOG_CHUNK_SIZE: usize = 4;

/// What a report from the device is about.
#[derive(Clone, Copy, Debug, PartialEq, Eq, Structural)]
pub enum PayloadType {
    Log,
    Counter,
    Heartbeat,
}

impl PayloadType {
    /// The number that stands for a payload type in a report.
    pub open spec fn spec_code(self) -> u8 {
        match self {
            PayloadType::Log => 1,
            PayloadType::Counter => 2,
            PayloadType::Heartbeat => 3,
        }
    }

    /// The number that stands for this payload type in a report.
    pub fn code(self) -> (code: u8)
        ensures
            code == self.spec_code(),
            self is Log ==> code == 1,
            self is Counter ==> code == 2,
            self is Heartbeat ==> code == 3,
    {
        match self {
            PayloadType::Log => 1,
            PayloadType::Counter => 2,
            PayloadType::Heartbeat => 3,
        }
    }
}

/// The fields of a report. The first five go from the device to the host, the
/// last three from the host to the device.
#[derive(Clone, Copy, Debug, PartialEq, Eq, Structural)]
pub struct USBHIDReport {
    pub payload_type: u8,
    pub correlation_id: u8,
    pub severity: u8,
    pub payload_low: u16,
    pub payload_high: u16,
    pub cmd_type: u8,
    pub cmd_low: u16,
    pub cmd_high: u16,
}

/// The number that two bytes stand for, the low byte first.
pub open spec fn le_u16(low: u8, high: u8) -> u16 {
    (low + 256 * high) as u16
}

/// The first bytes of `left`, as many as a report carries, padded with zeros.
pub open spec fn chunk(left: Seq<u8>) -> Seq<u8> {
    Seq::new(
        LOG_CHUNK_SIZE as nat,
        |i: int|
            if i < left.len() {
                left[i]
            } else {
                0u8
            },
    )
}

/// The four payload bytes of a report.
pub open spec fn payload_bytes(report: USBHIDReport) -> Seq<u8> {
    seq![
        (report.payload_low % 256) as u8,
        (report.payload_low / 256) as u8,
        (report.payload_high % 256) as u8,
        (report.payload_high / 256) as u8,
    ]
}

/// The number that the payload of a report stands for.
pub open spec fn payload_value(report: USBHIDReport) -> int {
    report.payload_low + 0x1_0000 * report.payload_high
}

/// A heartbeat: nothing to tell.
pub open spec fn heartbeat_report() -> USBHIDReport {
    USBHIDReport {
        payload_type: PayloadType::Heartbeat.spec_code(),
        correlation_id: 0,
        severity: LogSeverity::Info.spec_code(),
        payload_low: 0,
        payload_high: 0,
        cmd_type: 0,
        cmd_low: 0,
        cmd_high: 0,
    }
}

/// The answer to a request for the counter.
pub open spec fn counter_report(correlation_id: u8, value: u32) -> USBHIDReport {
    USBHIDReport {
        payload_type: PayloadType::Counter.spec_code(),
        correlation_id,
        payload_low: (value % 0x1_0000) as u16,
        payload_high: (value / 0x1_0000) as u16,
        ..heartbeat_report()
    }
}

/// The report that carries the first bytes of what is left of a log text.
pub open spec fn log_report(
    correlation_id: u8,
    severity: LogSeverity,
    left: Seq<u8>,
) -> USBHIDReport {
    USBHIDReport {
        payload_type: PayloadType::Log.spec_code(),
        correlation_id,
        severity: severity.spec_code(),
        payload_low: le_u16(chunk(left)[0], chunk(left)[1]),
        payload_high: le_u16(chunk(left)[2], chunk(left)[3]),
        ..heartbeat_report()
    }
}

/// The bytes of a report as the device sends it: the device's fields in order,
/// numbers of two bytes with the low byte first.
pub open spec fn input_report_bytes(report: USBHIDReport) -> Seq<u8> {
    seq![report.payload_type, report.correlation_id, report.severity] + payload_bytes(report)
}

/// Puts two bytes together, the low byte first.
pub fn join_bytes(low: u8, high: u8) -> (joined: u16)
    ensures
        joined == le_u16(low, high),
        joined == low + 256 * high,
{
    low as u16 + 256 * high as u16
}

impl USBHIDReport {
    /// A heartbeat, from which the other reports are made.
    pub fn default() -> (report: Self)
        ensures
            report == heartbeat_report(),
            report.payload_type == 3,
            report.correlation_id == 0,
            report.severity == 1,
            report.payload_low == 0 && report.payload_high == 0,
            report.cmd_type == 0 && report.cmd_low == 0 && report.cmd_high == 0,
    {
        Self {
            payload_type: PayloadType::Heartbeat.code(),
            correlation_id: 0,
            severity: LogSeverity::Info.code(),
            payload_low: 0,
            payload_high: 0,
            cmd_type: 0,
            cmd_low: 0,
            cmd_high: 0,
        }
    }

    /// The answer to a request for the counter.
    pub fn counter(correlation_id: u8, current: u32) -> (report: Self)
        ensures
            report == counter_report(correlation_id, current),
            report.payload_type == 2,
            report.correlation_id == correlation_id,
            report.severity == 1,
            report.payload_low + 0x1_0000 * report.payload_high == current,
            report.cmd_type == 0 && report.cmd_low == 0 && report.cmd_high == 0,
    {
        let mut report = Self::default();
        report.payload_type = PayloadType::Counter.code();
        report.correlation_id = correlation_id;
        proof {
            assert(current & 0xFFFF == current % 0x1_0000) by (bit_vector);
            assert((current >> 16) & 0xFFFF == current / 0x1_0000) by (bit_vector);
        }
        report.payload_low = (current & 0xFFFF) as u16;
        report.payload_high = ((current >> 16) & 0xFFFF) as u16;
        report
    }

    /// The report that carries the bytes of a log message from `offset` on, up to
    /// `msg_len`.
    pub fn log(
        correlation_id: u8,
        severity: LogSeverity,
        message: &[u8],
        offset: usize,
        msg_len: usize,
    ) -> (report: Self)
        requires
            offset <= msg_len <= message@.len(),
        ensures
            report == log_report(
                correlation_id,
                severity,
                message@.subrange(offset as int, msg_len as int),
            ),
            report.payload_type == 1,
            report.correlation_id == correlation_id,
            severity is Debug <==> report.severity == 0,
            severity is Info <==> report.severity == 1,
            severity is Warn <==> report.severity == 2,
            severity is Error <==> report.severity == 4,
            severity is Critical <==> report.severity == 8,
            msg_len - offset > 0 ==> report.payload_low % 256 == message@[offset as int],
            msg_len - offset > 1 ==> report.payload_low / 256 == message@[offset + 1],
            msg_len - offset > 2 ==> report.payload_high % 256 == message@[offset + 2],
            msg_len - offset > 3 ==> report.payload_high / 256 == message@[offset + 3],
            msg_len - offset <= 0 ==> report.payload_low % 256 == 0,
            msg_len - offset <= 1 ==> report.payload_low / 256 == 0,
            msg_len - offset <= 2 ==> report.payload_high % 256 == 0,
            msg_len - offset <= 3 ==> report.payload_high / 256 == 0,
            report.cmd_type == 0 && report.cmd_low == 0 && report.cmd_high == 0,
    {
        let mut report = Self::default();
        report.payload_type = PayloadType::Log.code();
        report.correlation_id = correlation_id;
        report.severity = severity.code();
        let ghost left = message@.subrange(offset as int, msg_len as int);
        let mut chunk_bytes: [u8; LOG_CHUNK_SIZE] = [0u8; LOG_CHUNK_SIZE];
        for i in 0..LOG_CHUNK_SIZE
            invariant
                offset <= msg_len <= message@.len(),
                left == message@.subrange(offset as int, msg_len as int),
                forall|j: int| 0 <= j < i ==> chunk_bytes@[j] == chunk(left)[j],
                forall|j: int| i <= j < LOG_CHUNK_SIZE ==> chunk_bytes@[j] == 0,
        {
            if i < msg_len - offset {
                chunk_bytes[i] = message[offset + i];
            }
        }
        report.payload_low = join_bytes(chunk_bytes[0], chunk_bytes[1]);
        report.payload_high = join_bytes(chunk_bytes[2], chunk_bytes[3]);
        report
    }

    /// The bytes of this report as the device sends it.
    pub fn input_bytes(&self) -> (bytes: [u8; INPUT_REPORT_SIZE])
        ensures
            bytes@ == input_report_bytes(*self),
            bytes@[0] == self.payload_type,
            bytes@[1] == self.correlation_id,
            bytes@[2] == self.severity,
            bytes@[3] + 256 * bytes@[4] == self.payload_low,
            bytes@[5] + 256 * bytes@[6] == self.payload_high,
    {
        let bytes = [
            self.payload_type,
            self.correlation_id,
            self.severity,
            (self.payload_low % 256) as u8,
            (self.payload_low / 256) as u8,
            (self.payload_high % 256) as u8,
            (self.payload_high / 256) as u8,
        ];
        assert(bytes@ =~= input_report_bytes(*self));
        bytes
    }
}

/// The bytes that the device sends have one layout, whatever the report: type,
/// correlation number and severity come first, one byte each, then the low and the high
/// half of the payload, each with its low byte first.
pub proof fn input_bytes_layout(report: USBHIDReport)
    ensures
        ({
            let bytes = input_report_bytes(report);
            &&& bytes.len() == 7
            &&& bytes[0] == report.payload_type
            &&& bytes[1] == report.correlation_id
            &&& bytes[2] == report.severity
            &&& bytes[3] + 256 * bytes[4] == report.payload_low
            &&& bytes[5] + 256 * bytes[6] == report.payload_high
        }),
{
    let bytes = input_report_bytes(report);
    assert(bytes.subrange(3, 7) =~= payload_bytes(report));
    assert(bytes[3] == payload_bytes(report)[0] && bytes[4] == payload_bytes(report)[1]);
    assert(bytes[5] == payload_bytes(report)[2] && bytes[6] == payload_bytes(report)[3]);
}

/// Every log report tells the severity of its message, in its field and in the third byte
/// that is sent: 0 for debug output, 1 for information, 2 for a warning, 4 for an error
/// and 8 for what is critical.
pub proof fn log_report_tells_severity(correlation_id: u8, severity: LogSeverity, left: Seq<u8>)
    ensures
        ({
            let report = log_report(correlation_id, severity, left);
            let sent = input_report_bytes(report)[2];
            &&& severity is Debug <==> report.severity == 0
            &&& severity is Info <==> report.severity == 1
            &&& severity is Warn <==> report.severity == 2
            &&& severity is Error <==> report.severity == 4
            &&& severity is Critical <==> report.severity == 8
            &&& severity is Debug <==> sent == 0
            &&& severity is Info <==> sent == 1
            &&& severity is Warn <==> sent == 2
            &&& severity is Error <==> sent == 4
            &&& severity is Critical <==> sent == 8
        }),
{
    input_bytes_layout(log_report(correlation_id, severity, left));
}

/// A log report is sent as type 1, with its correlation number, and carries the next four
/// bytes of the text in order, zeros where the text has no more.
pub proof fn log_report_on_the_wire(correlation_id: u8, severity: LogSeverity, left: Seq<u8>)
    ensures
        ({
            let report = log_report(correlation_id, severity, left);
            let bytes = input_report_bytes(report);
            &&& bytes.len() == 7
            &&& bytes[0] == 1
            &&& bytes[1] == correlation_id
            &&& bytes[3] == (if left.len() > 0 {
                left[0]
            } else {
                0u8
            })
            &&& bytes[4] == (if left.len() > 1 {
                left[1]
            } else {
                0u8
            })
            &&& bytes[5] == (if left.len() > 2 {
                left[2]
            } else {
                0u8
            })
            &&& bytes[6] == (if left.len() > 3 {
                left[3]
            } else {
                0u8
            })
            &&& report.cmd_type == 0 && report.cmd_low == 0 && report.cmd_high == 0
        }),
{
    let report = log_report(correlation_id, severity, left);
    let bytes = input_report_bytes(report);
    input_bytes_layout(report);
    log_report_carries_bytes(correlation_id, severity, left);
    assert(bytes.subrange(3, 7) =~= payload_bytes(report));
    assert(bytes[3] == chunk(left)[0] && bytes[4] == chunk(left)[1]);
    assert(bytes[5] == chunk(left)[2] && bytes[6] == chunk(left)[3]);
}

/// A counter report is sent as type 2, with its correlation number, and carries the
/// counter's value, the lowest byte first.
pub proof fn counter_report_on_the_wire(correlation_id: u8, value: u32)
    ensures
        ({
            let report = counter_report(correlation_id, value);
            let bytes = input_report_bytes(report);
            &&& bytes.len() == 7
            &&& bytes[0] == 2
            &&& bytes[1] == correlation_id
            &&& bytes[2] == 1
            &&& bytes[3] + 0x100 * bytes[4] + 0x1_0000 * bytes[5] + 0x100_0000 * bytes[6] == value
            &&& report.payload_low + 0x1_0000 * report.payload_high == value
            &&& report.cmd_type == 0 && report.cmd_low == 0 && report.cmd_high == 0
        }),
{
    input_bytes_layout(counter_report(correlation_id, value));
}

/// A heartbeat is sent as type 3, with no correlation number and nothing to tell.
pub proof fn heartbeat_report_on_the_wire()
    ensures
        input_report_bytes(heartbeat_report()) == seq![3u8, 0u8, 1u8, 0u8, 0u8, 0u8, 0u8],
{
    input_bytes_layout(heartbeat_report());
    assert(input_report_bytes(heartbeat_report()) =~= seq![3u8, 0u8, 1u8, 0u8, 0u8, 0u8, 0u8]);
}

/// The counter's value can be read out of the report that answers a request.
pub proof fn counter_report_carries_value(correlation_id: u8, value: u32)
    ensures
        payload_value(counter_report(correlation_id, value)) == value,
{
}

/// The text bytes can be read out of a log report.
pub proof fn log_report_carries_bytes(correlation_id: u8, severity: LogSeverity, left: Seq<u8>)
    ensures
        payload_bytes(log_report(correlation_id, severity, left)) == chunk(left),
{
    assert(payload_bytes(log_report(correlation_id, severity, left)) =~= chunk(left));
}

/// The bytes that the device sends tell all the fields that go to the host.
pub proof fn input_bytes_tell_report(first: USBHIDReport, second: USBHIDReport)
    requires
        input_report_bytes(first) == input_report_bytes(second),
    ensures
        first.payload_type == second.payload_type,
        first.correlation_id == second.correlation_id,
        first.severity == second.severity,
        first.payload_low == second.payload_low,
        first.payload_high == second.payload_high,
{
    let a = input_report_bytes(first);
    let b = input_report_bytes(second);
    assert(a[0] == first.payload_type && a[1] == first.correlation_id && a[2] == first.severity);
    assert(b[0] == second.payload_type && b[1] == second.correlation_id && b[2]
        == second.severity);
    assert(a.skip(3) =~= payload_bytes(first));
    assert(b.skip(3) =~= payload_bytes(second));
    assert(first.payload_low == payload_bytes(first)[0] + 256 * payload_bytes(first)[1]);
    assert(first.payload_high == payload_bytes(first)[2] + 256 * payload_bytes(first)[3]);
    assert(second.payload_low == payload_bytes(second)[0] + 256 * payload_bytes(second)[1]);
    assert(second.payload_high == payload_bytes(second)[2] + 256 * payload_bytes(second)[3]);
}

}
