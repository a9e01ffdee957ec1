use gba_link_rs::count::SharedCount;
use gba_link_rs::log::{log_text, LogQueue, LogSeverity};
use gba_link_rs::report::{join_bytes, PayloadType, USBHIDReport};
use gba_link_rs::reporter::{Reporter, ReporterAction, CHUNK_PAUSE_MS, UPDATE_PAUSE_MS};
use gba_link_rs::requests::{RequestQueue, MAX_REQUESTS};
use gba_link_rs::text::{log_composed, Text};

struct Device {
    reporter: Reporter,
    requests: RequestQueue,
    log: Option<LogQueue>,
    times: SharedCount,
}

impl Device {
    fn new() -> Self {
        Device {
            reporter: Reporter::new(),
            requests: RequestQueue::new(),
            log: Some(LogQueue::new()),
            times: SharedCount::new(),
        }
    }

    fn next(&mut self, times: u32) -> ReporterAction {
        let log = self.log.as_mut().unwrap();
        self.times.store(times);
        let action = self.reporter.next(&mut self.requests, log, &mut self.times);
        assert_eq!(self.times.load(), times);
        action
    }

    fn next_report(&mut self, times: u32) -> (USBHIDReport, u64) {
        match self.next(times) {
            ReporterAction::Send { report, pause_ms } => (report, pause_ms),
            ReporterAction::Pause { .. } => panic!("a report was expected"),
        }
    }

    /// The text of the log reports up to the pause, and their correlation number.
    fn read_text(&mut self) -> (Vec<u8>, u8, usize) {
        let mut bytes: Vec<u8> = Vec::new();
        let mut id: Option<u8> = None;
        let mut count: usize = 0;
        loop {
            match self.next(0) {
                ReporterAction::Send { report, pause_ms } => {
                    assert_eq!(report.payload_type, 1);
                    assert_eq!(pause_ms, CHUNK_PAUSE_MS);
                    assert_eq!(*id.get_or_insert(report.correlation_id), report.correlation_id);
                    bytes.extend_from_slice(&report.payload_low.to_le_bytes());
                    bytes.extend_from_slice(&report.payload_high.to_le_bytes());
                    count += 1;
                }
                ReporterAction::Pause { pause_ms } => {
                    assert_eq!(pause_ms, UPDATE_PAUSE_MS);
                    break;
                }
            }
        }
        let end = bytes.iter().position(|byte| *byte == 0).unwrap_or(bytes.len());
        bytes.truncate(end);
        (bytes, id.unwrap(), count)
    }
}

#[test]
fn payload_type_numbers() {
    assert_eq!(PayloadType::Log.code(), 1);
    assert_eq!(PayloadType::Counter.code(), 2);
    assert_eq!(PayloadType::Heartbeat.code(), 3);
}

#[test]
fn default_report_is_a_heartbeat() {
    assert_eq!(
        USBHIDReport::default(),
        USBHIDReport {
            payload_type: 3,
            correlation_id: 0,
            severity: 1,
            payload_low: 0,
            payload_high: 0,
            cmd_type: 0,
            cmd_low: 0,
            cmd_high: 0,
        }
    );
}

#[test]
fn joined_bytes() {
    assert_eq!(join_bytes(0x34, 0x12), 0x1234);
    assert_eq!(join_bytes(0xff, 0xff), 0xffff);
}

#[test]
fn report_carries_counter_in_two_halves() {
    let report = USBHIDReport::counter(9, 0xdead_beef);
    assert_eq!(report.payload_type, 2);
    assert_eq!(report.correlation_id, 9);
    assert_eq!(report.severity, 1);
    assert_eq!(report.payload_low, 0xbeef);
    assert_eq!(report.payload_high, 0xdead);
}

#[test]
fn report_carries_log_bytes() {
    let report = USBHIDReport::log(3, LogSeverity::Warn, b"abcdef", 1, 6);
    assert_eq!((report.payload_type, report.correlation_id, report.severity), (1, 3, 2));
    assert_eq!(report.payload_low, u16::from_le_bytes([b'b', b'c']));
    assert_eq!(report.payload_high, u16::from_le_bytes([b'd', b'e']));
    let report = USBHIDReport::log(3, LogSeverity::Warn, b"abcdef", 5, 6);
    assert_eq!((report.payload_low, report.payload_high), (b'f' as u16, 0));
    let report = USBHIDReport::log(3, LogSeverity::Critical, b"abcdef", 2, 5);
    assert_eq!(report.payload_high, b'e' as u16);
    assert_eq!(report.severity, 8);
}

#[test]
fn input_bytes_are_little_endian() {
    let report = USBHIDReport::counter(5, 0x0403_0201);
    assert_eq!(report.input_bytes(), [2, 5, 1, 1, 2, 3, 4]);
}

#[test]
fn input_bytes_are_those_of_the_marshaller() {
    for value in [0u32, 1, 0xffff, 0x1_0000, 0x1234_5678, u32::MAX] {
        let report = USBHIDReport::counter(200, value);
        let fields = (
            report.payload_type,
            report.correlation_id,
            report.severity,
            report.payload_low,
            report.payload_high,
        );
        let mut buf = [0u8; 8];
        let size = ssmarshal::serialize(&mut buf, &fields).unwrap();
        assert_eq!(&buf[..size], &report.input_bytes());
    }
}

#[test]
fn idle_device_sends_heartbeats() {
    let mut device = Device::new();
    for _ in 0..3 {
        assert_eq!(device.next_report(77), (USBHIDReport::default(), UPDATE_PAUSE_MS));
    }
}

#[test]
fn request_is_answered_with_the_counter() {
    let mut device = Device::new();
    assert!(device.requests.request());
    let (report, pause_ms) = device.next_report(0x0001_0002);
    assert_eq!(report, USBHIDReport::counter(1, 0x0001_0002));
    assert_eq!(pause_ms, 50);
    assert_eq!(device.next_report(0).0, USBHIDReport::default());
    device.requests.request();
    assert_eq!(device.next_report(3).0.correlation_id, 2);
}

#[test]
fn requests_past_the_last_place_are_dropped() {
    let mut device = Device::new();
    for _ in 0..MAX_REQUESTS {
        assert!(device.requests.request());
    }
    assert!(!device.requests.request());
    for i in 0..MAX_REQUESTS {
        assert_eq!(device.next_report(4).0, USBHIDReport::counter(i as u8 + 1, 4));
    }
    assert!(!device.requests.take());
    assert_eq!(device.next_report(4).0, USBHIDReport::default());
}

#[test]
fn log_text_is_delivered_whole() {
    for len in [0usize, 1, 3, 4, 5, 62, 63, 64, 65, 127, 128, 200] {
        let text: String = (0..len).map(|i| char::from(b'a' + (i % 26) as u8)).collect();
        let mut device = Device::new();
        log_text(&mut device.log, &text);
        log_text(&mut device.log, "next");
        let (bytes, id, count) = device.read_text();
        assert_eq!(bytes, text.as_bytes());
        assert_eq!(id, 1);
        assert_eq!(count, len / 4 + 1);
        let (bytes, id, count) = device.read_text();
        assert_eq!((bytes.as_slice(), id, count), (b"next".as_slice(), 2, 2));
        assert_eq!(device.next_report(0).0, USBHIDReport::default());
    }
}

#[test]
fn log_text_is_finished_before_a_request_is_answered() {
    let mut device = Device::new();
    log_text(&mut device.log, "12345678");
    log_text(&mut device.log, "later");
    assert_eq!(device.next_report(9).0.payload_type, 1);
    device.requests.request();
    assert_eq!(device.next_report(9).0.payload_type, 1);
    assert_eq!(device.next_report(9).0.payload_type, 1);
    assert_eq!(device.next(9), ReporterAction::Pause { pause_ms: 50 });
    assert_eq!(device.next_report(9).0, USBHIDReport::counter(2, 9));
    assert_eq!(device.read_text().0, b"later");
}

#[test]
fn composed_text_is_delivered_whole() {
    let mut device = Device::new();
    let mut text = Text::new();
    text.push_str(&"z".repeat(65));
    log_composed(&mut device.log, LogSeverity::Error, &text);
    log_text(&mut device.log, "next");
    assert_eq!(device.read_text().0, "z".repeat(65).as_bytes());
    assert_eq!(device.read_text().0, b"next");
}

#[test]
fn full_composed_text_is_delivered_alone() {
    let mut device = Device::new();
    let mut text = Text::new();
    text.push_str(&"z".repeat(64));
    log_composed(&mut device.log, LogSeverity::Error, &text);
    let (bytes, id, count) = device.read_text();
    assert_eq!(bytes, "z".repeat(64).as_bytes());
    assert_eq!((id, count), (1, 16));
}

#[test]
fn full_composed_text_runs_into_the_next() {
    let mut device = Device::new();
    let mut text = Text::new();
    text.push_str(&"z".repeat(64));
    log_composed(&mut device.log, LogSeverity::Error, &text);
    log_text(&mut device.log, "next");
    assert_eq!(device.read_text().0, format!("{}next", "z".repeat(64)).as_bytes());
}

#[test]
fn log_reports_carry_severity() {
    let mut device = Device::new();
    let mut text = Text::new();
    text.push_str("bad");
    log_composed(&mut device.log, LogSeverity::Critical, &text);
    let (report, pause_ms) = device.next_report(0);
    assert_eq!((report.severity, pause_ms), (8, 10));
    assert_eq!(report.input_bytes(), [1, 1, 8, b'b', b'a', b'd', 0]);
}

#[test]
fn correlation_numbers_go_round() {
    let mut device = Device::new();
    for expected in (1..=255u8).chain([0, 1]) {
        device.requests.request();
        assert_eq!(device.next_report(0).0.correlation_id, expected);
        assert_eq!(device.next_report(0).0.correlation_id, 0);
    }
}
