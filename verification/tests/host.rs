use gba_link_rs::command::{handle_read, ReadError};
use gba_link_rs::count::SharedCount;
use gba_link_rs::fault::log_panic;
use gba_link_rs::log::{LogQueue, LogSeverity};
use gba_link_rs::reporter::{Reporter, ReporterAction};
use gba_link_rs::requests::RequestQueue;
use gba_link_rs::usb_device::{OutResponse, ReportId, USBDeviceHandler, USBRequestHandler};

/// The texts in a log of short texts, with their severities.
fn texts(slot: &mut Option<LogQueue>) -> Vec<(LogSeverity, String)> {
    let mut texts: Vec<(LogSeverity, String)> = Vec::new();
    let mut begun: Vec<u8> = Vec::new();
    if let Some(queue) = slot {
        while let Some(message) = queue.try_receive() {
            match message.message.iter().position(|byte| *byte == 0) {
                Some(end) => {
                    begun.extend_from_slice(&message.message[..end]);
                    texts.push((message.severity, String::from_utf8(begun.clone()).unwrap()));
                    begun.clear();
                }
                None => begun.extend_from_slice(&message.message),
            }
        }
    }
    texts
}

fn info(text: &str) -> (LogSeverity, String) {
    (LogSeverity::Info, text.to_string())
}

#[test]
fn host_asks_for_the_counter() {
    let mut log = Some(LogQueue::new());
    let mut requests = RequestQueue::new();
    let mut times = SharedCount::new();
    let buf = [1u8, 0, 0, 0, 0];
    assert_eq!(handle_read(&mut log, &mut requests, &mut times, Ok(5), &buf), None);
    assert_eq!(times.load(), 0);
    assert!(requests.take());
    assert!(!requests.take());
    assert_eq!(
        texts(&mut log),
        vec![
            info(&format!("Received data from host of size {} {:?}", 5, &buf)),
            info("Host requested counter value"),
        ]
    );
}

#[test]
fn host_sets_the_counter() {
    let mut log = Some(LogQueue::new());
    let mut requests = RequestQueue::new();
    let mut times = SharedCount::new();
    let buf = [2u8, 0x78, 0x56, 0x34, 0xff];
    let left = handle_read(&mut log, &mut requests, &mut times, Ok(5), &buf);
    assert_eq!(left, None);
    assert_eq!(times.load(), 0xff34_5678);
    assert_eq!(
        texts(&mut log),
        vec![
            info("Received data from host of size 5 [2, 120, 86, 52, 255]"),
            info("Counter set to new value"),
        ]
    );
    let mut reporter = Reporter::new();
    match reporter.next(&mut requests, log.as_mut().unwrap(), &mut times) {
        ReporterAction::Send { report, .. } => {
            assert_eq!(report.payload_type, 2);
            assert_eq!((report.payload_high, report.payload_low), (0xff34, 0x5678));
        }
        ReporterAction::Pause { .. } => panic!("a report was expected"),
    }
}

#[test]
fn unknown_command_is_only_logged() {
    let mut log = Some(LogQueue::new());
    let mut requests = RequestQueue::new();
    let mut times = SharedCount::new();
    let buf = [3u8, 1, 2, 3, 4];
    assert_eq!(handle_read(&mut log, &mut requests, &mut times, Ok(6), &buf), None);
    assert_eq!(times.load(), 0);
    assert!(!requests.take());
    assert_eq!(
        texts(&mut log),
        vec![
            info("Received data from host of size 6 [3, 1, 2, 3, 4]"),
            info("Unknown command type"),
        ]
    );
}

#[test]
fn short_report_is_only_logged() {
    let mut log = Some(LogQueue::new());
    let mut requests = RequestQueue::new();
    let mut times = SharedCount::new();
    let left = handle_read(&mut log, &mut requests, &mut times, Ok(4), &[2, 0, 0, 0, 0]);
    assert_eq!(left, Some(10));
    assert_eq!(times.load(), 0);
    assert!(!requests.take());
    assert_eq!(
        texts(&mut log),
        vec![(
            LogSeverity::Warn,
            "Received incomplete data from host of size 4".to_string()
        )]
    );
}

#[test]
fn failed_read_is_only_logged() {
    let cases = [
        (ReadError::BufferOverflow, embassy_usb::class::hid::ReadError::BufferOverflow),
        (ReadError::Disabled, embassy_usb::class::hid::ReadError::Disabled),
        (
            ReadError::Sync { start: 3, end: 12 },
            embassy_usb::class::hid::ReadError::Sync(3..12),
        ),
    ];
    for (error, outside) in cases {
        let mut log = Some(LogQueue::new());
        let mut requests = RequestQueue::new();
        let mut times = SharedCount::new();
        let left = handle_read(&mut log, &mut requests, &mut times, Err(error), &[1, 0, 0, 0, 0]);
        assert_eq!(left, Some(50));
        assert_eq!(times.load(), 0);
        assert!(!requests.take());
        assert_eq!(
            texts(&mut log),
            vec![(
                LogSeverity::Error,
                format!("Error reading data from host: {:?}", outside)
            )]
        );
    }
}

#[test]
fn commands_work_without_a_log() {
    let mut log: Option<LogQueue> = None;
    let mut requests = RequestQueue::new();
    let mut times = SharedCount::new();
    let left = handle_read(&mut log, &mut requests, &mut times, Ok(5), &[2, 1, 0, 0, 0]);
    assert_eq!((left, times.load()), (None, 1));
    assert!(requests.take());
}

#[test]
fn panic_is_logged_with_place_and_message() {
    let mut log = Some(LogQueue::new());
    log_panic(&mut log, Some(("src/main.rs", 42)), Some("no LCD"));
    let halt = (LogSeverity::Critical, "SYSTEM PANIC - HALTING".to_string());
    assert_eq!(
        texts(&mut log),
        vec![
            (LogSeverity::Critical, "PANIC at src/main.rs:42 - no LCD".to_string()),
            halt.clone(),
            halt.clone(),
            halt,
        ]
    );
}

#[test]
fn panic_is_logged_as_far_as_it_is_known() {
    let mut log = Some(LogQueue::new());
    log_panic(&mut log, Some(("a.rs", 7)), None);
    assert_eq!(texts(&mut log)[0].1, "PANIC at a.rs:7");
    log_panic(&mut log, None, Some("unheard"));
    assert_eq!(texts(&mut log)[0].1, "PANIC occurred at unknown location");
}

#[test]
fn panic_message_that_does_not_fit_is_dropped() {
    let mut log = Some(LogQueue::new());
    log_panic(&mut log, Some(("a.rs", 7)), Some(&"m".repeat(239)));
    assert_eq!(texts(&mut log).len(), 3);
    log_panic(&mut log, Some(("a.rs", 7)), Some(&"m".repeat(237)));
    assert_eq!(texts(&mut log).len(), 4);
}

#[test]
fn device_is_configured_only_by_the_host() {
    let mut handler = USBDeviceHandler::new();
    assert!(!handler.is_configured());
    handler.configured(true);
    assert!(handler.is_configured());
    handler.reset();
    assert!(!handler.is_configured());
    handler.configured(true);
    handler.enabled(true);
    assert!(!handler.is_configured());
    handler.configured(true);
    handler.addressed(12);
    assert!(!handler.is_configured());
    handler.configured(true);
    handler.configured(false);
    assert!(!handler.is_configured());
}

#[test]
fn control_requests_for_reports() {
    let mut handler = USBRequestHandler {};
    let mut buf = [7u8; 3];
    assert_eq!(handler.get_report(ReportId::In(0), &mut buf), None);
    assert_eq!(buf, [7u8; 3]);
    assert_eq!(handler.set_report(ReportId::Out(1), &buf), OutResponse::Accepted);
    handler.set_idle_ms(Some(ReportId::Feature(2)), 500);
    assert_eq!(handler.get_idle_ms(None), None);
}
