use gba_link_rs::log::{
    log_text, LogMessage, LogQueue, LogSeverity, LOG_MESSAGE_SIZE, MAX_LOG_MESSAGES,
};
use gba_link_rs::text::{log_composed, Text, TEXT_CAPACITY};

fn drain(slot: &mut Option<LogQueue>) -> Vec<LogMessage> {
    let mut messages = Vec::new();
    if let Some(queue) = slot {
        while let Some(message) = queue.try_receive() {
            messages.push(message);
        }
    }
    messages
}

fn padded(bytes: &[u8]) -> [u8; LOG_MESSAGE_SIZE] {
    let mut message = [0u8; LOG_MESSAGE_SIZE];
    message[..bytes.len()].copy_from_slice(bytes);
    message
}

#[test]
fn severity_numbers() {
    assert_eq!(LogSeverity::Debug.code(), 0);
    assert_eq!(LogSeverity::Info.code(), 1);
    assert_eq!(LogSeverity::Warn.code(), 2);
    assert_eq!(LogSeverity::Error.code(), 4);
    assert_eq!(LogSeverity::Critical.code(), 8);
}

#[test]
fn fixed_text_is_one_padded_message() {
    let mut slot = Some(LogQueue::new());
    log_text(&mut slot, "Starting up...");
    let messages = drain(&mut slot);
    assert_eq!(messages.len(), 1);
    assert_eq!(messages[0].severity, LogSeverity::Info);
    assert_eq!(messages[0].message, padded(b"Starting up..."));
}

#[test]
fn fixed_text_always_ends_with_a_zero_byte() {
    for len in [0usize, 1, 62, 63, 64, 65, 127, 128, 129] {
        let text = "x".repeat(len);
        let mut slot = Some(LogQueue::new());
        log_text(&mut slot, &text);
        let messages = drain(&mut slot);
        assert_eq!(messages.len(), len / LOG_MESSAGE_SIZE + 1);
        let mut bytes: Vec<u8> = Vec::new();
        for message in &messages {
            bytes.extend_from_slice(&message.message);
        }
        assert_eq!(&bytes[..len], text.as_bytes());
        assert!(bytes[len..].iter().all(|byte| *byte == 0));
        assert!(bytes.len() > len);
    }
}

#[test]
fn nothing_is_logged_before_the_log_is_set_up() {
    let mut slot: Option<LogQueue> = None;
    log_text(&mut slot, "lost");
    log_composed(&mut slot, LogSeverity::Warn, &Text::new());
    assert!(slot.is_none());
}

#[test]
fn full_log_drops_what_comes_last() {
    let mut slot = Some(LogQueue::new());
    for i in 0..MAX_LOG_MESSAGES - 1 {
        log_text(&mut slot, &format!("text {}", i));
    }
    // Two messages are needed and one place is left.
    log_text(&mut slot, &"y".repeat(100));
    log_text(&mut slot, "too late");
    let messages = drain(&mut slot);
    assert_eq!(messages.len(), MAX_LOG_MESSAGES);
    assert_eq!(messages[0].message, padded(b"text 0"));
    assert_eq!(messages[126].message, padded(b"text 126"));
    assert_eq!(messages[127].message, [b'y'; LOG_MESSAGE_SIZE]);
}

#[test]
fn queue_takes_messages_while_it_has_room() {
    let mut queue = LogQueue::new();
    assert!(queue.try_receive().is_none());
    for i in 0..MAX_LOG_MESSAGES {
        let sent = queue.try_send(LogMessage::new(LogSeverity::Debug, [i as u8; 64]));
        assert!(sent);
    }
    assert!(!queue.try_send(LogMessage::new(LogSeverity::Debug, [0; 64])));
    assert_eq!(queue.try_receive(), Some(LogMessage::new(LogSeverity::Debug, [0; 64])));
    assert!(queue.try_send(LogMessage::new(LogSeverity::Error, [9; 64])));
    assert_eq!(queue.try_receive(), Some(LogMessage::new(LogSeverity::Debug, [1; 64])));
}

#[test]
fn composed_text_keeps_severity_and_has_no_terminator() {
    let mut text = Text::new();
    text.push_str("LED ");
    text.push_number(12);
    text.push_str(&"!".repeat(58));
    let mut slot = Some(LogQueue::new());
    log_composed(&mut slot, LogSeverity::Error, &text);
    let messages = drain(&mut slot);
    assert_eq!(messages.len(), 1);
    assert_eq!(messages[0].severity, LogSeverity::Error);
    assert_eq!(&messages[0].message[..7], b"LED 12!");
    assert_eq!(messages[0].message[63], b'!');
}

#[test]
fn empty_composed_text_is_no_message() {
    let mut slot = Some(LogQueue::new());
    log_composed(&mut slot, LogSeverity::Info, &Text::new());
    assert!(drain(&mut slot).is_empty());
}

#[test]
fn composed_text_of_full_capacity_is_logged() {
    let mut text = Text::new();
    text.push_str(&"a".repeat(TEXT_CAPACITY - 3));
    text.push_number(123);
    let mut slot = Some(LogQueue::new());
    log_composed(&mut slot, LogSeverity::Info, &text);
    let messages = drain(&mut slot);
    assert_eq!(messages.len(), 4);
    assert_eq!(&messages[3].message[60..], b"a123");
}

#[test]
fn composed_text_that_does_not_fit_is_lost() {
    let mut text = Text::new();
    text.push_str(&"a".repeat(TEXT_CAPACITY - 2));
    text.push_number(123);
    text.push_str("b");
    let mut slot = Some(LogQueue::new());
    log_composed(&mut slot, LogSeverity::Info, &text);
    assert!(drain(&mut slot).is_empty());
}

#[test]
fn text_counts_bytes_and_not_characters() {
    let mut text = Text::new();
    text.push_str(&"\u{e9}".repeat(TEXT_CAPACITY / 2));
    text.push_str("b");
    let mut slot = Some(LogQueue::new());
    log_composed(&mut slot, LogSeverity::Info, &text);
    assert!(drain(&mut slot).is_empty());
}
