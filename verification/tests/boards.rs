use gba_link_rs::board::BoardAction;
use gba_link_rs::count::SharedCount;
use gba_link_rs::counter::Counter;
use gba_link_rs::log::LogQueue;
use gba_link_rs::onboard::Onboard;

fn texts(slot: &mut Option<LogQueue>) -> Vec<String> {
    let mut texts: Vec<String> = Vec::new();
    if let Some(queue) = slot {
        while let Some(message) = queue.try_receive() {
            let end = message.message.iter().position(|byte| *byte == 0).unwrap();
            texts.push(String::from_utf8(message.message[..end].to_vec()).unwrap());
        }
    }
    texts
}

fn set_up() -> Vec<BoardAction> {
    vec![
        BoardAction::CreateLcd { address: 0x27 },
        BoardAction::ResetLcd,
        BoardAction::ClearLcd,
        BoardAction::ShowDisplay,
        BoardAction::WriteText { text: "LED Count:" },
        BoardAction::CreateLed,
    ]
}

fn blink(count: u32) -> Vec<BoardAction> {
    vec![
        BoardAction::LedHigh,
        BoardAction::SetCursor { position: 40 },
        BoardAction::WriteText { text: "        " },
        BoardAction::SetCursor { position: 40 },
        BoardAction::WriteCount { count },
        BoardAction::WaitSecs { secs: 1 },
        BoardAction::LedLow,
        BoardAction::WaitSecs { secs: 1 },
    ]
}

#[test]
fn board_is_set_up_and_blinks() {
    let mut log = Some(LogQueue::new());
    let mut times = SharedCount::new();
    let mut board = Onboard::new();
    times.store(41);
    let actions: Vec<BoardAction> =
        (0..6).map(|_| board.advance(&mut log, &mut times, true)).collect();
    assert_eq!(actions, set_up());
    assert_eq!(texts(&mut log), ["Starting up...", "Initialised LCD", "Configured LCD"]);
    assert_eq!(times.load(), 41);
    let actions: Vec<BoardAction> =
        (0..8).map(|_| board.advance(&mut log, &mut times, true)).collect();
    assert_eq!(actions, blink(42));
    assert_eq!(times.load(), 42);
    assert_eq!(
        texts(&mut log),
        [
            "Powered LCD",
            "Powering LED",
            "Updating LCD",
            "LED timer wait",
            "Unpowering LED",
            "LED off timer wait",
        ]
    );
    assert_eq!(board.advance(&mut log, &mut times, true), BoardAction::LedHigh);
    assert_eq!(texts(&mut log), ["Powering LED"]);
}

#[test]
fn failing_lcd_is_logged_and_does_not_stop_the_board() {
    let mut log = Some(LogQueue::new());
    let mut times = SharedCount::new();
    let mut board = Onboard::new();
    for _ in 0..8 {
        board.advance(&mut log, &mut times, true);
    }
    let _ = texts(&mut log);
    let actions: Vec<BoardAction> =
        (0..4).map(|_| board.advance(&mut log, &mut times, false)).collect();
    assert_eq!(actions, blink(1)[2..6]);
    assert_eq!(
        texts(&mut log),
        [
            "LCD cursor pos error",
            "LCD clear error",
            "LCD cursor pos2 error",
            "LCD write error",
            "LED timer wait",
        ]
    );
}

#[test]
fn shared_count_goes_round() {
    let mut log: Option<LogQueue> = None;
    let mut times = SharedCount::new();
    let mut board = Onboard::new();
    times.store(u32::MAX);
    for _ in 0..8 {
        board.advance(&mut log, &mut times, true);
    }
    assert_eq!(times.load(), 0);
}

#[test]
fn shared_count_can_be_set_between_blinks() {
    let mut log: Option<LogQueue> = None;
    let mut times = SharedCount::new();
    let mut board = Onboard::new();
    for _ in 0..14 {
        board.advance(&mut log, &mut times, true);
    }
    assert_eq!(times.load(), 1);
    times.store(99);
    let actions: Vec<BoardAction> =
        (0..8).map(|_| board.advance(&mut log, &mut times, true)).collect();
    assert_eq!(actions, blink(100));
    assert_eq!(times.load(), 100);
}

#[test]
fn count_set_while_the_led_is_lit_is_overwritten() {
    let mut log: Option<LogQueue> = None;
    let mut times = SharedCount::new();
    let mut board = Onboard::new();
    for _ in 0..7 {
        board.advance(&mut log, &mut times, true);
    }
    times.store(99);
    board.advance(&mut log, &mut times, true);
    assert_eq!(times.load(), 1);
    times.store(99);
    board.advance(&mut log, &mut times, true);
    assert_eq!(times.load(), 99);
}

#[test]
fn blinks_are_counted() {
    let mut log: Option<LogQueue> = None;
    let mut times = SharedCount::new();
    let mut board = Onboard::new();
    let mut lit: u32 = 0;
    for _ in 0..6 + 8 * 11 {
        match board.advance(&mut log, &mut times, true) {
            BoardAction::LedHigh => lit += 1,
            BoardAction::WriteCount { count } => assert_eq!(count, lit),
            _ => {}
        }
    }
    assert_eq!((lit, times.load()), (11, 11));
}

#[test]
fn plain_counter_counts_blinks() {
    let mut counter = Counter::new();
    let actions: Vec<BoardAction> = (0..6).map(|_| counter.advance()).collect();
    assert_eq!(actions, set_up());
    for count in 1..=3u32 {
        assert!(counter.can_advance());
        let actions: Vec<BoardAction> = (0..8).map(|_| counter.advance()).collect();
        assert_eq!(actions, blink(count));
    }
}
