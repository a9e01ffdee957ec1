use gba_link_rs::counter;
use gba_link_rs::decimal;

#[test]
fn number_text_of_zero() {
    let mut buffer = [0xffu8; 4];
    assert_eq!(decimal::format_number(0, &mut buffer), "0");
    assert_eq!(buffer, [b'0', 0xff, 0xff, 0xff]);
}

#[test]
fn number_text_keeps_rest_of_buffer() {
    let mut buffer = [0xffu8; 16];
    assert_eq!(decimal::format_number(40_321, &mut buffer), "40321");
    assert_eq!(&buffer[..6], &[b'4', b'0', b'3', b'2', b'1', 0xff]);
}

#[test]
fn number_text_fits_exactly() {
    let mut buffer = [0u8; 2];
    assert_eq!(decimal::format_number(10, &mut buffer), "10");
    let mut buffer = [0u8; 20];
    assert_eq!(decimal::format_number(u64::MAX, &mut buffer), "18446744073709551615");
}

#[test]
fn number_text_reads_back() {
    let mut buffer = [0u8; 20];
    for n in [1u64, 9, 10, 11, 99, 100, 1_000, 65_535, 4_294_967_296] {
        let text = decimal::format_number(n, &mut buffer);
        assert_eq!(text.parse::<u64>(), Ok(n));
        assert!(!text.starts_with('0'));
    }
}

#[test]
fn counter_number_text() {
    let mut buffer = [0u8; 16];
    assert_eq!(counter::format_number(0, &mut buffer), "0");
    assert_eq!(counter::format_number(7, &mut buffer), "7");
    assert_eq!(counter::format_number(u32::MAX, &mut buffer), "4294967295");
    assert_eq!(&buffer[10..], &[0u8; 6]);
}
