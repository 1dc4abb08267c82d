use raspberry_pos::barcode::{
    decimal_chars, digit_of_scan, BarcodeScanner, ScanOutput, DIGIT_USAGE_BASE, ENTER_USAGE,
    EV_MSC, MSC_SCAN,
};
use raspberry_pos::input_event::{decode_input_event, InputEvent};

fn scan(value: i32) -> InputEvent {
    InputEvent { kind: EV_MSC, code: MSC_SCAN, value }
}

fn chars(s: &str) -> Vec<char> {
    s.chars().collect()
}

#[test]
fn decodes_the_last_eight_bytes_little_endian() {
    // A 64-bit record: 16 bytes of timestamp, then type 4, code 4, value 458782.
    let mut record = vec![0xAAu8; 16];
    record.extend_from_slice(&[4, 0, 4, 0]);
    record.extend_from_slice(&458782i32.to_le_bytes());
    let event = decode_input_event(&record);
    assert_eq!(event, InputEvent { kind: 4, code: 4, value: 458782 });
}

#[test]
fn decodes_a_short_record_and_negative_values() {
    // A 32-bit record: 8 bytes of timestamp.
    let mut record = vec![1u8, 2, 3, 4, 5, 6, 7, 8];
    record.extend_from_slice(&[1, 0, 0x10, 0x01]);
    record.extend_from_slice(&(-2i32).to_le_bytes());
    let event = decode_input_event(&record);
    assert_eq!(event, InputEvent { kind: 1, code: 0x0110, value: -2 });
}

#[test]
fn decodes_extreme_values() {
    let mut record = vec![0u8; 16];
    record.extend_from_slice(&[0xff, 0xff, 0, 0]);
    record.extend_from_slice(&i32::MIN.to_le_bytes());
    assert_eq!(decode_input_event(&record), InputEvent { kind: 0xffff, code: 0, value: i32::MIN });
    let mut record = vec![0u8; 16];
    record.extend_from_slice(&[0, 0, 0, 0]);
    record.extend_from_slice(&i32::MAX.to_le_bytes());
    assert_eq!(decode_input_event(&record).value, i32::MAX);
}

#[test]
fn digits_of_key_usages() {
    // Keys '1'..'9' then '0' of the HID keyboard page.
    assert_eq!(digit_of_scan(458782), 1);
    assert_eq!(digit_of_scan(458790), 9);
    assert_eq!(digit_of_scan(458791), 0);
    assert_eq!(digit_of_scan(DIGIT_USAGE_BASE), 0);
    // Below the base the remainder keeps the sign of the difference.
    assert_eq!(digit_of_scan(458780), -1);
    assert_eq!(digit_of_scan(0), -1);
    assert_eq!(digit_of_scan(458772), -9);
}

#[test]
fn decimal_text_of_digits() {
    assert_eq!(decimal_chars(0), chars("0"));
    assert_eq!(decimal_chars(7), chars("7"));
    assert_eq!(decimal_chars(-3), chars("-3"));
}

#[test]
fn reads_a_barcode_sent_twice_per_key() {
    let mut scanner = BarcodeScanner::new();
    let events = [458782, 458782, 458783, 458783, 458791, 458791];
    let mut outputs = Vec::new();
    for v in events {
        outputs.push(scanner.step(scan(v)));
    }
    assert_eq!(
        outputs,
        vec![
            ScanOutput::Digit(1),
            ScanOutput::Nothing,
            ScanOutput::Digit(2),
            ScanOutput::Nothing,
            ScanOutput::Digit(0),
            ScanOutput::Nothing,
        ]
    );
    assert_eq!(scanner.text(), &chars("120"));
    assert_eq!(scanner.step(scan(ENTER_USAGE)), ScanOutput::Completed(chars("120")));
    assert!(scanner.text().is_empty());
    assert_eq!(scanner.step(scan(ENTER_USAGE)), ScanOutput::Finished);
}

#[test]
fn other_events_and_negative_values_change_nothing() {
    let mut scanner = BarcodeScanner::new();
    assert_eq!(scanner.step(InputEvent { kind: 1, code: 30, value: 1 }), ScanOutput::Nothing);
    assert_eq!(scanner.step(InputEvent { kind: EV_MSC, code: 5, value: 458782 }), ScanOutput::Nothing);
    assert_eq!(scanner.step(scan(-1)), ScanOutput::NegativeValue);
    // The first key scan is still reported.
    assert_eq!(scanner.step(scan(458784)), ScanOutput::Digit(3));
    assert_eq!(scanner.step(scan(-5)), ScanOutput::NegativeValue);
    assert_eq!(scanner.step(scan(458784)), ScanOutput::Nothing);
}

#[test]
fn enter_does_not_touch_the_repeat_skipping() {
    let mut scanner = BarcodeScanner::new();
    assert_eq!(scanner.step(scan(458782)), ScanOutput::Digit(1));
    // The Enter comes between the two scans of a key.
    assert_eq!(scanner.step(scan(ENTER_USAGE)), ScanOutput::Completed(chars("1")));
    assert_eq!(scanner.step(scan(458782)), ScanOutput::Nothing);
    assert_eq!(scanner.step(scan(458785)), ScanOutput::Digit(4));
    assert_eq!(scanner.step(scan(ENTER_USAGE)), ScanOutput::Finished);
    assert_eq!(scanner.text(), &chars("4"));
}

#[test]
fn negative_digits_are_written_with_their_sign() {
    let mut scanner = BarcodeScanner::new();
    assert_eq!(scanner.step(scan(10)), ScanOutput::Digit(-1));
    assert_eq!(scanner.step(scan(10)), ScanOutput::Nothing);
    assert_eq!(scanner.step(scan(458782)), ScanOutput::Digit(1));
    assert_eq!(scanner.step(scan(ENTER_USAGE)), ScanOutput::Completed(chars("-11")));
}

#[test]
fn empty_barcode_then_finish() {
    let mut scanner = BarcodeScanner::new();
    assert_eq!(scanner.step(scan(ENTER_USAGE)), ScanOutput::Completed(Vec::new()));
    assert_eq!(scanner.step(scan(ENTER_USAGE)), ScanOutput::Finished);
}

#[test]
fn the_timestamp_is_not_read() {
    let fields = [4u8, 0, 4, 0, 0x28, 0x00, 0x07, 0x00];
    let mut a = vec![0u8; 16];
    a.extend_from_slice(&fields);
    let mut b = vec![0x5au8; 16];
    b.extend_from_slice(&fields);
    assert_eq!(decode_input_event(&a), decode_input_event(&b));
    assert_eq!(decode_input_event(&a).value, ENTER_USAGE);
}
