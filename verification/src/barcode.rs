use vstd::prelude::*;

use crate::input_event::InputEvent;

verus! {

broadcast use vstd::seq::group_seq_axioms;

/// Event type of miscellaneous events (`EV_MSC`).
pub const EV_MSC: u16 = 4;

/// Event code that reports the scan code of a key (`MSC_SCAN`).
pub const MSC_SCAN: u16 = 4;

/// Scan value (HID usage) of the Enter key, which the reader sends after a
/// barcode.
pub const ENTER_USAGE: i32 = 458792;

/// Scan value from which the digit of a key is counted: the usage of a digit
/// key minus this value, modulo ten, is the digit (`1`..`9` then `0`).
pub const DIGIT_USAGE_BASE: i32 = 458781;

/// The digit reported for a scan value: `(value - DIGIT_USAGE_BASE) % 10`
/// with Rust's remainder, which takes the sign of the dividend.
pub open spec fn scan_digit(value: int) -> int {
    let d = value - DIGIT_USAGE_BASE;
    if d >= 0 {
        d % 10
    } else {
        -((-d) % 10)
    }
}

/// The character of a decimal digit `0..=9`.
pub open spec fn digit_char(d: int) -> char {
    (48 + d) as char
}

/// How Rust writes an integer between -9 and 9 in decimal.
pub open spec fn decimal_text(n: int) -> Seq<char> {
    if n < 0 {
        seq!['-', digit_char(-n)]
    } else {
        seq![digit_char(n)]
    }
}

/// The state of the barcode reader between two input events.
pub struct ScannerState {
    /// The next key scan is the repeat of the previous one and is skipped.
    pub skip_next: bool,
    /// One Enter has been seen; the next one ends the reading.
    pub end_seen: bool,
    /// The digits read since the start or since the last completed barcode.
    pub text: Seq<char>,
}

/// What the reader reports for one input event.
pub enum ScanEffect {
    /// Nothing to report.
    Nothing,
    /// A key scan with a negative value, reported as an error.
    NegativeValue,
    /// A digit was read.
    Digit(int),
    /// A barcode was completed; these are its digits.
    Completed(Seq<char>),
    /// The second Enter: the reading ends.
    Finished,
}

/// The reader's state before any event.
pub open spec fn initial_state() -> ScannerState {
    ScannerState { skip_next: false, end_seen: false, text: seq![] }
}

/// Whether an event reports the scan code of a key.
pub open spec fn is_key_scan(event: InputEvent) -> bool {
    event.kind == EV_MSC && event.code == MSC_SCAN
}

/// The reader's next state and report after an event.
pub open spec fn scan_step(s: ScannerState, event: InputEvent) -> (ScannerState, ScanEffect) {
    if !is_key_scan(event) {
        (s, ScanEffect::Nothing)
    } else if event.value < 0 {
        (s, ScanEffect::NegativeValue)
    } else if event.value == ENTER_USAGE {
        if !s.end_seen {
            (ScannerState { end_seen: true, text: seq![], ..s }, ScanEffect::Completed(s.text))
        } else {
            (ScannerState { end_seen: false, ..s }, ScanEffect::Finished)
        }
    } else if !s.skip_next {
        let d = scan_digit(event.value as int);
        (
            ScannerState { skip_next: true, text: s.text + decimal_text(d), ..s },
            ScanEffect::Digit(d),
        )
    } else {
        (ScannerState { skip_next: false, ..s }, ScanEffect::Nothing)
    }
}

/// What the reader reports for one input event.
#[derive(Debug, PartialEq, Eq)]
pub enum ScanOutput {
    /// Nothing to report.
    Nothing,
    /// A key scan with a negative value: print `less than 0 error`.
    NegativeValue,
    /// A digit was read: print it.
    Digit(i32),
    /// A barcode was completed: print `READED = ` and its digits.
    Completed(Vec<char>),
    /// The second Enter: stop reading.
    Finished,
}

impl View for ScanOutput {
    type V = ScanEffect;

    open spec fn view(&self) -> ScanEffect {
        match self {
            ScanOutput::Nothing => ScanEffect::Nothing,
            ScanOutput::NegativeValue => ScanEffect::NegativeValue,
            ScanOutput::Digit(d) => ScanEffect::Digit(*d as int),
            ScanOutput::Completed(text) => ScanEffect::Completed(text@),
            ScanOutput::Finished => ScanEffect::Finished,
        }
    }
}

/// The barcode reader: turns the input events of a keyboard-like barcode
/// reader into digits and completed barcodes.
///
/// The reader sends every key twice, so every other key scan is skipped; it
/// ends a barcode with Enter, also sent twice: the first completes the
/// barcode, the second ends the reading.
pub struct BarcodeScanner {
    skip_next: bool,
    end_seen: bool,
    text: Vec<char>,
}

impl View for BarcodeScanner {
    type V = ScannerState;

    closed spec fn view(&self) -> ScannerState {
        ScannerState { skip_next: self.skip_next, end_seen: self.end_seen, text: self.text@ }
    }
}

/// The digit reported for a scan value that is not negative.
pub fn digit_of_scan(value: i32) -> (d: i32)
    requires
        value >= 0,
    ensures
        d == scan_digit(value as int),
        -9 <= d <= 9,
{
    let diff = value - DIGIT_USAGE_BASE;
    if diff >= 0 {
        diff % 10
    } else {
        -((-diff) % 10)
    }
}

/// The decimal text of an integer between -9 and 9.
pub fn decimal_chars(n: i32) -> (r: Vec<char>)
    requires
        -9 <= n <= 9,
    ensures
        r@ == decimal_text(n as int),
{
    if n < 0 {
        let digit = ((48 - n) as u8) as char;
        let r = vec!['-', digit];
        assert(r@ =~= decimal_text(n as int));
        r
    } else {
        let digit = ((48 + n) as u8) as char;
        let r = vec![digit];
        assert(r@ =~= decimal_text(n as int));
        r
    }
}

impl BarcodeScanner {
    /// A reader that has seen no event.
    pub fn new() -> (r: BarcodeScanner)
        ensures
            r@ == initial_state(),
    {
        let r = BarcodeScanner { skip_next: false, end_seen: false, text: Vec::new() };
        assert(r@.text =~= initial_state().text);
        r
    }

    /// The digits read since the start or since the last completed barcode.
    pub fn text(&self) -> (r: &Vec<char>)
        ensures
            r@ == self@.text,
    {
        &self.text
    }

    /// Takes one input event and says what to report.
    pub fn step(&mut self, event: InputEvent) -> (out: ScanOutput)
        ensures
            (final(self)@, out@) == scan_step(old(self)@, event),
    {
        if !(event.kind == EV_MSC && event.code == MSC_SCAN) {
            ScanOutput::Nothing
        } else if event.value < 0 {
            ScanOutput::NegativeValue
        } else if event.value == ENTER_USAGE {
            if !self.end_seen {
                let mut text: Vec<char> = Vec::new();
                std::mem::swap(&mut text, &mut self.text);
                self.end_seen = true;
                assert(self.text@ =~= Seq::<char>::empty());
                ScanOutput::Completed(text)
            } else {
                self.end_seen = false;
                ScanOutput::Finished
            }
        } else if !self.skip_next {
            self.skip_next = true;
            let d = digit_of_scan(event.value);
            let digits = decimal_chars(d);
            let ghost old_text = self.text@;
            let mut i: usize = 0;
            while i < digits.len()
                invariant
                    i <= digits@.len(),
                    self.text@ == old_text + digits@.take(i as int),
                    self.skip_next,
                    self.end_seen == old(self).end_seen,
                decreases digits@.len() - i,
            {
                self.text.push(digits[i]);
                i = i + 1;
                assert(self.text@ =~= old_text + digits@.take(i as int));
            }
            assert(digits@.take(digits@.len() as int) =~= digits@);
            ScanOutput::Digit(d)
        } else {
            self.skip_next = false;
            ScanOutput::Nothing
        }
    }
}

/// The reader's final state and its reports after a sequence of events.
pub open spec fn scan_run(s: ScannerState, events: Seq<InputEvent>) -> (ScannerState, Seq<ScanEffect>)
    decreases events.len(),
{
    if events.len() == 0 {
        (s, seq![])
    } else {
        let (mid, effects) = scan_run(s, events.drop_last());
        let (next, effect) = scan_step(mid, events.last());
        (next, effects.push(effect))
    }
}

/// The digits reported among `effects`, written out one after the other.
pub open spec fn reported_digits(effects: Seq<ScanEffect>) -> Seq<char>
    decreases effects.len(),
{
    if effects.len() == 0 {
        seq![]
    } else {
        let earlier = reported_digits(effects.drop_last());
        match effects.last() {
            ScanEffect::Digit(d) => earlier + decimal_text(d),
            _ => earlier,
        }
    }
}

/// Whether an event is a scan of the Enter key.
pub open spec fn is_enter_scan(event: InputEvent) -> bool {
    is_key_scan(event) && event.value == ENTER_USAGE
}

/// Law: events other than key scans, and key scans with a negative value,
/// leave the reader as it was.
pub proof fn lemma_other_events_ignored(s: ScannerState, event: InputEvent)
    requires
        !is_key_scan(event) || event.value < 0,
    ensures
        scan_step(s, event).0 == s,
        scan_step(s, event).1 is Nothing || scan_step(s, event).1 is NegativeValue,
{
}

/// Law: the reader sends every key twice and each key is reported once:
/// the first scan reports its digit and appends it to the text, the repeat
/// reports nothing, and the reader is then ready for the next key.
pub proof fn lemma_each_key_reported_once(s: ScannerState, first: InputEvent, repeat: InputEvent)
    requires
        !s.skip_next,
        is_key_scan(first),
        is_key_scan(repeat),
        first.value >= 0,
        repeat.value >= 0,
        first.value != ENTER_USAGE,
        repeat.value != ENTER_USAGE,
    ensures
        ({
            let (s1, e1) = scan_step(s, first);
            let (s2, e2) = scan_step(s1, repeat);
            let d = scan_digit(first.value as int);
            &&& e1 == ScanEffect::Digit(d)
            &&& e2 == ScanEffect::Nothing
            &&& s2 == ScannerState {
                skip_next: false,
                end_seen: s.end_seen,
                text: s.text + decimal_text(d),
            }
        }),
{
}

/// Law: the first Enter completes the barcode with the digits read so far
/// and the second one ends the reading.
pub proof fn lemma_second_enter_finishes(s: ScannerState, first: InputEvent, second: InputEvent)
    requires
        !s.end_seen,
        is_enter_scan(first),
        is_enter_scan(second),
    ensures
        scan_step(s, first).1 == ScanEffect::Completed(s.text),
        scan_step(s, first).0.text == Seq::<char>::empty(),
        scan_step(scan_step(s, first).0, second).1 == ScanEffect::Finished,
{
}

/// Law: as long as no Enter comes, the reader's text grows by exactly the
/// digits it reports, and whether an Enter was seen does not change.
pub proof fn lemma_text_is_reported_digits(s: ScannerState, events: Seq<InputEvent>)
    requires
        forall|i: int| 0 <= i < events.len() ==> !is_enter_scan(#[trigger] events[i]),
    ensures
        scan_run(s, events).0.text == s.text + reported_digits(scan_run(s, events).1),
        scan_run(s, events).0.end_seen == s.end_seen,
    decreases events.len(),
{
    if events.len() == 0 {
        assert(s.text + Seq::<char>::empty() =~= s.text);
    } else {
        let prefix = events.drop_last();
        assert forall|i: int| 0 <= i < prefix.len() implies !is_enter_scan(#[trigger] prefix[i]) by {
            assert(prefix[i] == events[i]);
        }
        lemma_text_is_reported_digits(s, prefix);
        let (mid, effects) = scan_run(s, prefix);
        let last = events.last();
        assert(!is_enter_scan(events[events.len() - 1]));
        let (next, effect) = scan_step(mid, last);
        assert(effects.push(effect).drop_last() =~= effects);
        match effect {
            ScanEffect::Digit(d) => {
                assert(s.text + (reported_digits(effects) + decimal_text(d)) =~= (s.text
                    + reported_digits(effects)) + decimal_text(d));
            },
            _ => {},
        }
    }
}

/// Law: a barcode completed by the first Enter holds exactly the digits
/// that were reported since the reader started.
pub proof fn lemma_completed_barcode_is_reported_digits(events: Seq<InputEvent>, enter: InputEvent)
    requires
        forall|i: int| 0 <= i < events.len() ==> !is_enter_scan(#[trigger] events[i]),
        is_enter_scan(enter),
    ensures
        scan_step(scan_run(initial_state(), events).0, enter).1 == ScanEffect::Completed(
            reported_digits(scan_run(initial_state(), events).1),
        ),
{
    lemma_text_is_reported_digits(initial_state(), events);
    assert(initial_state().text + reported_digits(scan_run(initial_state(), events).1)
        =~= reported_digits(scan_run(initial_state(), events).1));
}

/// Law: the digit reported for a key scan value `v` is the remainder of
/// `v - DIGIT_USAGE_BASE` divided by ten, truncated toward zero as Rust's
/// `%` does: it differs from `v - DIGIT_USAGE_BASE` by a multiple of ten,
/// lies strictly between -10 and 10, and has the sign of the dividend. So
/// the usages 458782 to 458790 give 1 to 9 and 458791 gives 0.
pub proof fn lemma_scan_digit_is_remainder(v: int)
    ensures
        ({
            let x = v - DIGIT_USAGE_BASE;
            let d = scan_digit(v);
            &&& -10 < d < 10
            &&& (x >= 0 ==> 0 <= d)
            &&& (x <= 0 ==> d <= 0)
            &&& (x - d) % 10 == 0
        }),
        458782 <= v <= 458790 ==> scan_digit(v) == v - 458781,
        v == 458791 ==> scan_digit(v) == 0,
{
    let x = v - DIGIT_USAGE_BASE;
    if x >= 0 {
        assert(x == 10 * (x / 10) + x % 10);
        assert((x - x % 10) == 10 * (x / 10));
    } else {
        let y = -x;
        assert(y == 10 * (y / 10) + y % 10);
        assert(x - scan_digit(v) == 10 * (-(y / 10)));
    }
}

/// Law: the text written for a digit is its decimal representation, the
/// ASCII digit whose code is 48 plus the digit, preceded by `-` when the
/// digit is negative; it reads back as the digit.
pub proof fn lemma_decimal_text_reads_back(n: int)
    requires
        -9 <= n <= 9,
    ensures
        n >= 0 ==> decimal_text(n).len() == 1 && decimal_text(n)[0] as u32 == 48 + n,
        n < 0 ==> decimal_text(n).len() == 2 && decimal_text(n)[0] == '-' && decimal_text(n)[1]
            as u32 == 48 - n,
{
}

} // verus!
