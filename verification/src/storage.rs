//! How the id counter is written down as a stored record.
//!
//! The planner keeps three records under one dictionary: the events, the
//! tasks and the id counter. The counter is stored as decimal text; when it
//! is read back, text that is no number counts as the counter's first
//! value.

use crate::text::{decimal, digit_char};
use vstd::prelude::*;

verus! {

/// Name of the dictionary that holds the planner's records.
pub const DICT: &'static str = "planner.data";

/// Name of the record that holds the events.
pub const KEY_EVENTS: &'static str = "events";

/// Name of the record that holds the tasks.
pub const KEY_TASKS: &'static str = "tasks";

/// Name of the record that holds the id counter.
pub const KEY_NEXT_ID: &'static str = "next_id";

/// The counter of a planner that has handed out no id yet.
pub const FIRST_ID: u32 = 1;

/// Length in bytes of the white-space character whose UTF-8 encoding starts
/// at `at`, or 0 if none starts there.
///
/// White space is U+0009 to U+000D, U+0020, U+0085, U+00A0, U+1680, U+2000
/// to U+200A, U+2028, U+2029, U+202F, U+205F and U+3000.
pub open spec fn space_len(bytes: Seq<u8>, at: int) -> int {
    if at < 0 || at >= bytes.len() {
        0
    } else if 0x09 <= bytes[at] <= 0x0d || bytes[at] == 0x20 {
        1
    } else if at + 1 < bytes.len() && bytes[at] == 0xc2 && (bytes[at + 1] == 0x85 || bytes[at + 1]
        == 0xa0) {
        2
    } else if at + 2 < bytes.len() && bytes[at] == 0xe1 && bytes[at + 1] == 0x9a && bytes[at + 2]
        == 0x80 {
        3
    } else if at + 2 < bytes.len() && bytes[at] == 0xe2 && bytes[at + 1] == 0x80 && (0x80
        <= bytes[at + 2] <= 0x8a || bytes[at + 2] == 0xa8 || bytes[at + 2] == 0xa9 || bytes[at
        + 2] == 0xaf) {
        3
    } else if at + 2 < bytes.len() && bytes[at] == 0xe2 && bytes[at + 1] == 0x81 && bytes[at + 2]
        == 0x9f {
        3
    } else if at + 2 < bytes.len() && bytes[at] == 0xe3 && bytes[at + 1] == 0x80 && bytes[at + 2]
        == 0x80 {
        3
    } else {
        0
    }
}

/// Length in bytes of the white-space character whose UTF-8 encoding ends
/// just before `end`, or 0 if none ends there.
pub open spec fn space_len_before(bytes: Seq<u8>, end: int) -> int {
    if end > bytes.len() {
        0
    } else if space_len(bytes, end - 1) == 1 {
        1
    } else if space_len(bytes, end - 2) == 2 {
        2
    } else if space_len(bytes, end - 3) == 3 {
        3
    } else {
        0
    }
}

/// Position behind the white space that starts at `from`.
pub open spec fn after_spaces(bytes: Seq<u8>, from: int) -> int
    decreases bytes.len() - from,
{
    if space_len(bytes, from) > 0 {
        after_spaces(bytes, from + space_len(bytes, from))
    } else {
        from
    }
}

/// Position of the white space that ends just before `end`.
pub open spec fn before_spaces(bytes: Seq<u8>, end: int) -> int
    decreases end,
{
    if end > 0 && space_len_before(bytes, end) > 0 {
        before_spaces(bytes, end - space_len_before(bytes, end))
    } else {
        end
    }
}

/// The bytes are ASCII digits, all of them.
pub open spec fn all_digits(bytes: Seq<u8>) -> bool {
    forall|i: int| 0 <= i < bytes.len() ==> 0x30 <= #[trigger] bytes[i] <= 0x39
}

/// The number that a run of ASCII digits writes.
pub open spec fn digits_value(digits: Seq<u8>) -> nat
    decreases digits.len(),
{
    if digits.len() == 0 {
        0
    } else {
        digits_value(digits.drop_last()) * 10 + (digits.last() - 0x30) as nat
    }
}

/// The number that text writes, if it writes one that fits 32 bits: at
/// least one ASCII digit, after an optional plus sign.
pub open spec fn number(text: Seq<u8>) -> Option<u32> {
    let digits = if text.len() > 0 && text[0] == 0x2b {
        text.skip(1)
    } else {
        text
    };
    if digits.len() > 0 && all_digits(digits) && digits_value(digits) <= u32::MAX {
        Some(digits_value(digits) as u32)
    } else {
        None
    }
}

/// The record without the white space at its start and at its end.
pub open spec fn trimmed(record: Seq<u8>) -> Seq<u8> {
    let start = after_spaces(record, 0);
    let end = before_spaces(record, record.len() as int);
    if start < end {
        record.subrange(start, end)
    } else {
        Seq::empty()
    }
}

/// The counter that a stored record stands for: the number that the record
/// writes, white space before and after it left aside, or the first id
/// where the record writes none.
pub open spec fn stored_next_id(record: Seq<u8>) -> u32 {
    match number(trimmed(record)) {
        Some(id) => id,
        None => FIRST_ID,
    }
}

/// The record that stands for a counter: its decimal numeral in ASCII.
pub open spec fn next_id_record(id: u32) -> Seq<u8> {
    decimal(id as nat).map_values(|c: char| c as u8)
}

/// Length of the white-space character that starts at `at`.
fn space_at(bytes: &[u8], at: usize) -> (len: usize)
    ensures
        len == space_len(bytes@, at as int),
        at + len <= bytes.len() || len == 0,
{
    let n = bytes.len();
    if at >= n {
        return 0;
    }
    let b0 = bytes[at];
    if (0x09 <= b0 && b0 <= 0x0d) || b0 == 0x20 {
        return 1;
    }
    if n - at >= 2 && b0 == 0xc2 {
        let b1 = bytes[at + 1];
        if b1 == 0x85 || b1 == 0xa0 {
            return 2;
        }
    }
    if n - at >= 3 {
        let b1 = bytes[at + 1];
        let b2 = bytes[at + 2];
        if b0 == 0xe1 && b1 == 0x9a && b2 == 0x80 {
            return 3;
        }
        if b0 == 0xe2 && b1 == 0x80 && ((0x80 <= b2 && b2 <= 0x8a) || b2 == 0xa8 || b2 == 0xa9
            || b2 == 0xaf) {
            return 3;
        }
        if b0 == 0xe2 && b1 == 0x81 && b2 == 0x9f {
            return 3;
        }
        if b0 == 0xe3 && b1 == 0x80 && b2 == 0x80 {
            return 3;
        }
    }
    0
}

/// Length of the white-space character that ends just before `end`.
fn space_before(bytes: &[u8], end: usize) -> (len: usize)
    requires
        end <= bytes.len(),
    ensures
        len == space_len_before(bytes@, end as int),
        len <= end,
{
    if end >= 1 && space_at(bytes, end - 1) == 1 {
        1
    } else if end >= 2 && space_at(bytes, end - 2) == 2 {
        2
    } else if end >= 3 && space_at(bytes, end - 3) == 3 {
        3
    } else {
        0
    }
}

/// A run of digits writes at least the number that any run it starts with
/// writes.
proof fn lemma_digits_value_grows(digits: Seq<u8>, front: int)
    requires
        0 <= front <= digits.len(),
        all_digits(digits),
    ensures
        digits_value(digits.take(front)) <= digits_value(digits),
    decreases digits.len() - front,
{
    if front < digits.len() {
        lemma_digits_value_grows(digits, front + 1);
        assert(digits.take(front + 1).drop_last() =~= digits.take(front));
        assert(digits.take(front + 1).last() == digits[front]);
    } else {
        assert(digits.take(front) =~= digits);
    }
}

/// Reads the number that `bytes` writes from `start` up to `end`.
fn read_number(bytes: &[u8], start: usize, end: usize) -> (value: Option<u32>)
    requires
        start <= end <= bytes.len(),
    ensures
        value == number(bytes@.subrange(start as int, end as int)),
{
    let ghost text = bytes@.subrange(start as int, end as int);
    let mut at = start;
    if at < end && bytes[at] == 0x2b {
        at += 1;
    }
    let ghost digits = bytes@.subrange(at as int, end as int);
    proof {
        if at > start {
            assert(text[0] == 0x2b);
            assert(text.skip(1) =~= digits);
        } else {
            if text.len() > 0 {
                assert(text[0] == bytes@[start as int]);
            }
            assert(text =~= digits);
        }
    }
    if at >= end {
        return None;
    }
    let first = at;
    let mut value: u32 = 0;
    proof {
        assert(digits.take(0) =~= Seq::empty());
    }
    while at < end
        invariant
            start <= first <= at <= end <= bytes.len(),
            text == bytes@.subrange(start as int, end as int),
            digits == bytes@.subrange(first as int, end as int),
            digits.len() > 0,
            number(text) == if all_digits(digits) && digits_value(digits) <= u32::MAX {
                Some(digits_value(digits) as u32)
            } else {
                None
            },
            all_digits(digits.take(at - first)),
            value == digits_value(digits.take(at - first)),
        decreases end - at,
    {
        let b = bytes[at];
        let ghost read = digits.take(at - first);
        let ghost more = digits.take(at - first + 1);
        proof {
            assert(more.drop_last() =~= read);
            assert(more.last() == b);
        }
        if b < 0x30 || b > 0x39 {
            proof {
                assert(digits[at - first] == b);
            }
            return None;
        }
        proof {
            assert forall|i: int| 0 <= i < more.len() implies 0x30 <= #[trigger] more[i]
                <= 0x39 by {
                if i < read.len() {
                    assert(read[i] == more[i]);
                }
            }
        }
        let d: u32 = (b - 0x30) as u32;
        if value > (u32::MAX - d) / 10 {
            proof {
                assert(digits_value(more) > u32::MAX);
                if all_digits(digits) {
                    lemma_digits_value_grows(digits, at - first + 1);
                }
            }
            return None;
        }
        value = value * 10 + d;
        at += 1;
    }
    proof {
        assert(digits.take(at - first) =~= digits);
    }
    Some(value)
}

/// The counter that a stored record stands for.
///
/// The record holds a number where, white space before and after it left
/// aside, it is an optional plus sign and one or more ASCII digits that
/// write a number of at most 32 bits. Any other record, an empty one too,
/// stands for the first id.
pub fn decode_next_id(record: &[u8]) -> (id: u32)
    ensures
        id == stored_next_id(record@),
{
    let mut start: usize = 0;
    loop
        invariant
            start <= record.len(),
            after_spaces(record@, start as int) == after_spaces(record@, 0),
        ensures
            start <= record.len(),
            start == after_spaces(record@, 0),
        decreases record.len() - start,
    {
        let len = space_at(record, start);
        if len == 0 {
            break ;
        }
        start += len;
    }
    let mut end: usize = record.len();
    loop
        invariant
            end <= record.len(),
            before_spaces(record@, end as int) == before_spaces(record@, record.len() as int),
        ensures
            end <= record.len(),
            end == before_spaces(record@, record.len() as int),
        decreases end,
    {
        let len = space_before(record, end);
        if len == 0 {
            break ;
        }
        end -= len;
    }
    if start < end {
        match read_number(record, start, end) {
            Some(id) => id,
            None => FIRST_ID,
        }
    } else {
        FIRST_ID
    }
}

fn digit_byte(d: u32) -> (b: u8)
    requires
        d < 10,
    ensures
        b == digit_char(d as nat) as u8,
        b == 0x30 + d,
{
    0x30 + d as u8
}

fn push_decimal_bytes(out: &mut Vec<u8>, n: u32)
    ensures
        final(out)@ == old(out)@ + next_id_record(n),
    decreases n,
{
    if n >= 10 {
        push_decimal_bytes(out, n / 10);
    }
    out.push(digit_byte(n % 10));
    proof {
        let as_byte = |c: char| c as u8;
        if n >= 10 {
            assert(decimal(n as nat).map_values(as_byte) =~= decimal((n / 10) as nat).map_values(
                as_byte,
            ).push(as_byte(digit_char((n % 10) as nat))));
        } else {
            assert(decimal(n as nat).map_values(as_byte) =~= seq![
                as_byte(digit_char(n as nat)),
            ]);
        }
    }
}

/// The record that stands for a counter: its decimal numeral in ASCII.
pub fn encode_next_id(id: u32) -> (record: Vec<u8>)
    ensures
        record@ == next_id_record(id),
{
    let mut record: Vec<u8> = Vec::new();
    push_decimal_bytes(&mut record, id);
    record
}

proof fn lemma_digit_byte(d: nat)
    requires
        d < 10,
    ensures
        digit_char(d) as u8 == 0x30 + d,
{
}

/// The record of a number is the digits of that number.
proof fn lemma_record_digits(n: nat)
    requires
        n <= u32::MAX,
    ensures
        next_id_record(n as u32).len() > 0,
        all_digits(next_id_record(n as u32)),
        digits_value(next_id_record(n as u32)) == n,
    decreases n,
{
    let as_byte = |c: char| c as u8;
    let record = next_id_record(n as u32);
    lemma_digit_byte(n % 10);
    if n >= 10 {
        lemma_record_digits(n / 10);
        let front = next_id_record((n / 10) as u32);
        assert(record =~= front.push(as_byte(digit_char(n % 10))));
        assert(record.drop_last() =~= front);
        assert(record.last() == 0x30 + n % 10);
        assert forall|i: int| 0 <= i < record.len() implies 0x30 <= #[trigger] record[i]
            <= 0x39 by {
            if i < front.len() {
                assert(front[i] == record[i]);
            }
        }
    } else {
        assert(record =~= seq![as_byte(digit_char(n))]);
        assert(record.drop_last() =~= Seq::<u8>::empty());
        assert(record.last() == 0x30 + n);
        assert(digits_value(record.drop_last()) == 0);
    }
}

/// A counter that is written down and read back is the same counter.
pub proof fn lemma_next_id_round_trip(id: u32)
    ensures
        stored_next_id(next_id_record(id)) == id,
{
    let record = next_id_record(id);
    lemma_record_digits(id as nat);
    assert(0x30 <= record[0] <= 0x39);
    assert(0x30 <= record[record.len() - 1] <= 0x39);
    assert(space_len(record, 0) == 0);
    assert(space_len_before(record, record.len() as int) == 0) by {
        assert(space_len(record, record.len() - 1) == 0);
        if record.len() >= 2 {
            assert(0x30 <= record[record.len() - 2] <= 0x39);
        }
        if record.len() >= 3 {
            assert(0x30 <= record[record.len() - 3] <= 0x39);
        }
    }
    assert(trimmed(record) =~= record);
}

} // verus!
