//! The text that is written out when the kernel panics.
//!
//! The text is built as bytes; writing them to a device is left to the
//! caller.

use vstd::prelude::*;

verus! {

/// The decimal digits of a number that is not 0, most significant first,
/// as ASCII; no digits for 0.
pub open spec fn digits(value: nat) -> Seq<u8>
    decreases value,
{
    if value == 0 {
        Seq::empty()
    } else {
        digits(value / 10).push((48 + value % 10) as u8)
    }
}

/// A number in decimal, as ASCII, without leading zeros; `0` for 0.
pub open spec fn decimal(value: nat) -> Seq<u8> {
    if value == 0 {
        seq![48u8]
    } else {
        digits(value)
    }
}

/// Writes a number in decimal, as ASCII, without leading zeros.
pub fn write_u32(value: u32) -> (text: Vec<u8>)
    ensures
        text@ == decimal(value as nat),
{
    let mut reversed: Vec<u8> = Vec::new();
    if value == 0 {
        reversed.push(48);
        assert(reversed@ =~= decimal(0));
        return reversed;
    }
    let mut rest: u32 = value;
    assert(digits(value as nat) =~= digits(rest as nat) + reversed@.reverse());
    while rest > 0
        invariant
            digits(value as nat) == digits(rest as nat) + reversed@.reverse(),
        decreases rest,
    {
        let digit: u8 = (rest % 10) as u8 + 48;
        let ghost before = reversed@;
        reversed.push(digit);
        proof {
            assert(digits(rest as nat) == digits((rest / 10) as nat).push(digit));
            assert(reversed@.reverse() =~= seq![digit] + before.reverse());
            assert(digits(rest as nat) + before.reverse() =~= digits((rest / 10) as nat)
                + reversed@.reverse());
        }
        rest = rest / 10;
    }
    assert(digits(value as nat) =~= reversed@.reverse());
    let mut text: Vec<u8> = Vec::new();
    let mut n: usize = reversed.len();
    while n > 0
        invariant
            n <= reversed@.len(),
            text@ == reversed@.reverse().subrange(0, reversed@.len() - n),
        decreases n,
    {
        n -= 1;
        text.push(reversed[n]);
        assert(text@ =~= reversed@.reverse().subrange(0, reversed@.len() - n));
    }
    assert(text@ =~= reversed@.reverse());
    text
}

/// Where in the source a panic was raised.
pub struct Location<'a> {
    /// The name of the source file.
    pub file: &'a [u8],
    /// The line, counted from 1.
    pub line: u32,
    /// The column, counted from 1.
    pub column: u32,
}

/// A place in the source as text: the file, the line and the column,
/// with a colon between them.
pub open spec fn location_text(file: Seq<u8>, line: u32, column: u32) -> Seq<u8> {
    file + seq![58u8] + decimal(line as nat) + seq![58u8] + decimal(column as nat)
}

/// The words `panicked at `.
pub open spec fn panicked_at() -> Seq<u8> {
    seq![112u8, 97u8, 110u8, 105u8, 99u8, 107u8, 101u8, 100u8, 32u8, 97u8, 116u8, 32u8]
}

/// The words `(no location info)`.
pub open spec fn no_location() -> Seq<u8> {
    seq![
        40u8, 110u8, 111u8, 32u8, 108u8, 111u8, 99u8, 97u8, 116u8, 105u8, 111u8, 110u8, 32u8, 105u8,
        110u8, 102u8, 111u8, 41u8,
    ]
}

/// The report of a panic: `panicked at `, the place or `(no location
/// info)`, a colon, and, where there is a message, the message on a line
/// of its own.
pub open spec fn panic_text(location: Option<Location>, message: Option<Seq<u8>>) -> Seq<u8> {
    panicked_at() + (match location {
        Some(place) => location_text(place.file@, place.line, place.column),
        None => no_location(),
    }) + seq![58u8] + (match message {
        Some(text) => seq![10u8] + text,
        None => Seq::empty(),
    })
}

/// Adds the bytes of `tail` to the end of `text`.
fn append(text: &mut Vec<u8>, tail: &[u8])
    ensures
        final(text)@ == old(text)@ + tail@,
{
    let mut n: usize = 0;
    assert(text@ =~= old(text)@ + tail@.subrange(0, 0));
    while n < tail.len()
        invariant
            n <= tail@.len(),
            text@ == old(text)@ + tail@.subrange(0, n as int),
        decreases tail@.len() - n,
    {
        text.push(tail[n]);
        n += 1;
        assert(text@ =~= old(text)@ + tail@.subrange(0, n as int));
    }
    assert(tail@.subrange(0, n as int) =~= tail@);
}

/// Writes a place in the source: the file, the line and the column, with
/// a colon between them.
pub fn write_location(location: &Location) -> (text: Vec<u8>)
    ensures
        text@ == location_text(location.file@, location.line, location.column),
{
    let mut text: Vec<u8> = Vec::new();
    append(&mut text, location.file);
    text.push(58);
    let line = write_u32(location.line);
    append(&mut text, line.as_slice());
    text.push(58);
    let column = write_u32(location.column);
    append(&mut text, column.as_slice());
    assert(text@ =~= location_text(location.file@, location.line, location.column));
    text
}

/// Writes the report of a panic.
pub fn write_panic_info(location: Option<&Location>, message: Option<&[u8]>) -> (text: Vec<u8>)
    ensures
        text@ == panic_text(
            match location {
                Some(place) => Some(*place),
                None => None,
            },
            match message {
                Some(bytes) => Some(bytes@),
                None => None,
            },
        ),
{
    let mut text: Vec<u8> = Vec::new();
    let start: [u8; 12] = [112, 97, 110, 105, 99, 107, 101, 100, 32, 97, 116, 32];
    assert(start@ =~= panicked_at());
    append(&mut text, start.as_slice());
    match location {
        Some(place) => {
            let where_ = write_location(place);
            append(&mut text, where_.as_slice());
        },
        None => {
            let nowhere: [u8; 18] = [
                40,
                110,
                111,
                32,
                108,
                111,
                99,
                97,
                116,
                105,
                111,
                110,
                32,
                105,
                110,
                102,
                111,
                41,
            ];
            assert(nowhere@ =~= no_location());
            append(&mut text, nowhere.as_slice());
        },
    }
    text.push(58);
    match message {
        Some(bytes) => {
            text.push(10);
            append(&mut text, bytes);
        },
        None => {},
    }
    assert(text@ =~= panic_text(
        match location {
            Some(place) => Some(*place),
            None => None,
        },
        match message {
            Some(bytes) => Some(bytes@),
            None => None,
        },
    ));
    text
}

} // verus!
