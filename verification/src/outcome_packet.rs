//! Outgoing packets: the frame layout and the greeting timestamp.

use crate::endian::{put_u16_be, put_u32_le, spec_u16_be_bytes, spec_u32_le_bytes};
use crate::income_packet::HEADER_LEN;
use chrono::{Datelike, Local, Timelike};
use vstd::prelude::*;

verus! {

/// The value every outgoing frame carries in its correlation field.
pub const OUTCOME_ID: u32 = 128;

/// Opcodes of the packets the server sends.
#[derive(Clone, Copy, Debug, PartialEq, Eq, Structural)]
pub enum Opcode {
    FirstDate,
    ResponseCharacters,
}

impl Opcode {
    /// The number that stands for this opcode on the wire.
    pub open spec fn spec_code(self) -> u16 {
        match self {
            Opcode::FirstDate => 940,
            Opcode::ResponseCharacters => 931,
        }
    }

    #[verifier::when_used_as_spec(spec_code)]
    pub fn code(self) -> (c: u16)
        ensures
            c == self.spec_code(),
    {
        match self {
            Opcode::FirstDate => 940,
            Opcode::ResponseCharacters => 931,
        }
    }
}

/// Why a value could not be put on the wire.
#[derive(Clone, Copy, Debug, PartialEq, Eq, Structural)]
pub enum EncodeError {
    /// A length does not fit the 16-bit field that has to hold it.
    PayloadTooLarge,
}

/// The frame for `code` and `payload`: total length (big-endian), the fixed
/// correlation value (little-endian), the opcode (big-endian), the payload.
pub open spec fn spec_pack(code: u16, payload: Seq<u8>) -> Seq<u8>
    recommends
        payload.len() + 8 <= 0xFFFF,
{
    spec_u16_be_bytes((8 + payload.len()) as u16) + spec_u32_le_bytes(OUTCOME_ID)
        + spec_u16_be_bytes(code) + payload
}

/// Builds the frame that carries `data` under `opcode`.
///
/// Fails exactly when header and payload together exceed what the 16-bit
/// length field can state.
pub fn pack(opcode: Opcode, data: &[u8]) -> (r: Result<Vec<u8>, EncodeError>)
    ensures
        r is Ok <==> data@.len() + 8 <= 0xFFFF,
        r is Ok ==> r->Ok_0@ == spec_pack(opcode.spec_code(), data@),
        r is Ok ==> r->Ok_0@.len() == data@.len() + 8,
        r is Err ==> r->Err_0 == EncodeError::PayloadTooLarge,
{
    let data_len: usize = data.len();
    if data_len > 0xFFFF - HEADER_LEN {
        return Err(EncodeError::PayloadTooLarge);
    }
    let total: usize = HEADER_LEN + data_len;
    let mut res: Vec<u8> = Vec::with_capacity(total);
    put_u16_be(&mut res, total as u16);
    put_u32_le(&mut res, OUTCOME_ID);
    put_u16_be(&mut res, opcode.code());
    res.extend_from_slice(data);
    Ok(res)
}

/// The fields of a wall-clock reading that the greeting shows.
#[derive(Clone, Copy, Debug, PartialEq, Eq, Structural)]
pub struct ClockReading {
    pub month: u32,
    pub day: u32,
    pub hour: u32,
    pub minute: u32,
    pub second: u32,
    /// Milliseconds since the last whole second; above 999 only in a leap
    /// second.
    pub millis: u32,
}

impl ClockReading {
    /// Every field lies in the range a calendar clock can show.
    pub open spec fn wf(self) -> bool {
        &&& 1 <= self.month <= 12
        &&& 1 <= self.day <= 31
        &&& self.hour <= 23
        &&& self.minute <= 59
        &&& self.second <= 59
        &&& self.millis <= 1999
    }

    /// Whether every field lies in the range a calendar clock can show.
    pub fn is_valid(&self) -> (b: bool)
        ensures
            b == self.wf(),
    {
        1 <= self.month && self.month <= 12 && 1 <= self.day && self.day <= 31 && self.hour <= 23
            && self.minute <= 59 && self.second <= 59 && self.millis <= 1999
    }
}

/// The character for the decimal digit `d`.
pub open spec fn spec_digit(d: int) -> char
    recommends
        0 <= d <= 9,
{
    ((48 + d) as u8) as char
}

/// `n` in two decimal digits.
pub open spec fn spec_two_digits(n: u32) -> Seq<char>
    recommends
        n < 100,
{
    seq![spec_digit(n as int / 10), spec_digit(n as int % 10)]
}

/// `n` in decimal, padded with zeros to at least three digits.
pub open spec fn spec_millis_digits(n: u32) -> Seq<char>
    recommends
        n < 10000,
{
    if n < 1000 {
        seq![spec_digit(n as int / 100), spec_digit(n as int / 10 % 10), spec_digit(n as int % 10)]
    } else {
        seq![
            spec_digit(n as int / 1000),
            spec_digit(n as int / 100 % 10),
            spec_digit(n as int / 10 % 10),
            spec_digit(n as int % 10),
        ]
    }
}

/// The greeting timestamp of a reading: `[MM-DD HH:MM:SS:mmm]`.
pub open spec fn spec_first_date(r: ClockReading) -> Seq<char>
    recommends
        r.wf(),
{
    seq!['['] + spec_two_digits(r.month) + seq!['-'] + spec_two_digits(r.day) + seq![' ']
        + spec_two_digits(r.hour) + seq![':'] + spec_two_digits(r.minute) + seq![':']
        + spec_two_digits(r.second) + seq![':'] + spec_millis_digits(r.millis) + seq![']']
}

/// `String::push` appends one character to the string.
pub assume_specification[ String::push ](s: &mut String, ch: char)
    ensures
        final(s)@ == old(s)@.push(ch),
;

fn digit(d: u32) -> (c: char)
    requires
        d <= 9,
    ensures
        c == spec_digit(d as int),
{
    let b: u8 = 48 + d as u8;
    b as char
}

fn push_two_digits(s: &mut String, n: u32)
    requires
        n < 100,
    ensures
        final(s)@ == old(s)@ + spec_two_digits(n),
{
    s.push(digit(n / 10));
    s.push(digit(n % 10));
    assert(s@ =~= old(s)@ + spec_two_digits(n));
}

fn push_millis_digits(s: &mut String, n: u32)
    requires
        n < 10000,
    ensures
        final(s)@ == old(s)@ + spec_millis_digits(n),
{
    if n >= 1000 {
        s.push(digit(n / 1000));
    }
    s.push(digit(n / 100 % 10));
    s.push(digit(n / 10 % 10));
    s.push(digit(n % 10));
    assert(s@ =~= old(s)@ + spec_millis_digits(n));
}

/// Renders the greeting timestamp of `reading`.
pub fn format_first_date(reading: &ClockReading) -> (s: String)
    requires
        reading.wf(),
    ensures
        s@ == spec_first_date(*reading),
        s@.len() == if reading.millis < 1000 { 20int } else { 21int },
{
    let mut s: String = String::new();
    s.push('[');
    push_two_digits(&mut s, reading.month);
    s.push('-');
    push_two_digits(&mut s, reading.day);
    s.push(' ');
    push_two_digits(&mut s, reading.hour);
    s.push(':');
    push_two_digits(&mut s, reading.minute);
    s.push(':');
    push_two_digits(&mut s, reading.second);
    s.push(':');
    push_millis_digits(&mut s, reading.millis);
    s.push(']');
    assert(s@ =~= spec_first_date(*reading));
    s
}

/// Calls `chrono::Local::now` and takes from the result what `month`, `day`,
/// `hour`, `minute`, `second` and `timestamp_subsec_millis` return. Nothing
/// is said of which moment comes back, only that each field is in the range
/// chrono documents for it. Like chrono, this panics on a system clock set
/// before 1970.
#[verifier::external_body]
fn local_clock() -> (r: ClockReading)
    ensures
        r.wf(),
{
    let now = Local::now();
    ClockReading {
        month: now.month(),
        day: now.day(),
        hour: now.hour(),
        minute: now.minute(),
        second: now.second(),
        millis: now.timestamp_subsec_millis(),
    }
}

/// The greeting timestamp of the current local time.
pub fn get_first_date() -> (s: String)
    ensures
        exists|r: ClockReading| r.wf() && s@ == #[trigger] spec_first_date(r),
{
    let reading: ClockReading = local_clock();
    format_first_date(&reading)
}

} // verus!
