//! Times on the wire: seconds since the Unix epoch written as the UTC
//! calendar date and time of day, `YYYYMMDDHHMMSSZ`.
//!
//! The calendar arithmetic is the `der` crate's. A time is written only
//! where the crate's two conversions agree on it, so what is written always
//! reads back as the same number of seconds.

use crate::asn1::der::{DerTree, DerValue};
use crate::asn1::leaf::{as_primitive, read_primitive, TAG_GENERALIZED_TIME};
use vstd::prelude::*;

verus! {

/// The calendar fields of a time given in seconds since the Unix epoch:
/// year, month, day, hour, minute, second. `None` past the year 9999.
pub uninterp spec fn civil_from_unix(secs: u64) -> Option<(u16, u8, u8, u8, u8, u8)>;

/// The seconds since the Unix epoch of a calendar date and time of day.
/// `None` where the fields name no moment from 1970 to 9999.
pub uninterp spec fn unix_from_civil(
    year: u16,
    month: u8,
    day: u8,
    hour: u8,
    minute: u8,
    second: u8,
) -> Option<u64>;

/// The last second that the wire format can carry: the end of the year
/// 9999.
pub const MAX_UNIX_SECS: u64 = 253_402_300_799;

/// `DateTime::from_unix_duration` of the `der` crate, and the getters of
/// the fields it computed. The crate refuses every time past the year
/// 9999.
#[verifier::external_body]
fn date_time_from_unix(secs: u64) -> (r: Option<(u16, u8, u8, u8, u8, u8)>)
    ensures
        r == civil_from_unix(secs),
        secs > MAX_UNIX_SECS ==> r is None,
{
    match der::DateTime::from_unix_duration(core::time::Duration::from_secs(secs)) {
        Ok(t) => Some((t.year(), t.month(), t.day(), t.hour(), t.minutes(), t.seconds())),
        Err(_) => None,
    }
}

/// `DateTime::new` of the `der` crate, and the duration it computed.
#[verifier::external_body]
fn date_time_to_unix(year: u16, month: u8, day: u8, hour: u8, minute: u8, second: u8) -> (r:
    Option<u64>)
    ensures
        r == unix_from_civil(year, month, day, hour, minute, second),
{
    match der::DateTime::new(year, month, day, hour, minute, second) {
        Ok(t) => Some(t.unix_duration().as_secs()),
        Err(_) => None,
    }
}

/// The character of a decimal digit.
pub open spec fn digit(d: int) -> u8 {
    (48 + d) as u8
}

/// The octet is the character of a decimal digit.
pub open spec fn is_digit(b: u8) -> bool {
    48 <= b <= 57
}

/// The number written by the two digits of `c` at `at`.
pub open spec fn number2(c: Seq<u8>, at: int) -> int {
    (c[at] - 48) * 10 + (c[at + 1] - 48)
}

/// The year written by the first four digits of `c`.
pub open spec fn number4(c: Seq<u8>) -> int {
    (c[0] - 48) * 1000 + (c[1] - 48) * 100 + (c[2] - 48) * 10 + (c[3] - 48)
}

/// Each field fits the digits that the format has for it.
pub open spec fn fields_printable(
    year: u16,
    month: u8,
    day: u8,
    hour: u8,
    minute: u8,
    second: u8,
) -> bool {
    year <= 9999 && month <= 99 && day <= 99 && hour <= 99 && minute <= 99 && second <= 99
}

/// The fifteen octets that write a calendar date and time of day.
pub open spec fn time_digits(
    year: u16,
    month: u8,
    day: u8,
    hour: u8,
    minute: u8,
    second: u8,
) -> Seq<u8> {
    let y = year as int;
    seq![
        digit(((y / 10) / 10) / 10),
        digit(((y / 10) / 10) % 10),
        digit((y / 10) % 10),
        digit(y % 10),
        digit(month as int / 10),
        digit(month as int % 10),
        digit(day as int / 10),
        digit(day as int % 10),
        digit(hour as int / 10),
        digit(hour as int % 10),
        digit(minute as int / 10),
        digit(minute as int % 10),
        digit(second as int / 10),
        digit(second as int % 10),
        0x5au8,
    ]
}

/// The content octets of a time, where it can be written.
pub open spec fn time_content(secs: u64) -> Option<Seq<u8>> {
    match civil_from_unix(secs) {
        Some((year, month, day, hour, minute, second)) => {
            if fields_printable(year, month, day, hour, minute, second) && unix_from_civil(
                year,
                month,
                day,
                hour,
                minute,
                second,
            ) == Some(secs) {
                Some(time_digits(year, month, day, hour, minute, second))
            } else {
                None
            }
        },
        None => None,
    }
}

/// The content has the shape of a time: fourteen digits and `Z`.
pub open spec fn time_shaped(c: Seq<u8>) -> bool {
    c.len() == 15 && c[14] == 0x5a && forall|i: int| 0 <= i < 14 ==> is_digit(#[trigger] c[i])
}

/// The time that content octets stand for.
pub open spec fn time_value(c: Seq<u8>) -> Option<u64> {
    if time_shaped(c) {
        unix_from_civil(
            number4(c) as u16,
            number2(c, 4) as u8,
            number2(c, 6) as u8,
            number2(c, 8) as u8,
            number2(c, 10) as u8,
            number2(c, 12) as u8,
        )
    } else {
        None
    }
}

proof fn lemma_two(v: int)
    requires
        0 <= v <= 99,
    ensures
        is_digit(digit(v / 10)),
        is_digit(digit(v % 10)),
        (digit(v / 10) - 48) * 10 + (digit(v % 10) - 48) == v,
{
}

proof fn lemma_four(y: int)
    requires
        0 <= y <= 9999,
    ensures
        is_digit(digit(((y / 10) / 10) / 10)),
        is_digit(digit(((y / 10) / 10) % 10)),
        is_digit(digit((y / 10) % 10)),
        is_digit(digit(y % 10)),
        (digit(((y / 10) / 10) / 10) - 48) * 1000 + (digit(((y / 10) / 10) % 10) - 48) * 100 + (
        digit((y / 10) % 10) - 48) * 10 + (digit(y % 10) - 48) == y,
{
    let q1 = y / 10;
    let q2 = q1 / 10;
    let q3 = q2 / 10;
    assert(y == 10 * q1 + y % 10);
    assert(q1 == 10 * q2 + q1 % 10);
    assert(q2 == 10 * q3 + q2 % 10);
    assert(0 <= q3 <= 9);
}

proof fn lemma_digits(year: u16, month: u8, day: u8, hour: u8, minute: u8, second: u8)
    requires
        fields_printable(year, month, day, hour, minute, second),
    ensures
        ({
            let c = time_digits(year, month, day, hour, minute, second);
            &&& time_shaped(c)
            &&& number4(c) == year
            &&& number2(c, 4) == month
            &&& number2(c, 6) == day
            &&& number2(c, 8) == hour
            &&& number2(c, 10) == minute
            &&& number2(c, 12) == second
        }),
{
    let c = time_digits(year, month, day, hour, minute, second);
    lemma_four(year as int);
    lemma_two(month as int);
    lemma_two(day as int);
    lemma_two(hour as int);
    lemma_two(minute as int);
    lemma_two(second as int);
    assert(c.len() == 15);
    assert(is_digit(c[0]) && is_digit(c[1]) && is_digit(c[2]) && is_digit(c[3]));
    assert(is_digit(c[4]) && is_digit(c[5]) && is_digit(c[6]) && is_digit(c[7]));
    assert(is_digit(c[8]) && is_digit(c[9]) && is_digit(c[10]) && is_digit(c[11]));
    assert(is_digit(c[12]) && is_digit(c[13]));
    assert forall|i: int| 0 <= i < 14 implies is_digit(#[trigger] c[i]) by {
        assert(i == 0 || i == 1 || i == 2 || i == 3 || i == 4 || i == 5 || i == 6 || i == 7 || i
            == 8 || i == 9 || i == 10 || i == 11 || i == 12 || i == 13);
    }
}

/// A time that was written reads back as the same time.
pub proof fn lemma_time_round_trip(secs: u64)
    requires
        time_content(secs) is Some,
    ensures
        time_value(time_content(secs)->0) == Some(secs),
{
    let (year, month, day, hour, minute, second) = civil_from_unix(secs)->0;
    lemma_digits(year, month, day, hour, minute, second);
}

/// Writes a time as content octets. `None` where the calendar conversion
/// refuses it or does not lead back to it.
pub fn encode_time(secs: u64) -> (r: Option<Vec<u8>>)
    ensures
        match r {
            Some(c) => time_content(secs) == Some(c@),
            None => time_content(secs) is None,
        },
        secs > MAX_UNIX_SECS ==> r is None,
{
    match date_time_from_unix(secs) {
        None => None,
        Some((year, month, day, hour, minute, second)) => {
            if year > 9999 || month > 99 || day > 99 || hour > 99 || minute > 99 || second > 99 {
                return None;
            }
            match date_time_to_unix(year, month, day, hour, minute, second) {
                None => None,
                Some(back) => {
                    if back != secs {
                        return None;
                    }
                    let mut out: Vec<u8> = Vec::new();
                    out.push(48 + (((year / 10) / 10) / 10) as u8);
                    out.push(48 + (((year / 10) / 10) % 10) as u8);
                    out.push(48 + ((year / 10) % 10) as u8);
                    out.push(48 + (year % 10) as u8);
                    out.push(48 + month / 10);
                    out.push(48 + month % 10);
                    out.push(48 + day / 10);
                    out.push(48 + day % 10);
                    out.push(48 + hour / 10);
                    out.push(48 + hour % 10);
                    out.push(48 + minute / 10);
                    out.push(48 + minute % 10);
                    out.push(48 + second / 10);
                    out.push(48 + second % 10);
                    out.push(0x5au8);
                    assert(out@ =~= time_digits(year, month, day, hour, minute, second));
                    Some(out)
                },
            }
        },
    }
}

/// Reads content octets as a time.
pub fn decode_time(c: &[u8]) -> (r: Option<u64>)
    ensures
        r == time_value(c@),
{
    if c.len() != 15 || c[14] != 0x5a {
        return None;
    }
    let mut i: usize = 0;
    while i < 14
        invariant
            i <= 14,
            c.len() == 15,
            forall|k: int| 0 <= k < i ==> is_digit(#[trigger] c[k]),
        decreases 14 - i,
    {
        if c[i] < 48 || c[i] > 57 {
            return None;
        }
        i += 1;
    }
    let year: u16 = (c[0] - 48) as u16 * 1000 + (c[1] - 48) as u16 * 100 + (c[2] - 48) as u16 * 10
        + (c[3] - 48) as u16;
    let month: u8 = (c[4] - 48) * 10 + (c[5] - 48);
    let day: u8 = (c[6] - 48) * 10 + (c[7] - 48);
    let hour: u8 = (c[8] - 48) * 10 + (c[9] - 48);
    let minute: u8 = (c[10] - 48) * 10 + (c[11] - 48);
    let second: u8 = (c[12] - 48) * 10 + (c[13] - 48);
    date_time_to_unix(year, month, day, hour, minute, second)
}

/// The value of a time that can be written.
pub open spec fn t_time(content: Seq<u8>) -> DerTree {
    DerTree::Primitive { tag: TAG_GENERALIZED_TIME, content }
}

/// The time that a value holds, where it holds one.
pub open spec fn as_time(t: DerTree) -> Option<u64> {
    match as_primitive(t, TAG_GENERALIZED_TIME) {
        Some(c) => time_value(c),
        None => None,
    }
}

/// The value of the time `secs`, where it can be written.
pub fn time_value_of(secs: u64) -> (r: Option<DerValue>)
    ensures
        match r {
            Some(v) => time_content(secs) is Some && v@ == t_time(time_content(secs)->0) && as_time(
                v@,
            ) == Some(secs),
            None => time_content(secs) is None,
        },
{
    match encode_time(secs) {
        Some(c) => {
            proof {
                lemma_time_round_trip(secs);
            }
            Some(DerValue::primitive(TAG_GENERALIZED_TIME, c))
        },
        None => None,
    }
}

/// The time that `v` holds, where it holds one.
pub fn read_time(v: &DerValue) -> (r: Option<u64>)
    ensures
        r == as_time(v@),
{
    match read_primitive(v, TAG_GENERALIZED_TIME) {
        Some(c) => decode_time(c.as_slice()),
        None => None,
    }
}

} // verus!
