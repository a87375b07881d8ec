//! The fixed timestamp grammar `YYYY-MM-DD HH:mm:ss,fff` and its conversion to
//! milliseconds since the Unix epoch (naive, no time zone applied).

use vstd::prelude::*;

verus! {

/// The seven numeric components of a timestamp, as written in the text.
#[derive(Clone, Copy, Debug, PartialEq, Eq, Structural)]
pub struct DateTimeParts {
    pub year: u32,
    pub month: u32,
    pub day: u32,
    pub hour: u32,
    pub minute: u32,
    pub second: u32,
    pub millis: u32,
}

/// Length in bytes of a well-formed timestamp.
pub const DATE_TEXT_LEN: usize = 23;

pub open spec fn is_digit(b: u8) -> bool {
    48 <= b <= 57
}

/// Decimal value of a sequence of ASCII digits, most significant first.
pub open spec fn digits_value(s: Seq<u8>) -> int
    decreases s.len(),
{
    if s.len() == 0 {
        0
    } else {
        digits_value(s.drop_last()) * 10 + (s.last() - 48)
    }
}

/// The `width` ASCII digits that write `v` (zero padded, most significant first).
pub open spec fn digits_of(v: int, width: nat) -> Seq<u8>
    decreases width,
{
    if width == 0 {
        seq![]
    } else {
        digits_of(v / 10, (width - 1) as nat).push((v % 10 + 48) as u8)
    }
}

pub open spec fn all_digits(s: Seq<u8>, lo: int, hi: int) -> bool {
    forall|i: int| lo <= i < hi ==> #[trigger] is_digit(s[i])
}

pub open spec fn field_value(s: Seq<u8>, lo: int, hi: int) -> int {
    digits_value(s.subrange(lo, hi))
}

/// `s` has the shape `YYYY-MM-DD HH:mm:ss,fff`.
pub open spec fn is_date_shape(s: Seq<u8>) -> bool {
    &&& s.len() == 23
    &&& all_digits(s, 0, 4)
    &&& s[4] == 45u8
    &&& all_digits(s, 5, 7)
    &&& s[7] == 45u8
    &&& all_digits(s, 8, 10)
    &&& s[10] == 32u8
    &&& all_digits(s, 11, 13)
    &&& s[13] == 58u8
    &&& all_digits(s, 14, 16)
    &&& s[16] == 58u8
    &&& all_digits(s, 17, 19)
    &&& s[19] == 44u8
    &&& all_digits(s, 20, 23)
}

/// The components written in a text of timestamp shape.
pub open spec fn parts_of(s: Seq<u8>) -> DateTimeParts {
    DateTimeParts {
        year: field_value(s, 0, 4) as u32,
        month: field_value(s, 5, 7) as u32,
        day: field_value(s, 8, 10) as u32,
        hour: field_value(s, 11, 13) as u32,
        minute: field_value(s, 14, 16) as u32,
        second: field_value(s, 17, 19) as u32,
        millis: field_value(s, 20, 23) as u32,
    }
}

/// The text that writes `p` in the timestamp format.
pub open spec fn format_parts(p: DateTimeParts) -> Seq<u8> {
    digits_of(p.year as int, 4) + seq![45u8] + digits_of(p.month as int, 2) + seq![45u8]
        + digits_of(p.day as int, 2) + seq![32u8] + digits_of(p.hour as int, 2) + seq![58u8]
        + digits_of(p.minute as int, 2) + seq![58u8] + digits_of(p.second as int, 2) + seq![
        44u8,
    ] + digits_of(p.millis as int, 3)
}

pub open spec fn is_leap_year(y: int) -> bool {
    (y % 4 == 0 && y % 100 != 0) || y % 400 == 0
}

pub open spec fn days_in_month(y: int, m: int) -> int {
    if m == 2 {
        if is_leap_year(y) {
            29
        } else {
            28
        }
    } else if m == 4 || m == 6 || m == 9 || m == 11 {
        30
    } else {
        31
    }
}

/// The components name an existing day and time of day of the proleptic
/// Gregorian calendar (no leap second).
pub open spec fn is_valid_date_time(p: DateTimeParts) -> bool {
    &&& 1 <= p.month <= 12
    &&& 1 <= p.day <= days_in_month(p.year as int, p.month as int)
    &&& p.hour < 24
    &&& p.minute < 60
    &&& p.second < 60
    &&& p.millis < 1000
}

/// Days from 1970-01-01 to the given day of the proleptic Gregorian calendar.
pub open spec fn days_from_civil(y: int, m: int, d: int) -> int {
    let yy = if m <= 2 {
        y - 1
    } else {
        y
    };
    let era = yy / 400;
    let yoe = yy - era * 400;
    let mp = (m + 9) % 12;
    let doy = (153 * mp + 2) / 5 + d - 1;
    let doe = yoe * 365 + yoe / 4 - yoe / 100 + doy;
    era * 146097 + doe - 719468
}

/// Milliseconds since 1970-01-01 00:00:00.000 of the given components.
pub open spec fn epoch_millis(p: DateTimeParts) -> int {
    days_from_civil(p.year as int, p.month as int, p.day as int) * 86_400_000 + p.hour * 3_600_000
        + p.minute * 60_000 + p.second * 1000 + p.millis
}

/// What a timestamp text denotes: its epoch milliseconds, or nothing where
/// the text is not of timestamp shape or names no existing instant.
pub open spec fn date_value(s: Seq<u8>) -> Option<int> {
    if is_date_shape(s) && is_valid_date_time(parts_of(s)) {
        Some(epoch_millis(parts_of(s)))
    } else {
        None
    }
}

/// Relies on chrono's `NaiveDate::from_ymd_opt`, `NaiveDate::and_hms_milli_opt`
/// and `DateTime::timestamp_millis` (through `NaiveDateTime::and_utc`): a date
/// exists for a valid month and day of a year in chrono's range, a time for an
/// hour below 24, a minute and second below 60 and (with the `millis < 1000`
/// that is required here) any millisecond; the timestamp counts the
/// non-leap milliseconds since 1970-01-01.
#[verifier::external_body]
fn chrono_epoch_millis(p: DateTimeParts) -> (r: Option<i64>)
    requires
        p.year <= 9999,
        p.millis < 1000,
    ensures
        r.is_some() <==> is_valid_date_time(p),
        r.is_some() ==> r.unwrap() as int == epoch_millis(p),
{
    match chrono::NaiveDate::from_ymd_opt(p.year as i32, p.month, p.day) {
        Some(date) => match date.and_hms_milli_opt(p.hour, p.minute, p.second, p.millis) {
            Some(t) => Some(t.and_utc().timestamp_millis()),
            None => None,
        },
        None => None,
    }
}

proof fn lemma_digits_value_bound(s: Seq<u8>)
    requires
        forall|i: int| 0 <= i < s.len() ==> #[trigger] is_digit(s[i]),
    ensures
        0 <= digits_value(s) < pow10(s.len()),
    decreases s.len(),
{
    if s.len() > 0 {
        let t = s.drop_last();
        assert forall|i: int| 0 <= i < t.len() implies #[trigger] is_digit(t[i]) by {
            assert(t[i] == s[i]);
        }
        lemma_digits_value_bound(t);
        assert(is_digit(s[s.len() - 1]));
    }
}

pub open spec fn pow10(n: nat) -> int
    decreases n,
{
    if n == 0 {
        1
    } else {
        10 * pow10((n - 1) as nat)
    }
}

/// Reads the decimal number written by the digits `s[lo..hi]`.
fn read_number(s: &[u8], lo: usize, hi: usize) -> (r: u32)
    requires
        lo <= hi <= s@.len(),
        hi - lo <= 4,
        all_digits(s@, lo as int, hi as int),
    ensures
        r as int == field_value(s@, lo as int, hi as int),
{
    let mut acc: u32 = 0;
    let mut i: usize = lo;
    while i < hi
        invariant
            lo <= i <= hi <= s@.len(),
            hi - lo <= 4,
            all_digits(s@, lo as int, hi as int),
            acc as int == field_value(s@, lo as int, i as int),
            acc < pow10((i - lo) as nat),
        decreases hi - i,
    {
        let ghost prev = s@.subrange(lo as int, i as int);
        let ghost next = s@.subrange(lo as int, i as int + 1);
        assert(next.drop_last() =~= prev);
        assert(is_digit(s@[i as int]));
        assert(pow10((i + 1 - lo) as nat) == 10 * pow10((i - lo) as nat));
        reveal_with_fuel(pow10, 4);
        assert(acc <= 999);
        acc = acc * 10 + (s[i] - 48u8) as u32;
        i = i + 1;
    }
    acc
}

/// Parses the components of a timestamp text; `None` unless the text has the
/// shape `YYYY-MM-DD HH:mm:ss,fff` exactly.
pub fn parse_date_parts(s: &[u8]) -> (r: Option<DateTimeParts>)
    ensures
        r.is_some() <==> is_date_shape(s@),
        r.is_some() ==> r.unwrap() == parts_of(s@),
{
    if s.len() != DATE_TEXT_LEN {
        return None;
    }
    if s[4] != 45u8 || s[7] != 45u8 || s[10] != 32u8 || s[13] != 58u8 || s[16] != 58u8 || s[19]
        != 44u8 {
        return None;
    }
    let mut i: usize = 0;
    while i < DATE_TEXT_LEN
        invariant
            s@.len() == 23,
            i <= 23,
            forall|j: int|
                0 <= j < i && j != 4 && j != 7 && j != 10 && j != 13 && j != 16 && j != 19
                    ==> #[trigger] is_digit(s@[j]),
        decreases 23 - i,
    {
        if i != 4 && i != 7 && i != 10 && i != 13 && i != 16 && i != 19 {
            if s[i] < 48u8 || s[i] > 57u8 {
                assert(!is_digit(s@[i as int]));
                return None;
            }
        }
        i = i + 1;
    }
    let p = DateTimeParts {
        year: read_number(s, 0, 4),
        month: read_number(s, 5, 7),
        day: read_number(s, 8, 10),
        hour: read_number(s, 11, 13),
        minute: read_number(s, 14, 16),
        second: read_number(s, 17, 19),
        millis: read_number(s, 20, 23),
    };
    Some(p)
}

/// Parses a timestamp text into milliseconds since the Unix epoch.
pub fn parse_datetime(s: &[u8]) -> (r: Option<i64>)
    ensures
        r.is_some() <==> date_value(s@).is_some(),
        r.is_some() ==> r.unwrap() as int == date_value(s@).unwrap(),
{
    match parse_date_parts(s) {
        None => None,
        Some(p) => {
            proof {
                lemma_digits_value_bound(s@.subrange(0, 4));
                lemma_digits_value_bound(s@.subrange(20, 23));
                reveal_with_fuel(pow10, 5);
            }
            if p.millis >= 1000 {
                return None;
            }
            chrono_epoch_millis(p)
        },
    }
}

proof fn lemma_digits_round_trip(t: Seq<u8>)
    requires
        forall|i: int| 0 <= i < t.len() ==> #[trigger] is_digit(t[i]),
    ensures
        digits_of(digits_value(t), t.len()) == t,
    decreases t.len(),
{
    if t.len() > 0 {
        let u = t.drop_last();
        assert forall|i: int| 0 <= i < u.len() implies #[trigger] is_digit(u[i]) by {
            assert(u[i] == t[i]);
        }
        lemma_digits_round_trip(u);
        lemma_digits_value_bound(u);
        let a = digits_value(u);
        let d = t.last() - 48;
        assert(is_digit(t[t.len() - 1]));
        assert(0 <= d < 10);
        assert((a * 10 + d) / 10 == a && (a * 10 + d) % 10 == d) by (nonlinear_arith)
            requires
                0 <= d < 10,
                0 <= a,
        ;
        assert(digits_of(digits_value(t), t.len()) =~= t);
    }
}

proof fn lemma_field_round_trip(s: Seq<u8>, lo: int, hi: int)
    requires
        0 <= lo <= hi <= s.len(),
        hi - lo <= 4,
        all_digits(s, lo, hi),
    ensures
        digits_of(field_value(s, lo, hi) as u32 as int, (hi - lo) as nat) == s.subrange(lo, hi),
{
    let t = s.subrange(lo, hi);
    assert forall|i: int| 0 <= i < t.len() implies #[trigger] is_digit(t[i]) by {
        assert(t[i] == s[lo + i]);
    }
    lemma_digits_value_bound(t);
    reveal_with_fuel(pow10, 5);
    lemma_digits_round_trip(t);
}

/// A timestamp text is recovered exactly by writing back the components that
/// were read from it: the components reconstruct the text.
pub proof fn lemma_date_text_round_trip(s: Seq<u8>)
    requires
        is_date_shape(s),
    ensures
        format_parts(parts_of(s)) == s,
{
    lemma_field_round_trip(s, 0, 4);
    lemma_field_round_trip(s, 5, 7);
    lemma_field_round_trip(s, 8, 10);
    lemma_field_round_trip(s, 11, 13);
    lemma_field_round_trip(s, 14, 16);
    lemma_field_round_trip(s, 17, 19);
    lemma_field_round_trip(s, 20, 23);
    let f = format_parts(parts_of(s));
    assert(f.len() == 23);
    assert forall|i: int| 0 <= i < 23 implies f[i] == s[i] by {
        if i < 4 {
            assert(s.subrange(0, 4)[i] == s[i]);
        } else if i < 7 && i > 4 {
            assert(s.subrange(5, 7)[i - 5] == s[i]);
        } else if i < 10 && i > 7 {
            assert(s.subrange(8, 10)[i - 8] == s[i]);
        } else if i < 13 && i > 10 {
            assert(s.subrange(11, 13)[i - 11] == s[i]);
        } else if i < 16 && i > 13 {
            assert(s.subrange(14, 16)[i - 14] == s[i]);
        } else if i < 19 && i > 16 {
            assert(s.subrange(17, 19)[i - 17] == s[i]);
        } else if i > 19 {
            assert(s.subrange(20, 23)[i - 20] == s[i]);
        }
    }
    assert(f =~= s);
}

/// Reading a timestamp text twice gives the same value: what it denotes is a
/// function of the text alone.
pub proof fn lemma_date_value_deterministic(s: Seq<u8>, t: Seq<u8>)
    requires
        s == t,
    ensures
        date_value(s) == date_value(t),
{
}

} // verus!
