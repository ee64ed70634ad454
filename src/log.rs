//! The append-only sample log: one line `YYYY-MM-DD HH:MM:SS;<watts>` per
//! sample, in UTC, replayed at startup.

use vstd::prelude::*;
use crate::data::{DataPoint, DATA_RETENTION_PERIOD_MS};

verus! {

/// The last millisecond of the year 9999, UTC: every timestamp from the
/// epoch up to it has a date that chrono can write.
pub const LAST_MILLI_OF_YEAR_9999: i64 = 253_402_300_799_999;

/// The date format of the log.
pub const PERSIST_DATE_FORMAT: &'static str = "%Y-%m-%d %H:%M:%S";

/// The text, in the log's date format, of the UTC date and time of a
/// millisecond timestamp.
pub uninterp spec fn log_date_text(ms: int) -> Seq<u8>;

/// The millisecond timestamp that a text in the log's date format gives,
/// read as UTC.
pub uninterp spec fn log_date_millis(text: Seq<u8>) -> Option<int>;

/// Relies on chrono's `DateTime::<Utc>::from_timestamp_millis` and `format`
/// with the log's date format: the text of the UTC date and time of `ms`, or
/// none where `ms` lies outside chrono's range, which holds the epoch
/// through the year 9999.
#[verifier::external_body]
fn format_log_date(ms: i64) -> (r: Option<Vec<u8>>)
    ensures
        r matches Some(t) ==> t@ == log_date_text(ms as int),
        0 <= ms <= LAST_MILLI_OF_YEAR_9999 ==> r is Some,
{
    match chrono::DateTime::<chrono::Utc>::from_timestamp_millis(ms) {
        Some(d) => Some(d.format(PERSIST_DATE_FORMAT).to_string().into_bytes()),
        None => None,
    }
}

/// Relies on `std::str::from_utf8` and chrono's `NaiveDateTime::parse_from_str`
/// with the log's date format, read as UTC: the timestamp that `text` gives,
/// or none where it is not UTF-8 or does not match the format.
#[verifier::external_body]
fn parse_log_date(text: &[u8]) -> (r: Option<i64>)
    ensures
        match r {
            Some(ms) => log_date_millis(text@) == Some(ms as int),
            None => log_date_millis(text@) is None,
        },
{
    match std::str::from_utf8(text) {
        Ok(s) => match chrono::NaiveDateTime::parse_from_str(s, PERSIST_DATE_FORMAT) {
            Ok(d) => Some(d.and_utc().timestamp_millis()),
            Err(_) => None,
        },
        Err(_) => None,
    }
}

/// The decimal digits of `n`, most significant first, in ASCII.
pub open spec fn decimal_digits(n: nat) -> Seq<u8>
    decreases n,
{
    if n < 10 {
        seq![(48 + n) as u8]
    } else {
        decimal_digits(n / 10).push((48 + n % 10) as u8)
    }
}

/// The decimal text of `v`, with a `-` when it is negative.
pub open spec fn decimal_text(v: int) -> Seq<u8> {
    if v < 0 {
        seq![45u8] + decimal_digits((-v) as nat)
    } else {
        decimal_digits(v as nat)
    }
}

/// The log line of a sample: its date, `;`, its watts in decimal, a newline.
pub open spec fn log_line_bytes(p: DataPoint) -> Seq<u8> {
    log_date_text(p.date as int) + seq![59u8] + decimal_text(p.value as int) + seq![10u8]
}

fn push_decimal(out: &mut Vec<u8>, n: u64)
    ensures
        final(out)@ == old(out)@ + decimal_digits(n as nat),
    decreases n,
{
    if n >= 10 {
        push_decimal(out, n / 10);
    }
    out.push((48 + n % 10) as u8);
    assert(final(out)@ =~= old(out)@ + decimal_digits(n as nat)) by {
        if n >= 10 {
            assert(decimal_digits(n as nat) == decimal_digits((n / 10) as nat).push((48 + n % 10) as u8));
        }
    };
}

/// The log line of a sample of `value` watts whose date reads `date`.
pub fn log_line_with_date(date: Vec<u8>, value: i32) -> (r: Vec<u8>)
    ensures
        r@ == date@ + seq![59u8] + decimal_text(value as int) + seq![10u8],
{
    let mut line = date;
    line.push(59u8);
    if value < 0 {
        line.push(45u8);
        push_decimal(&mut line, (0 - value as i64) as u64);
    } else {
        push_decimal(&mut line, value as u64);
    }
    line.push(10u8);
    assert(line@ =~= date@ + seq![59u8] + decimal_text(value as int) + seq![10u8]);
    line
}

/// The log line of a sample, where chrono can write its date: always for a
/// date from the epoch through the year 9999.
pub fn format_log_line(p: DataPoint) -> (r: Option<Vec<u8>>)
    ensures
        r matches Some(l) ==> l@ == log_line_bytes(p),
        0 <= p.date <= LAST_MILLI_OF_YEAR_9999 ==> r is Some,
{
    match format_log_date(p.date) {
        Some(t) => Some(log_line_with_date(t, p.value)),
        None => None,
    }
}

pub open spec fn is_digit(b: u8) -> bool {
    48 <= b <= 57
}

/// The number that a run of decimal digits gives.
pub open spec fn digits_value(s: Seq<u8>) -> int
    decreases s.len(),
{
    if s.len() == 0 {
        0
    } else {
        digits_value(s.drop_last()) * 10 + (s.last() - 48)
    }
}

pub open spec fn all_digits(d: Seq<u8>) -> bool {
    forall|i: int| 0 <= i < d.len() ==> is_digit(#[trigger] d[i])
}

/// Length of the sign of a decimal text: 1 for a leading `+` or `-`, else 0.
pub open spec fn sign_len(s: Seq<u8>) -> int {
    if s.len() > 0 && (s[0] == 45u8 || s[0] == 43u8) {
        1
    } else {
        0
    }
}

/// An `i32` in decimal: an optional `+` or `-`, then one or more digits,
/// within range.
pub open spec fn parse_i32_text(s: Seq<u8>) -> Option<int> {
    let d = s.subrange(sign_len(s), s.len() as int);
    if d.len() == 0 || !all_digits(d) {
        None
    } else {
        let v = if s[0] == 45u8 {
            -digits_value(d)
        } else {
            digits_value(d)
        };
        if i32::MIN <= v <= i32::MAX {
            Some(v)
        } else {
            None
        }
    }
}

proof fn lemma_digits_grow(s: Seq<u8>, i: int)
    requires
        0 <= i <= s.len(),
        forall|k: int| 0 <= k < s.len() ==> is_digit(#[trigger] s[k]),
    ensures
        0 <= digits_value(s.subrange(0, i)) <= digits_value(s),
    decreases s.len() - i,
{
    if i < s.len() {
        lemma_digits_grow(s, i + 1);
        assert(s.subrange(0, i + 1).drop_last() =~= s.subrange(0, i));
        lemma_digits_nonneg(s.subrange(0, i));
    } else {
        assert(s.subrange(0, i) =~= s);
        lemma_digits_nonneg(s);
    }
}

proof fn lemma_digits_nonneg(s: Seq<u8>)
    requires
        forall|k: int| 0 <= k < s.len() ==> is_digit(#[trigger] s[k]),
    ensures
        digits_value(s) >= 0,
    decreases s.len(),
{
    if s.len() > 0 {
        lemma_digits_nonneg(s.drop_last());
    }
}

/// Reads `d` as an `i32` in decimal, as `parse_i32_text` describes.
pub fn parse_i32(s: &[u8]) -> (r: Option<i32>)
    ensures
        match r {
            Some(v) => parse_i32_text(s@) == Some(v as int),
            None => parse_i32_text(s@) is None,
        },
{
    let neg = s.len() > 0 && s[0] == 45u8;
    let start: usize = if s.len() > 0 && (s[0] == 45u8 || s[0] == 43u8) {
        1
    } else {
        0
    };
    let ghost d = s@.subrange(sign_len(s@), s@.len() as int);
    assert(start == sign_len(s@));
    if start >= s.len() {
        return None;
    }
    let mut i: usize = start;
    while i < s.len()
        invariant
            start <= i <= s@.len(),
            d == s@.subrange(start as int, s@.len() as int),
            start == sign_len(s@),
            neg == (s@[0] == 45u8),
            forall|k: int| start <= k < i ==> is_digit(#[trigger] s@[k]),
        decreases s@.len() - i,
    {
        if !(48 <= s[i] && s[i] <= 57) {
            assert(!is_digit(d[i - start]));
            assert(!all_digits(d));
            return None;
        }
        i = i + 1;
    }
    assert forall|k: int| 0 <= k < d.len() implies is_digit(#[trigger] d[k]) by {
        assert(d[k] == s@[k + start]);
    }
    assert(all_digits(d));
    let mut acc: i64 = 0;
    let mut j: usize = start;
    while j < s.len()
        invariant
            start <= j <= s@.len(),
            d == s@.subrange(start as int, s@.len() as int),
            start == sign_len(s@),
            neg == (s@[0] == 45u8),
            forall|k: int| 0 <= k < d.len() ==> is_digit(#[trigger] d[k]),
            acc == digits_value(d.subrange(0, j - start)),
            0 <= acc <= 0x8000_0000,
        decreases s@.len() - j,
    {
        proof {
            assert(d.subrange(0, j - start + 1).drop_last() =~= d.subrange(0, j - start));
            assert(d[j - start] == s@[j as int]);
            assert(d.subrange(0, j - start + 1).last() == d[j - start]);
            assert(is_digit(d[j - start]));
        }
        acc = acc * 10 + (s[j] - 48) as i64;
        j = j + 1;
        assert(acc == digits_value(d.subrange(0, j - start)));
        if acc > 0x8000_0000 {
            proof {
                lemma_digits_grow(d, j - start);
                assert(digits_value(d) > 0x8000_0000);
            }
            return None;
        }
    }
    assert(d.subrange(0, j - start) =~= d);
    if neg {
        Some((0 - acc) as i32)
    } else if acc > 0x7fff_ffff {
        None
    } else {
        Some(acc as i32)
    }
}

/// The index of the first `b` in `s` at or after `from`, or `s.len()`.
pub open spec fn find_byte(s: Seq<u8>, from: int, b: u8) -> int
    decreases s.len() - from,
{
    if from >= s.len() {
        s.len() as int
    } else if s[from] == b {
        from
    } else {
        find_byte(s, from + 1, b)
    }
}

fn find_byte_exec(s: &[u8], from: usize, b: u8) -> (r: usize)
    requires
        from <= s@.len(),
    ensures
        r == find_byte(s@, from as int, b),
        from <= r <= s@.len(),
{
    let mut i: usize = from;
    while i < s.len() && s[i] != b
        invariant
            from <= i <= s@.len(),
            find_byte(s@, from as int, b) == find_byte(s@, i as int, b),
        decreases s@.len() - i,
    {
        i = i + 1;
    }
    i
}

fn copy_slice(s: &[u8], from: usize, to: usize) -> (r: Vec<u8>)
    requires
        from <= to <= s@.len(),
    ensures
        r@ == s@.subrange(from as int, to as int),
{
    let mut r: Vec<u8> = Vec::new();
    let mut i: usize = from;
    while i < to
        invariant
            from <= i <= to <= s@.len(),
            r@ == s@.subrange(from as int, i as int),
        decreases to - i,
    {
        r.push(s[i]);
        i = i + 1;
        assert(r@ =~= s@.subrange(from as int, i as int));
    }
    r
}

/// The sample of a log line whose date field gave `ms` and whose watts field
/// is `value`, at `now`: kept only when the date lies after `now` less the
/// retention period and before `now`, and the watts read as an `i32`.
pub open spec fn sample_of_fields(ms: int, value: Seq<u8>, now: int) -> Option<DataPoint> {
    match parse_i32_text(value) {
        None => None,
        Some(v) => if now - DATA_RETENTION_PERIOD_MS < ms < now {
            Some(DataPoint { date: ms as i64, value: v as i32 })
        } else {
            None
        },
    }
}

/// The sample that a log line (without its newline) gives at `now`: its
/// first `;`-separated field read as a date, its second as watts, as
/// `sample_of_fields` describes.
pub open spec fn log_line_sample(line: Seq<u8>, now: int) -> Option<DataPoint> {
    let k = find_byte(line, 0, 59u8);
    let e = find_byte(line, k + 1, 59u8);
    if k >= line.len() {
        None
    } else {
        match log_date_millis(line.subrange(0, k)) {
            None => None,
            Some(ms) => sample_of_fields(ms, line.subrange(k + 1, e), now),
        }
    }
}

/// The sample of a log line whose date field gave `ms`, as `sample_of_fields`
/// describes.
pub fn sample_from_fields(ms: i64, value: &[u8], now: i64) -> (r: Option<DataPoint>)
    ensures
        r == sample_of_fields(ms as int, value@, now as int),
{
    let v = match parse_i32(value) {
        Some(v) => v,
        None => return None,
    };
    if (now as i128 - DATA_RETENTION_PERIOD_MS as i128) < ms as i128 && ms < now {
        Some(DataPoint { date: ms, value: v })
    } else {
        None
    }
}

/// Reads one line of the log, as `log_line_sample` describes.
pub fn parse_log_line(line: &[u8], now: i64) -> (r: Option<DataPoint>)
    ensures
        r == log_line_sample(line@, now as int),
{
    let k = find_byte_exec(line, 0, 59u8);
    if k >= line.len() {
        return None;
    }
    let e = find_byte_exec(line, k + 1, 59u8);
    let date = copy_slice(line, 0, k);
    let value = copy_slice(line, k + 1, e);
    match parse_log_date(date.as_slice()) {
        Some(ms) => sample_from_fields(ms, value.as_slice(), now),
        None => None,
    }
}

} // verus!
