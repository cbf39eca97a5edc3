//! The textual forms of dates, times and UTC offsets. Values of these kinds
//! keep their text as written, so no precision is added or lost; these
//! functions decide which texts are well formed.
use vstd::prelude::*;

verus! {

/// Whether `s` holds digits from `a` up to, not including, `b`.
pub open spec fn digits_in(s: Seq<char>, a: int, b: int) -> bool {
    0 <= a <= b <= s.len() && forall|j: int| a <= j < b ==> '0' <= #[trigger] s[j] && s[j] <= '9'
}

/// Whether `s` holds `c` at `i`.
pub open spec fn char_at(s: Seq<char>, i: int, c: char) -> bool {
    0 <= i < s.len() && s[i] == c
}

/// Whether `s` holds a sign at `i`.
pub open spec fn sign_at(s: Seq<char>, i: int) -> bool {
    char_at(s, i, '+') || char_at(s, i, '-')
}

/// Whether `s` from `i` to its end is a zone: `Z`, or a sign and the hour,
/// with or without the minute.
pub open spec fn zone_from(s: Seq<char>, i: int) -> bool {
    (s.len() == i + 1 && char_at(s, i, 'Z')) || (sign_at(s, i) && (s.len() == i + 3 || s.len()
        == i + 5) && digits_in(s, i + 1, s.len() as int))
}

/// Whether `s` from `a` to `b` is a time without its zone: the hour, minute
/// and second, each part left out from the end or, with hyphens, from the
/// start.
pub open spec fn time_body(s: Seq<char>, a: int, b: int) -> bool {
    ((b - a == 2 || b - a == 4 || b - a == 6) && digits_in(s, a, b)) || ((b - a == 3 || b - a
        == 5) && char_at(s, a, '-') && digits_in(s, a + 1, b)) || (b - a == 4 && char_at(s, a, '-')
        && char_at(s, a + 1, '-') && digits_in(s, a + 2, b))
}

/// Whether `s` from `a` to its end is a time whose body ends at `b`.
pub open spec fn time_split(s: Seq<char>, a: int, b: int) -> bool {
    b <= s.len() && time_body(s, a, b) && (b == s.len() || zone_from(s, b))
}

/// Whether `s` from `a` to its end is a time, with or without a zone.
pub open spec fn time_from(s: Seq<char>, a: int) -> bool {
    time_split(s, a, a + 2) || time_split(s, a, a + 3) || time_split(s, a, a + 4) || time_split(
        s,
        a,
        a + 5,
    ) || time_split(s, a, a + 6)
}

/// Whether `s` from `a` to its end is a time that starts with the hour.
pub open spec fn full_time_from(s: Seq<char>, a: int) -> bool {
    exists|k: int|
        (k == 2 || k == 4 || k == 6) && #[trigger] digits_in(s, a, a + k) && (a + k == s.len()
            || zone_from(s, a + k))
}

/// Whether `s` is a date: `YYYYMMDD`, `YYYY`, `YYYY-MM`, `--MM`, `--MMDD`
/// or `---DD`.
pub open spec fn is_date(s: Seq<char>) -> bool {
    (s.len() == 8 && digits_in(s, 0, 8)) || (s.len() == 4 && digits_in(s, 0, 4)) || (s.len() == 7
        && digits_in(s, 0, 4) && char_at(s, 4, '-') && digits_in(s, 5, 7)) || ((s.len() == 4
        || s.len() == 6) && char_at(s, 0, '-') && char_at(s, 1, '-') && digits_in(
        s,
        2,
        s.len() as int,
    )) || (s.len() == 5 && char_at(s, 0, '-') && char_at(s, 1, '-') && char_at(s, 2, '-')
        && digits_in(s, 3, 5))
}

/// Whether `s` up to `t` is a date that keeps its day: `YYYYMMDD`, `--MMDD`
/// or `---DD`.
pub open spec fn day_date_to(s: Seq<char>, t: int) -> bool {
    (t == 8 && digits_in(s, 0, 8)) || (t == 6 && char_at(s, 0, '-') && char_at(s, 1, '-')
        && digits_in(s, 2, 6)) || (t == 5 && char_at(s, 0, '-') && char_at(s, 1, '-') && char_at(
        s,
        2,
        '-',
    ) && digits_in(s, 3, 5))
}

/// Whether `s` is a date, a `T` at `t`, and a time that starts with the hour.
pub open spec fn date_time_at(s: Seq<char>, t: int) -> bool {
    day_date_to(s, t) && char_at(s, t, 'T') && full_time_from(s, t + 1)
}

/// Whether `s` is a date and time.
pub open spec fn is_date_time(s: Seq<char>) -> bool {
    date_time_at(s, 8) || date_time_at(s, 6) || date_time_at(s, 5)
}

/// Whether `s` is a date and time, a date, or a `T` and a time.
pub open spec fn is_date_and_or_time(s: Seq<char>) -> bool {
    is_date_time(s) || is_date(s) || (char_at(s, 0, 'T') && time_from(s, 1))
}

/// Whether `s` is a timestamp: `YYYYMMDDThhmmss` and an optional zone.
pub open spec fn is_timestamp(s: Seq<char>) -> bool {
    digits_in(s, 0, 8) && char_at(s, 8, 'T') && digits_in(s, 9, 15) && (s.len() == 15 || zone_from(
        s,
        15,
    ))
}

/// Whether `s` is a UTC offset: a sign and the hour, with or without the
/// minute.
pub open spec fn is_utc_offset(s: Seq<char>) -> bool {
    zone_from(s, 0) && !char_at(s, 0, 'Z')
}

/// Whether `s` holds digits from `a` to `b` (see [`digits_in`]).
fn digits_at(s: &Vec<char>, a: usize, b: usize) -> (r: bool)
    ensures
        r == digits_in(s@, a as int, b as int),
{
    if a > b || b > s.len() {
        return false;
    }
    let mut i: usize = a;
    while i < b
        invariant
            a <= i <= b,
            b <= s@.len(),
            forall|j: int| a <= j < i ==> '0' <= #[trigger] s@[j] && s@[j] <= '9',
        decreases b - i,
    {
        if !('0' <= s[i] && s[i] <= '9') {
            return false;
        }
        i += 1;
    }
    true
}

/// Whether `s` holds `c` at `i` (see [`char_at`]).
fn char_is(s: &Vec<char>, i: usize, c: char) -> (r: bool)
    ensures
        r == char_at(s@, i as int, c),
{
    i < s.len() && s[i] == c
}

/// Whether `s` from `i` is a zone (see [`zone_from`]).
fn zone_at(s: &Vec<char>, i: usize) -> (r: bool)
    requires
        i <= s@.len(),
    ensures
        r == zone_from(s@, i as int),
{
    let n = s.len();
    (n - i == 1 && char_is(s, i, 'Z')) || ((char_is(s, i, '+') || char_is(s, i, '-')) && (n - i
        == 3 || n - i == 5) && digits_at(s, i + 1, n))
}

/// Whether `s` from `a` to its end is a time whose body ends at `b` (see
/// [`time_split`]).
fn time_split_at(s: &Vec<char>, a: usize, b: usize) -> (r: bool)
    requires
        a <= b,
        b <= a + 6,
        a <= s@.len(),
    ensures
        r == time_split(s@, a as int, b as int),
{
    if b > s.len() {
        return false;
    }
    let k = b - a;
    let body = ((k == 2 || k == 4 || k == 6) && digits_at(s, a, b)) || ((k == 3 || k == 5)
        && char_is(s, a, '-') && digits_at(s, a + 1, b)) || (k == 4 && char_is(s, a, '-')
        && char_is(s, a + 1, '-') && digits_at(s, a + 2, b));
    body && (b == s.len() || zone_at(s, b))
}

/// Whether `s` from `a` is a time (see [`time_from`]).
fn time_at(s: &Vec<char>, a: usize) -> (r: bool)
    requires
        a <= s@.len(),
        a <= 16,
    ensures
        r == time_from(s@, a as int),
{
    time_split_at(s, a, a + 2) || time_split_at(s, a, a + 3) || time_split_at(s, a, a + 4)
        || time_split_at(s, a, a + 5) || time_split_at(s, a, a + 6)
}

/// Whether `s` from `a` is a time that starts with the hour (see
/// [`full_time_from`]).
fn full_time_at(s: &Vec<char>, a: usize) -> (r: bool)
    requires
        a <= s@.len(),
        a <= 16,
    ensures
        r == full_time_from(s@, a as int),
{
    let n = s.len();
    let r2 = digits_at(s, a, a + 2) && (a + 2 == n || zone_at(s, a + 2));
    let r4 = digits_at(s, a, a + 4) && (a + 4 == n || zone_at(s, a + 4));
    let r6 = digits_at(s, a, a + 6) && (a + 6 == n || zone_at(s, a + 6));
    assert(r2 ==> full_time_from(s@, a as int));
    assert(r4 ==> full_time_from(s@, a as int));
    assert(r6 ==> full_time_from(s@, a as int));
    r2 || r4 || r6
}

/// Whether `s` is a date (see [`is_date`]).
pub fn date_text(s: &Vec<char>) -> (r: bool)
    ensures
        r == is_date(s@),
{
    let n = s.len();
    (n == 8 && digits_at(s, 0, 8)) || (n == 4 && digits_at(s, 0, 4)) || (n == 7 && digits_at(
        s,
        0,
        4,
    ) && char_is(s, 4, '-') && digits_at(s, 5, 7)) || ((n == 4 || n == 6) && char_is(s, 0, '-')
        && char_is(s, 1, '-') && digits_at(s, 2, n)) || (n == 5 && char_is(s, 0, '-') && char_is(
        s,
        1,
        '-',
    ) && char_is(s, 2, '-') && digits_at(s, 3, 5))
}

/// Whether `s` up to `t` is a date that keeps its day (see [`day_date_to`]).
fn day_date_at(s: &Vec<char>, t: usize) -> (r: bool)
    ensures
        r == day_date_to(s@, t as int),
{
    (t == 8 && digits_at(s, 0, 8)) || (t == 6 && char_is(s, 0, '-') && char_is(s, 1, '-')
        && digits_at(s, 2, 6)) || (t == 5 && char_is(s, 0, '-') && char_is(s, 1, '-') && char_is(
        s,
        2,
        '-',
    ) && digits_at(s, 3, 5))
}

/// Whether `s` is a date, a `T` at `t` and a time (see [`date_time_at`]).
fn date_time_split(s: &Vec<char>, t: usize) -> (r: bool)
    requires
        t <= 8,
    ensures
        r == date_time_at(s@, t as int),
{
    day_date_at(s, t) && char_is(s, t, 'T') && full_time_at(s, t + 1)
}

/// Whether `s` is a date and time (see [`is_date_time`]).
pub fn date_time_text(s: &Vec<char>) -> (r: bool)
    ensures
        r == is_date_time(s@),
{
    date_time_split(s, 8) || date_time_split(s, 6) || date_time_split(s, 5)
}

/// Whether `s` is a date and time, a date, or a time (see
/// [`is_date_and_or_time`]).
pub fn date_and_or_time_text(s: &Vec<char>) -> (r: bool)
    ensures
        r == is_date_and_or_time(s@),
{
    date_time_text(s) || date_text(s) || (char_is(s, 0, 'T') && time_at(s, 1))
}

/// Whether `s` is a time (see [`time_from`]).
pub fn time_text(s: &Vec<char>) -> (r: bool)
    ensures
        r == time_from(s@, 0),
{
    time_at(s, 0)
}

/// Whether `s` is a timestamp (see [`is_timestamp`]).
pub fn timestamp_text(s: &Vec<char>) -> (r: bool)
    ensures
        r == is_timestamp(s@),
{
    digits_at(s, 0, 8) && char_is(s, 8, 'T') && digits_at(s, 9, 15) && (s.len() == 15 || zone_at(
        s,
        15,
    ))
}

/// Whether `s` is a UTC offset (see [`is_utc_offset`]).
pub fn utc_offset_text(s: &Vec<char>) -> (r: bool)
    ensures
        r == is_utc_offset(s@),
{
    zone_at(s, 0) && !char_is(s, 0, 'Z')
}

} // verus!
