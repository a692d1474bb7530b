//! The order of day keys, and reading a date back.

use crate::calendar::{
    clock_of, date_of, day_key_of, day_number, days_before_month, days_before_year, days_in_month,
    is_date, lemma_date_of, lemma_dates_in_order, lemma_every_day_has_a_date, month_name, rfc1123,
    rfc1123_of, weekday_name,
};
use crate::text::{chars_of, decimal, digit, padded, same_text};
use crate::textmap::text_less;
use vstd::prelude::*;

verus! {

/// The two digits of a number under a hundred.
#[verifier::opaque]
pub open spec fn digits2(n: int) -> Seq<char> {
    seq![digit(n / 10), digit(n % 10)]
}

/// Two digits.
pub proof fn lemma_padded2(n: int)
    requires
        0 <= n < 100,
    ensures
        padded(n, 2) == digits2(n),
{
    reveal(digits2);
    reveal_with_fuel(decimal, 3);
    assert(padded(n, 2) =~= digits2(n));
}

/// Four digits.
pub proof fn lemma_padded4(n: int)
    requires
        0 <= n < 10_000,
    ensures
        padded(n, 4) == digits2(n / 100) + digits2(n % 100),
{
    reveal(digits2);
    reveal_with_fuel(decimal, 5);
    let h = n / 100;
    let l = n % 100;
    assert(n / 10 / 10 == h);
    assert(n / 10 % 10 == l / 10);
    assert(n % 10 == l % 10);
    assert(padded(n, 4) =~= digits2(h) + digits2(l));
}

/// The year a moment lies in.
pub open spec fn year_of(secs: int) -> int {
    date_of(secs / 86_400).0
}

/// What two texts of the same start come down to.
proof fn lemma_less_after(start: Seq<char>, a: Seq<char>, b: Seq<char>)
    ensures
        text_less(start + a, start + b) == text_less(a, b),
    decreases start.len(),
{
    if start.len() == 0 {
        assert(start + a =~= a);
        assert(start + b =~= b);
    } else {
        lemma_less_after(start.drop_first(), a, b);
        assert((start + a).drop_first() =~= start.drop_first() + a);
        assert((start + b).drop_first() =~= start.drop_first() + b);
    }
}

/// Two digits that come first decide, where they differ.
proof fn lemma_less2(a: int, b: int, x: Seq<char>, y: Seq<char>)
    requires
        0 <= a < b < 100,
    ensures
        text_less(digits2(a) + x, digits2(b) + y),
{
    reveal(digits2);
    let p = digits2(a) + x;
    let q = digits2(b) + y;
    assert(p[0] == digit(a / 10) && q[0] == digit(b / 10));
    if a / 10 == b / 10 {
        assert(p.drop_first()[0] == digit(a % 10));
        assert(q.drop_first()[0] == digit(b % 10));
        assert(text_less(p.drop_first(), q.drop_first()));
    }
}

/// Two numbers are in order, or the same and what follows them is.
proof fn lemma_less_step(a: int, b: int, x: Seq<char>, y: Seq<char>)
    requires
        0 <= a < 100,
        0 <= b < 100,
        a < b || (a == b && text_less(x, y)),
    ensures
        text_less(digits2(a) + x, digits2(b) + y),
{
    if a < b {
        lemma_less2(a, b, x, y);
    } else {
        lemma_less_after(digits2(a), x, y);
    }
}

/// The keys of days are in the order of the days: of two moments in the years
/// from 0 to 9999, the one on the earlier day has the smaller key.
pub proof fn lemma_day_keys_in_order(a: int, b: int)
    requires
        0 <= year_of(a) <= 9999,
        0 <= year_of(b) <= 9999,
        a / 86_400 < b / 86_400,
    ensures
        text_less(day_key_of(a), day_key_of(b)),
{
    lemma_every_day_has_a_date(a / 86_400);
    lemma_every_day_has_a_date(b / 86_400);
    let (y1, m1, d1) = date_of(a / 86_400);
    let (y2, m2, d2) = date_of(b / 86_400);
    if y2 < y1 || (y1 == y2 && (m2 < m1 || (m1 == m2 && d2 < d1))) {
        lemma_dates_in_order(y2, m2, d2, y1, m1, d1);
    }
    lemma_key_parts(a);
    lemma_key_parts(b);
    let empty = Seq::<char>::empty();
    let day1 = digits2(d1) + empty;
    let day2 = digits2(d2) + empty;
    let month1 = digits2(m1) + day1;
    let month2 = digits2(m2) + day2;
    let low1 = digits2(y1 % 100) + month1;
    let low2 = digits2(y2 % 100) + month2;
    if d1 < d2 {
        lemma_less_step(d1, d2, empty, empty);
    }
    if m1 < m2 || (m1 == m2 && d1 < d2) {
        lemma_less_step(m1, m2, day1, day2);
    }
    if y1 % 100 < y2 % 100 || (y1 % 100 == y2 % 100 && (m1 < m2 || (m1 == m2 && d1 < d2))) {
        lemma_less_step(y1 % 100, y2 % 100, month1, month2);
    }
    lemma_less_step(y1 / 100, y2 / 100, low1, low2);
}

/// A day key, two digits at a time.
proof fn lemma_key_parts(secs: int)
    requires
        0 <= year_of(secs) <= 9999,
    ensures
        ({
            let (y, m, d) = date_of(secs / 86_400);
            day_key_of(secs) == digits2(y / 100) + (digits2(y % 100) + (digits2(m) + (digits2(d)
                + Seq::<char>::empty())))
        }),
{
    lemma_every_day_has_a_date(secs / 86_400);
    let (y, m, d) = date_of(secs / 86_400);
    lemma_padded4(y);
    lemma_padded2(m);
    lemma_padded2(d);
    assert(day_key_of(secs) =~= digits2(y / 100) + (digits2(y % 100) + (digits2(m) + (digits2(d)
        + Seq::<char>::empty()))));
}

// ---------------------------------------------------------------------------
// Reading a date back.
// ---------------------------------------------------------------------------

/// What a date in the `rfc1123` spelling says.
#[derive(Debug, Clone, Copy, PartialEq, Eq, Structural)]
pub struct Fields {
    pub year: i64,
    pub month: i64,
    pub day: i64,
    pub hour: i64,
    pub minute: i64,
    pub second: i64,
}

/// `text` has these fields in their places, each of them with its digits.
#[verifier::opaque]
pub open spec fn has_fields(text: Seq<char>, f: Fields) -> bool {
    &&& text.len() == 29
    &&& 0 <= f.year <= 9999
    &&& 1 <= f.month <= 12
    &&& 0 <= f.day < 100
    &&& 0 <= f.hour < 100
    &&& 0 <= f.minute < 100
    &&& 0 <= f.second < 100
    &&& text.subrange(5, 7) == digits2(f.day as int)
    &&& text.subrange(8, 11) == month_name(f.month as int)
    &&& text.subrange(12, 14) == digits2(f.year as int / 100)
    &&& text.subrange(14, 16) == digits2(f.year as int % 100)
    &&& text.subrange(17, 19) == digits2(f.hour as int)
    &&& text.subrange(20, 22) == digits2(f.minute as int)
    &&& text.subrange(23, 25) == digits2(f.second as int)
}

/// Two digits are those of one number.
proof fn lemma_digits2_injective(a: int, b: int)
    requires
        0 <= a < 100,
        0 <= b < 100,
        digits2(a) == digits2(b),
    ensures
        a == b,
{
    reveal(digits2);
    assert(digits2(a)[0] == digits2(b)[0]);
    assert(digits2(a)[1] == digits2(b)[1]);
    assert(a / 10 == b / 10);
    assert(a % 10 == b % 10);
}

/// The second letter of a month's name.
spec fn second_letter(month: int) -> char {
    if month == 1 || month == 3 || month == 5 {
        'a'
    } else if month == 2 || month == 9 || month == 12 {
        'e'
    } else if month == 4 {
        'p'
    } else if month == 6 || month == 7 || month == 8 {
        'u'
    } else if month == 10 {
        'c'
    } else {
        'o'
    }
}

/// The third letter of a month's name.
spec fn third_letter(month: int) -> char {
    if month == 1 || month == 6 {
        'n'
    } else if month == 2 {
        'b'
    } else if month == 3 || month == 4 {
        'r'
    } else if month == 5 {
        'y'
    } else if month == 7 {
        'l'
    } else if month == 8 {
        'g'
    } else if month == 9 {
        'p'
    } else if month == 10 {
        't'
    } else if month == 11 {
        'v'
    } else {
        'c'
    }
}

proof fn lemma_month_letters(month: int)
    requires
        1 <= month <= 12,
    ensures
        month_name(month).len() == 3,
        month_name(month)[1] == second_letter(month),
        month_name(month)[2] == third_letter(month),
{
    reveal_strlit("Jan");
    reveal_strlit("Feb");
    reveal_strlit("Mar");
    reveal_strlit("Apr");
    reveal_strlit("May");
    reveal_strlit("Jun");
    reveal_strlit("Jul");
    reveal_strlit("Aug");
    reveal_strlit("Sep");
    reveal_strlit("Oct");
    reveal_strlit("Nov");
    reveal_strlit("Dec");
}

/// Two months of one name are one month.
proof fn lemma_month_name(a: int, b: int)
    requires
        1 <= a <= 12,
        1 <= b <= 12,
        month_name(a) == month_name(b),
    ensures
        a == b,
{
    lemma_month_letters(a);
    lemma_month_letters(b);
}

/// A text has its fields in one way only.
proof fn lemma_fields_unique(text: Seq<char>, f: Fields, g: Fields)
    requires
        has_fields(text, f),
        has_fields(text, g),
    ensures
        f == g,
{
    reveal(has_fields);
    lemma_digits2_injective(f.day as int, g.day as int);
    lemma_digits2_injective(f.year as int / 100, g.year as int / 100);
    lemma_digits2_injective(f.year as int % 100, g.year as int % 100);
    lemma_digits2_injective(f.hour as int, g.hour as int);
    lemma_digits2_injective(f.minute as int, g.minute as int);
    lemma_digits2_injective(f.second as int, g.second as int);
    lemma_month_name(f.month as int, g.month as int);
}

/// The fields of a moment.
pub open spec fn fields_of(secs: int) -> Fields {
    let date = date_of(secs / 86_400);
    Fields {
        year: date.0 as i64,
        month: date.1 as i64,
        day: date.2 as i64,
        hour: (secs % 86_400 / 3600) as i64,
        minute: (secs % 3600 / 60) as i64,
        second: (secs % 60) as i64,
    }
}

proof fn lemma_weekday_len(weekday: int)
    ensures
        weekday_name(weekday).len() == 3,
{
    reveal_strlit("Sun");
    reveal_strlit("Mon");
    reveal_strlit("Tue");
    reveal_strlit("Wed");
    reveal_strlit("Thu");
    reveal_strlit("Fri");
    reveal_strlit("Sat");
}

proof fn lemma_digits2_len(n: int)
    ensures
        digits2(n).len() == 2,
{
    reveal(digits2);
}

/// Where the parts of a text of this shape stand.
proof fn lemma_parts(
    w: Seq<char>,
    c: Seq<char>,
    d: Seq<char>,
    s1: Seq<char>,
    m: Seq<char>,
    yh: Seq<char>,
    yl: Seq<char>,
    clock: Seq<char>,
    end: Seq<char>,
)
    requires
        w.len() == 3,
        c.len() == 2,
        d.len() == 2,
        s1.len() == 1,
        m.len() == 3,
        yh.len() == 2,
        yl.len() == 2,
        clock.len() == 8,
        end.len() == 4,
    ensures
        ({
            let text = w + c + d + s1 + m + s1 + (yh + yl) + s1 + clock + end;
            &&& text.len() == 29
            &&& text.subrange(5, 7) == d
            &&& text.subrange(8, 11) == m
            &&& text.subrange(12, 14) == yh
            &&& text.subrange(14, 16) == yl
            &&& text.subrange(17, 25) == clock
        }),
{
    let text = w + c + d + s1 + m + s1 + (yh + yl) + s1 + clock + end;
    assert(text.subrange(5, 7) =~= d);
    assert(text.subrange(8, 11) =~= m);
    assert(text.subrange(12, 14) =~= yh);
    assert(text.subrange(14, 16) =~= yl);
    assert(text.subrange(17, 25) =~= clock);
}

/// The spelling of a moment has that moment's fields.
proof fn lemma_spelled_fields(secs: int)
    requires
        0 <= year_of(secs) <= 9999,
    ensures
        has_fields(rfc1123_of(secs), fields_of(secs)),
{
    reveal(has_fields);
    let f = fields_of(secs);
    let date = date_of(secs / 86_400);
    lemma_every_day_has_a_date(secs / 86_400);
    lemma_padded4(date.0);
    lemma_padded2(date.2);
    lemma_padded2(secs % 86_400 / 3600);
    lemma_padded2(secs % 3600 / 60);
    lemma_padded2(secs % 60);
    lemma_weekday_len((secs / 86_400 + 4) % 7);
    lemma_month_letters(date.1);
    lemma_digits2_len(date.2);
    lemma_digits2_len(date.0 / 100);
    lemma_digits2_len(date.0 % 100);
    lemma_digits2_len(secs % 86_400 / 3600);
    lemma_digits2_len(secs % 3600 / 60);
    lemma_digits2_len(secs % 60);
    reveal_strlit(", ");
    reveal_strlit(" ");
    reveal_strlit(":");
    reveal_strlit(" GMT");
    let clock = clock_of(secs);
    lemma_parts(
        weekday_name((secs / 86_400 + 4) % 7),
        ", "@,
        digits2(date.2),
        " "@,
        month_name(date.1),
        digits2(date.0 / 100),
        digits2(date.0 % 100),
        clock,
        " GMT"@,
    );
    let text = rfc1123_of(secs);
    assert(clock.subrange(0, 2) =~= digits2(secs % 86_400 / 3600));
    assert(clock.subrange(3, 5) =~= digits2(secs % 3600 / 60));
    assert(clock.subrange(6, 8) =~= digits2(secs % 60));
    assert(text.subrange(17, 19) =~= text.subrange(17, 25).subrange(0, 2));
    assert(text.subrange(20, 22) =~= text.subrange(17, 25).subrange(3, 5));
    assert(text.subrange(23, 25) =~= text.subrange(17, 25).subrange(6, 8));
}

fn digit_value(c: char) -> (value: Option<i64>)
    ensures
        match value {
            Some(v) => 0 <= v < 10 && digit(v as int) == c,
            None => forall|v: int| 0 <= v < 10 ==> #[trigger] digit(v) != c,
        },
{
    if '0' <= c && c <= '9' {
        Some((c as u32 - 48) as i64)
    } else {
        None
    }
}

/// The number that two digits spell.
fn two_digits(chars: &Vec<char>, at: usize) -> (value: Option<i64>)
    requires
        at + 2 <= chars@.len(),
    ensures
        match value {
            Some(v) => 0 <= v < 100 && chars@.subrange(at as int, at + 2) == digits2(v as int),
            None => forall|v: int|
                0 <= v < 100 ==> chars@.subrange(at as int, at + 2) != #[trigger] digits2(v),
        },
{
    reveal(digits2);
    let ghost part = chars@.subrange(at as int, at + 2);
    assert(part[0] == chars@[at as int]);
    assert(part[1] == chars@[at + 1]);
    let count: usize = chars.len();
    assert(at + 1 < count);
    match (digit_value(chars[at]), digit_value(chars[at + 1])) {
        (Some(h), Some(l)) => {
            let v: i64 = h * 10 + l;
            assert(v / 10 == h && v % 10 == l);
            assert(part =~= digits2(v as int));
            Some(v)
        },
        _ => {
            assert forall|v: int| 0 <= v < 100 implies part != #[trigger] digits2(v) by {
                if part == digits2(v) {
                    assert(digits2(v)[0] == digit(v / 10));
                    assert(digits2(v)[1] == digit(v % 10));
                }
            }
            None
        },
    }
}

/// The month of a name.
fn month_named(chars: &Vec<char>) -> (month: Option<i64>)
    requires
        chars@.len() == 29,
    ensures
        match month {
            Some(m) => 1 <= m <= 12 && chars@.subrange(8, 11) == month_name(m as int),
            None => forall|m: int|
                1 <= m <= 12 ==> chars@.subrange(8, 11) != #[trigger] month_name(m),
        },
{
    let part = vstd::slice::slice_subrange(chars.as_slice(), 8, 11);
    let text = crate::text::text_of(part);
    assert(text@ == chars@.subrange(8, 11));
    let mut m: u32 = 1;
    while m <= 12
        invariant
            1 <= m <= 13,
            text@ == chars@.subrange(8, 11),
            forall|k: int| 1 <= k < m ==> text@ != #[trigger] month_name(k),
        decreases 13 - m,
    {
        if same_text(text.as_str(), month_text(m)) {
            return Some(m as i64);
        }
        m += 1;
    }
    None
}

fn month_text(month: u32) -> (text: &'static str)
    requires
        1 <= month <= 12,
    ensures
        text@ == month_name(month as int),
{
    if month == 1 {
        "Jan"
    } else if month == 2 {
        "Feb"
    } else if month == 3 {
        "Mar"
    } else if month == 4 {
        "Apr"
    } else if month == 5 {
        "May"
    } else if month == 6 {
        "Jun"
    } else if month == 7 {
        "Jul"
    } else if month == 8 {
        "Aug"
    } else if month == 9 {
        "Sep"
    } else if month == 10 {
        "Oct"
    } else if month == 11 {
        "Nov"
    } else {
        "Dec"
    }
}

/// The fields of a text, where it has them.
fn read_fields(chars: &Vec<char>) -> (fields: Option<Fields>)
    ensures
        match fields {
            Some(f) => has_fields(chars@, f),
            None => forall|f: Fields| !#[trigger] has_fields(chars@, f),
        },
{
    reveal(has_fields);
    if chars.len() != 29 {
        return None;
    }
    let month = month_named(chars);
    let day = two_digits(chars, 5);
    let century = two_digits(chars, 12);
    let years = two_digits(chars, 14);
    let hour = two_digits(chars, 17);
    let minute = two_digits(chars, 20);
    let second = two_digits(chars, 23);
    match (month, day, century, years, hour, minute, second) {
        (
            Some(month),
            Some(day),
            Some(century),
            Some(years),
            Some(hour),
            Some(minute),
            Some(second),
        ) => {
            let year: i64 = century * 100 + years;
            assert(year as int / 100 == century);
            assert(year as int % 100 == years);
            Some(Fields { year, month, day, hour, minute, second })
        },
        _ => None,
    }
}

/// How many days a month has.
fn month_days(year: i64, month: i64) -> (days: i64)
    requires
        0 <= year <= 9999,
        1 <= month <= 12,
    ensures
        days == days_in_month(year as int, month as int),
        28 <= days <= 31,
{
    let leap: bool = year % 4 == 0 && (year % 100 != 0 || year % 400 == 0);
    if month == 2 {
        if leap {
            29
        } else {
            28
        }
    } else if month == 4 || month == 6 || month == 9 || month == 11 {
        30
    } else {
        31
    }
}

/// How many days a date comes after 1 January 1970.
fn days_of(year: i64, month: i64, day: i64) -> (days: i64)
    requires
        1 <= year <= 9999,
        1 <= month <= 12,
        1 <= day <= 31,
    ensures
        days == day_number(year as int, month as int, day as int),
        -1_000_000 <= days <= 10_000_000,
{
    let before: i64 = year - 1;
    let mut sum: i64 = 365 * before + before / 4 - before / 100 + before / 400;
    assert(sum == days_before_year(year as int));
    let ghost start = sum as int;
    let mut m: i64 = 1;
    while m < month
        invariant
            1 <= m <= month <= 12,
            1 <= year <= 9999,
            sum == start + days_before_month(year as int, m as int),
            0 <= start <= 4_000_000,
            0 <= days_before_month(year as int, m as int) <= 31 * m,
        decreases month - m,
    {
        sum = sum + month_days(year, m);
        m += 1;
    }
    sum + day - 1 - 719_162
}

/// A moment is the one that its fields name.
#[verifier::opaque]
spec fn is_field_moment(f: Fields, t: int) -> bool {
    &&& f.year >= 1
    &&& is_date(f.year as int, f.month as int, f.day as int)
    &&& 0 <= f.hour <= 23
    &&& 0 <= f.minute <= 59
    &&& 0 <= f.second <= 59
    &&& t == day_number(f.year as int, f.month as int, f.day as int) * 86_400 + f.hour * 3600
        + f.minute * 60 + f.second
}

/// A moment is named by its own fields.
proof fn lemma_field_moment(t: int)
    requires
        1 <= year_of(t) <= 9999,
    ensures
        is_field_moment(fields_of(t), t),
{
    let date = date_of(t / 86_400);
    let f = fields_of(t);
    lemma_every_day_has_a_date(t / 86_400);
    lemma_clock(t);
    assert(1 <= date.1 <= 12 && 1 <= date.2 <= 31);
    assert(f.year as int == date.0 && f.month as int == date.1 && f.day as int == date.2);
    assert(f.hour as int == t % 86_400 / 3600);
    assert(f.minute as int == t % 3600 / 60);
    assert(f.second as int == t % 60);
    reveal(is_field_moment);
}

/// A moment is its day, and its time of day.
proof fn lemma_clock(t: int)
    ensures
        t == t / 86_400 * 86_400 + (t % 86_400 / 3600) * 3600 + (t % 3600 / 60) * 60 + t % 60,
        0 <= t % 86_400 / 3600 <= 23,
        0 <= t % 3600 / 60 <= 59,
        0 <= t % 60 <= 59,
{
    lemma_hours(t);
    lemma_minutes(t % 3600, t);
}

/// A moment is its day, its hour, and what is left of the hour.
proof fn lemma_hours(t: int)
    ensures
        t == t / 86_400 * 86_400 + (t % 86_400 / 3600) * 3600 + t % 3600,
        0 <= t % 86_400 / 3600 <= 23,
{
    let d = t / 86_400;
    let h = t % 86_400 / 3600;
    let r = t % 86_400 % 3600;
    assert(t == (24 * d + h) * 3600 + r);
    vstd::arithmetic::div_mod::lemma_fundamental_div_mod_converse(t, 3600, 24 * d + h, r);
}

/// What is left of an hour is its minute and its second.
proof fn lemma_minutes(rest: int, t: int)
    requires
        rest == t % 3600,
    ensures
        rest == rest / 60 * 60 + t % 60,
        0 <= rest / 60 <= 59,
        0 <= t % 60 <= 59,
{
    let h = t / 3600;
    let m = rest / 60;
    let r = rest % 60;
    assert(t == (60 * h + m) * 60 + r);
    vstd::arithmetic::div_mod::lemma_fundamental_div_mod_converse(t, 60, 60 * h + m, r);
}

/// Fields name one moment.
proof fn lemma_one_moment(f: Fields, a: int, b: int)
    requires
        is_field_moment(f, a),
        is_field_moment(f, b),
    ensures
        a == b,
{
    reveal(is_field_moment);
}

/// No two moments of the years from 1 to 9999 are spelled the same.
pub proof fn lemma_date_reads_back(a: int, b: int)
    requires
        1 <= year_of(a) <= 9999,
        1 <= year_of(b) <= 9999,
        rfc1123_of(a) == rfc1123_of(b),
    ensures
        a == b,
{
    lemma_spelled_fields(a);
    lemma_spelled_fields(b);
    lemma_fields_unique(rfc1123_of(a), fields_of(a), fields_of(b));
    lemma_field_moment(a);
    lemma_field_moment(b);
    lemma_one_moment(fields_of(a), a, b);
}

/// What the fields of a date add up to lies in the year they name.
proof fn lemma_moment_year(f: Fields, days: int, secs: int)
    requires
        1 <= f.year <= 9999,
        is_date(f.year as int, f.month as int, f.day as int),
        days == day_number(f.year as int, f.month as int, f.day as int),
        days * 86_400 <= secs < days * 86_400 + 86_400,
    ensures
        1 <= year_of(secs) <= 9999,
{
    lemma_date_of(f.year as int, f.month as int, f.day as int);
    assert(secs / 86_400 == days);
}

/// `text` is the `rfc1123` spelling of a moment in the years from 1 to 9999.
pub open spec fn spells(text: Seq<char>, secs: int) -> bool {
    1 <= year_of(secs) <= 9999 && rfc1123_of(secs) == text
}

/// The moment that a text spells, where it spells one.
pub open spec fn spelled_moment(text: Seq<char>) -> Option<int> {
    if exists|secs: int| spells(text, secs) {
        Some(choose|secs: int| spells(text, secs))
    } else {
        None
    }
}

/// The moment that a date in the `rfc1123` spelling names, for the years from
/// 1 to 9999. Any other text is `None`.
pub fn parse_rfc1123(text: &str) -> (secs: Option<i64>)
    ensures
        match secs {
            Some(t) => spells(text@, t as int) && spelled_moment(text@) == Some(t as int),
            None => spelled_moment(text@) is None,
        },
{
    let chars = chars_of(text);
    let f = match read_fields(&chars) {
        Some(f) => f,
        None => {
            proof {
                assert forall|t: int| !#[trigger] spells(text@, t) by {
                    if spells(text@, t) {
                        lemma_spelled_fields(t);
                    }
                }
            }
            return None;
        },
    };
    proof {
        assert forall|t: int| #[trigger] spells(text@, t) implies is_field_moment(f, t) by {
            lemma_spelled_fields(t);
            lemma_fields_unique(text@, f, fields_of(t));
            lemma_field_moment(t);
        }
        reveal(is_field_moment);
        reveal(has_fields);
    }
    if f.year < 1 || f.day < 1 || f.hour > 23 || f.minute > 59 || f.second > 59 {
        return None;
    }
    if f.day > month_days(f.year, f.month) {
        return None;
    }
    let days = days_of(f.year, f.month, f.day);
    let secs: i64 = days * 86_400 + f.hour * 3600 + f.minute * 60 + f.second;
    let spelled = rfc1123(secs);
    if same_text(spelled.as_str(), text) {
        proof {
            lemma_moment_year(f, days as int, secs as int);
            assert(spells(text@, secs as int));
            let found = choose|t: int| spells(text@, t);
            lemma_date_reads_back(found, secs as int);
        }
        Some(secs)
    } else {
        None
    }
}

/// The name of a day has eight characters.
pub proof fn lemma_day_key_has_eight(secs: int)
    requires
        0 <= year_of(secs) <= 9999,
    ensures
        day_key_of(secs).len() == 8,
{
    let days = secs / 86_400;
    crate::calendar::lemma_every_day_has_a_date(days);
    let date = date_of(days);
    lemma_padded4(date.0);
    lemma_padded2(date.1);
    lemma_padded2(date.2);
    reveal(digits2);
    assert(padded(date.0, 4).len() == 4);
    assert(padded(date.1, 2).len() == 2);
    assert(padded(date.2, 2).len() == 2);
}

} // verus!
