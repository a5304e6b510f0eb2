//! RFC 3339 UTC timestamps such as `2026-01-01T00:00:00.000Z`.
use vstd::prelude::*;
use crate::civil::{
    civil_from_days, days_before_year, days_from_civil, lemma_date_within_year,
    lemma_days_before_year, lemma_days_before_year_increasing, lemma_days_from_civil_injective,
    lemma_every_day_has_a_date, lemma_days_from_civil_ordered, date_before,
    valid_date,
};
use crate::text::{lemma_text_less_concat, push_char, text_less};

verus! {

/// The ASCII digit for `d` in `0..=9`.
pub open spec fn digit_char(d: int) -> char {
    (d + 48) as char
}

/// Decimal representation of `n`, most significant digit first.
pub open spec fn decimal_digits(n: nat) -> Seq<char>
    decreases n,
{
    if n < 10 {
        seq![digit_char(n as int)]
    } else {
        decimal_digits(n / 10).push(digit_char((n % 10) as int))
    }
}

/// `n` in decimal, left-padded with `'0'` to at least `width` characters.
pub open spec fn zero_padded(n: nat, width: nat) -> Seq<char> {
    let ds = decimal_digits(n);
    if ds.len() < width {
        Seq::new((width - ds.len()) as nat, |i: int| '0') + ds
    } else {
        ds
    }
}

/// Signed `n` padded as the `{:0width}` format does: a leading `'-'` for a
/// negative value counts toward the width.
pub open spec fn signed_zero_padded(n: int, width: nat) -> Seq<char> {
    if n >= 0 {
        zero_padded(n as nat, width)
    } else {
        seq!['-'] + zero_padded((-n) as nat, if width > 0 { (width - 1) as nat } else { 0 })
    }
}

/// The civil date `(year, month, day)` whose day number since 1970-01-01 is `days`.
pub open spec fn civil_date(days: int) -> (int, int, int) {
    choose|y: int, m: int, d: int| valid_date(y, m, d) && days_from_civil(y, m, d) == days
}

/// `YYYY-MM-DDThh:mm:ss.fffZ` for the instant `secs` seconds and `millis`
/// milliseconds after the Unix epoch.
pub open spec fn iso8601_text(secs: int, millis: nat) -> Seq<char> {
    let days = secs / 86400;
    let sod = secs % 86400;
    let date = civil_date(days);
    signed_zero_padded(date.0, 4) + seq!['-'] + zero_padded(date.1 as nat, 2) + seq!['-']
        + zero_padded(date.2 as nat, 2) + seq!['T'] + zero_padded((sod / 3600) as nat, 2)
        + seq![':'] + zero_padded(((sod % 3600) / 60) as nat, 2) + seq![':'] + zero_padded(
        (sod % 60) as nat,
        2,
    ) + seq!['.'] + zero_padded(millis, 3) + seq!['Z']
}

fn decimal_chars(n: u64) -> (v: Vec<char>)
    ensures
        v@ == decimal_digits(n as nat),
    decreases n,
{
    let c = ((n % 10) as u8 + 48u8) as char;
    assert(c == digit_char((n % 10) as int));
    if n < 10 {
        let mut v = Vec::new();
        v.push(c);
        v
    } else {
        let mut v = decimal_chars(n / 10);
        v.push(c);
        v
    }
}

fn push_zero_padded(out: &mut String, n: u64, width: usize)
    ensures
        final(out)@ == old(out)@ + zero_padded(n as nat, width as nat),
{
    let digits = decimal_chars(n);
    let len = digits.len();
    let ghost start = out@;
    if len < width {
        let mut i: usize = len;
        while i < width
            invariant
                len <= i <= width,
                out@ == start + Seq::new((i - len) as nat, |j: int| '0'),
            decreases width - i,
        {
            push_char(out, '0');
            i = i + 1;
            assert(out@ =~= start + Seq::new((i - len) as nat, |j: int| '0'));
        }
    }
    let ghost padded = out@;
    let mut k: usize = 0;
    while k < len
        invariant
            k <= len == digits@.len(),
            out@ == padded + digits@.take(k as int),
        decreases len - k,
    {
        push_char(out, digits[k]);
        k = k + 1;
        assert(out@ =~= padded + digits@.take(k as int));
    }
    assert(digits@.take(len as int) =~= digits@);
    if len >= width {
        assert(padded =~= start);
    }
    assert(out@ =~= old(out)@ + zero_padded(n as nat, width as nat));
}

/// Appends `n` in decimal, padded as `{:0width}` formats it.
pub(crate) fn push_signed_padded(out: &mut String, n: i64, width: usize)
    requires
        width >= 1,
    ensures
        final(out)@ == old(out)@ + signed_zero_padded(n as int, width as nat),
{
    if n < 0 {
        push_char(out, '-');
        let magnitude = (-(n + 1)) as u64 + 1;
        push_zero_padded(out, magnitude, width - 1);
        assert(out@ =~= old(out)@ + signed_zero_padded(n as int, width as nat));
    } else {
        push_zero_padded(out, n as u64, width);
    }
}

/// Formats the instant `secs` seconds and `millis` milliseconds after the
/// Unix epoch as `YYYY-MM-DDThh:mm:ss.fffZ` (UTC).
pub fn format_iso8601(secs: i64, millis: u32) -> (stamp: String)
    ensures
        stamp@ == iso8601_text(secs as int, millis as nat),
{
    let days = secs.checked_div_euclid(86_400).unwrap();
    let secs_of_day = secs.checked_rem_euclid(86_400).unwrap();
    let (year, month, day) = civil_from_days(days);
    proof {
        let date = civil_date(days as int);
        assert(valid_date(year as int, month as int, day as int)
            && days_from_civil(year as int, month as int, day as int) == days as int);
        lemma_days_from_civil_injective(
            year as int,
            month as int,
            day as int,
            date.0,
            date.1,
            date.2,
        );
    }
    let hour = secs_of_day / 3600;
    let minute = (secs_of_day % 3600) / 60;
    let second = secs_of_day % 60;
    let mut out = String::new();
    push_signed_padded(&mut out, year, 4);
    push_char(&mut out, '-');
    push_zero_padded(&mut out, month as u64, 2);
    push_char(&mut out, '-');
    push_zero_padded(&mut out, day as u64, 2);
    push_char(&mut out, 'T');
    push_zero_padded(&mut out, hour as u64, 2);
    push_char(&mut out, ':');
    push_zero_padded(&mut out, minute as u64, 2);
    push_char(&mut out, ':');
    push_zero_padded(&mut out, second as u64, 2);
    push_char(&mut out, '.');
    push_zero_padded(&mut out, millis as u64, 3);
    push_char(&mut out, 'Z');
    proof {
        let date = civil_date(days as int);
        assert(out@ =~= iso8601_text(secs as int, millis as nat));
    }
    out
}

/// A reading of the system clock (std `SystemTime`).
#[verifier::external_type_specification]
#[verifier::external_body]
pub struct ExSystemTime(std::time::SystemTime);

/// Why a clock reading could not be measured from the epoch (std
/// `SystemTimeError`).
#[verifier::external_type_specification]
#[verifier::external_body]
pub struct ExSystemTimeError(std::time::SystemTimeError);

/// Reads the system clock (std `SystemTime::now`); nothing can be stated of
/// the reading.
#[verifier::external_body]
fn clock_now() -> (now: std::time::SystemTime) {
    std::time::SystemTime::now()
}

/// The time from the Unix epoch to `time` (std `SystemTime::duration_since`
/// with `UNIX_EPOCH`): an error for a time before the epoch.  It depends on
/// the reading alone, which is opaque here, so nothing is stated.
#[verifier::external_body]
fn since_unix_epoch(time: &std::time::SystemTime) -> (since: Result<
    std::time::Duration,
    std::time::SystemTimeError,
>) {
    time.duration_since(std::time::UNIX_EPOCH)
}

/// The whole seconds of `d` (std `Duration::as_secs`); `d` is opaque here,
/// so nothing is stated.
#[verifier::external_body]
fn whole_seconds(d: &std::time::Duration) -> (secs: u64) {
    d.as_secs()
}

/// The whole milliseconds of the fractional part of `d` (std
/// `Duration::subsec_millis`), which std documents as less than 1000.
#[verifier::external_body]
fn subsecond_millis(d: &std::time::Duration) -> (millis: u32)
    ensures
        millis < 1000,
{
    d.subsec_millis()
}

/// The system clock as whole seconds and the milliseconds within the
/// current second since the Unix epoch; a clock set before the epoch reads
/// as zero.
fn system_time_since_epoch() -> (now: (u64, u32))
    ensures
        now.1 < 1000,
{
    let now = clock_now();
    match since_unix_epoch(&now) {
        Ok(d) => (whole_seconds(&d), subsecond_millis(&d)),
        Err(_) => (0, 0),
    }
}

/// The current UTC time as `YYYY-MM-DDThh:mm:ss.fffZ`.
pub fn iso8601_now() -> (stamp: String)
    ensures
        exists|secs: u64, millis: u32|
            millis < 1000 && stamp@ == #[trigger] iso8601_text((secs as i64) as int, millis as nat),
{
    let (secs, millis) = system_time_since_epoch();
    let stamp = format_iso8601(secs as i64, millis);
    assert(millis < 1000 && stamp@ == iso8601_text((secs as i64) as int, millis as nat));
    stamp
}

proof fn lemma_digits_len(n: nat)
    ensures
        decimal_digits(n).len() >= 1,
        n < 10 ==> decimal_digits(n).len() == 1,
        10 <= n < 100 ==> decimal_digits(n).len() == 2,
        100 <= n < 1000 ==> decimal_digits(n).len() == 3,
        1000 <= n < 10000 ==> decimal_digits(n).len() == 4,
    decreases n,
{
    if n >= 10 {
        lemma_digits_len(n / 10);
    }
}

proof fn lemma_padded_len(n: nat, width: nat)
    requires
        1 <= width <= 4,
        width == 1 ==> n < 10,
        width == 2 ==> n < 100,
        width == 3 ==> n < 1000,
        width == 4 ==> n < 10000,
    ensures
        zero_padded(n, width).len() == width,
{
    lemma_digits_len(n);
}

/// For every instant from the Unix epoch to the end of year 9999, the stamp
/// has the fixed shape `YYYY-MM-DDThh:mm:ss.fffZ`: 24 characters with the
/// separators at their fixed places.
pub proof fn lemma_iso8601_shape(secs: int, millis: nat)
    requires
        0 <= secs < 253402300800,
        millis < 1000,
    ensures
        iso8601_text(secs, millis).len() == 24,
        iso8601_text(secs, millis)[4] == '-',
        iso8601_text(secs, millis)[7] == '-',
        iso8601_text(secs, millis)[10] == 'T',
        iso8601_text(secs, millis)[13] == ':',
        iso8601_text(secs, millis)[16] == ':',
        iso8601_text(secs, millis)[19] == '.',
        iso8601_text(secs, millis)[23] == 'Z',
{
    let days = secs / 86400;
    let sod = secs % 86400;
    assert(0 <= days < 2932897);
    // the date exists: civil_from_days finds one for every day number
    let date = civil_date(days);
    assert(valid_date(date.0, date.1, date.2) && days_from_civil(date.0, date.1, date.2) == days)
        by {
        lemma_every_day_has_a_date(days);
    }
    let (y, m, d) = date;
    lemma_date_within_year(y, m, d);
    lemma_days_before_year(0);
    lemma_days_before_year(10000);
    if y < 0 {
        lemma_days_before_year_increasing(y, 0);
    }
    if y > 9999 {
        lemma_days_before_year_increasing(10000, y);
    }
    assert(0 <= y <= 9999);
    lemma_padded_len(y as nat, 4);
    lemma_padded_len(m as nat, 2);
    lemma_padded_len(d as nat, 2);
    lemma_padded_len((sod / 3600) as nat, 2);
    lemma_padded_len(((sod % 3600) / 60) as nat, 2);
    lemma_padded_len((sod % 60) as nat, 2);
    lemma_padded_len(millis, 3);
}

proof fn lemma_padded_digits(n: nat)
    ensures
        n < 100 ==> zero_padded(n, 2) == seq![digit_char((n / 10) as int), digit_char((n % 10) as int)],
        n < 1000 ==> zero_padded(n, 3) == seq![
            digit_char((n / 100) as int),
            digit_char(((n / 10) % 10) as int),
            digit_char((n % 10) as int),
        ],
        n < 10000 ==> zero_padded(n, 4) == seq![
            digit_char((n / 1000) as int),
            digit_char(((n / 100) % 10) as int),
            digit_char(((n / 10) % 10) as int),
            digit_char((n % 10) as int),
        ],
{
    reveal_with_fuel(decimal_digits, 5);
    assert(digit_char(0) == '0');
    if n < 10 {
        assert(zero_padded(n, 2) =~= seq![digit_char((n / 10) as int), digit_char((n % 10) as int)]);
        assert(zero_padded(n, 3) =~= seq![
            digit_char((n / 100) as int),
            digit_char(((n / 10) % 10) as int),
            digit_char((n % 10) as int),
        ]);
        assert(zero_padded(n, 4) =~= seq![
            digit_char((n / 1000) as int),
            digit_char(((n / 100) % 10) as int),
            digit_char(((n / 10) % 10) as int),
            digit_char((n % 10) as int),
        ]);
    } else if n < 100 {
        assert(decimal_digits(n / 10) =~= seq![digit_char((n / 10) as int)]);
        assert(zero_padded(n, 2) =~= seq![digit_char((n / 10) as int), digit_char((n % 10) as int)]);
        assert(zero_padded(n, 3) =~= seq![
            digit_char((n / 100) as int),
            digit_char(((n / 10) % 10) as int),
            digit_char((n % 10) as int),
        ]);
        assert(zero_padded(n, 4) =~= seq![
            digit_char((n / 1000) as int),
            digit_char(((n / 100) % 10) as int),
            digit_char(((n / 10) % 10) as int),
            digit_char((n % 10) as int),
        ]);
    } else if n < 1000 {
        assert(decimal_digits(n / 100) =~= seq![digit_char((n / 100) as int)]);
        assert(decimal_digits(n / 10) =~= seq![
            digit_char((n / 100) as int),
            digit_char(((n / 10) % 10) as int),
        ]);
        assert(zero_padded(n, 3) =~= seq![
            digit_char((n / 100) as int),
            digit_char(((n / 10) % 10) as int),
            digit_char((n % 10) as int),
        ]);
        assert(zero_padded(n, 4) =~= seq![
            digit_char((n / 1000) as int),
            digit_char(((n / 100) % 10) as int),
            digit_char(((n / 10) % 10) as int),
            digit_char((n % 10) as int),
        ]);
    } else if n < 10000 {
        assert(decimal_digits(n / 1000) =~= seq![digit_char((n / 1000) as int)]);
        assert(decimal_digits(n / 100) =~= seq![
            digit_char((n / 1000) as int),
            digit_char(((n / 100) % 10) as int),
        ]);
        assert(decimal_digits(n / 10) =~= seq![
            digit_char((n / 1000) as int),
            digit_char(((n / 100) % 10) as int),
            digit_char(((n / 10) % 10) as int),
        ]);
        assert(zero_padded(n, 4) =~= seq![
            digit_char((n / 1000) as int),
            digit_char(((n / 100) % 10) as int),
            digit_char(((n / 10) % 10) as int),
            digit_char((n % 10) as int),
        ]);
    }
}

proof fn lemma_digit_order(a: int, b: int)
    requires
        0 <= a <= 9,
        0 <= b <= 9,
    ensures
        (digit_char(a) == digit_char(b)) == (a == b),
        (digit_char(a) as int) < (digit_char(b) as int) <==> a < b,
{
}

proof fn lemma_padded_order_2(n1: nat, n2: nat)
    requires
        n1 < n2 < 100,
    ensures
        text_less(zero_padded(n1, 2), zero_padded(n2, 2)),
{
    lemma_padded_digits(n1);
    lemma_padded_digits(n2);
    lemma_digit_order((n1 / 10) as int, (n2 / 10) as int);
    lemma_digit_order((n1 % 10) as int, (n2 % 10) as int);
    let p1 = zero_padded(n1, 2);
    let p2 = zero_padded(n2, 2);
    assert(p1.drop_first() =~= seq![digit_char((n1 % 10) as int)]);
    assert(p2.drop_first() =~= seq![digit_char((n2 % 10) as int)]);
    reveal_with_fuel(text_less, 3);
}

proof fn lemma_digit_arith(n: nat)
    ensures
        (n % 100) / 10 == (n / 10) % 10,
        (n % 100) % 10 == n % 10,
        (n % 1000) / 100 == (n / 100) % 10,
        ((n % 1000) / 10) % 10 == (n / 10) % 10,
        (n % 1000) % 10 == n % 10,
{
    let n = n as int;
    let q = n / 100;
    let r = n % 100;
    vstd::arithmetic::div_mod::lemma_fundamental_div_mod(n, 100);
    vstd::arithmetic::div_mod::lemma_fundamental_div_mod(r, 10);
    vstd::arithmetic::div_mod::lemma_fundamental_div_mod_converse(n, 10, 10 * q + r / 10, r % 10);
    vstd::arithmetic::div_mod::lemma_fundamental_div_mod_converse(n / 10, 10, q, r / 10);
    let p = n / 1000;
    let t = n % 1000;
    vstd::arithmetic::div_mod::lemma_fundamental_div_mod(n, 1000);
    vstd::arithmetic::div_mod::lemma_fundamental_div_mod(t, 100);
    vstd::arithmetic::div_mod::lemma_fundamental_div_mod(t, 10);
    vstd::arithmetic::div_mod::lemma_fundamental_div_mod_converse(n, 100, 10 * p + t / 100, t % 100);
    vstd::arithmetic::div_mod::lemma_fundamental_div_mod_converse(n / 100, 10, p, t / 100);
    vstd::arithmetic::div_mod::lemma_fundamental_div_mod_converse(n, 10, 100 * p + t / 10, t % 10);
    vstd::arithmetic::div_mod::lemma_fundamental_div_mod(t / 10, 10);
    vstd::arithmetic::div_mod::lemma_fundamental_div_mod(n / 10, 10);
    vstd::arithmetic::div_mod::lemma_fundamental_div_mod_converse(
        n / 10,
        10,
        10 * p + (t / 10) / 10,
        (t / 10) % 10,
    );
}

proof fn lemma_padded_split(n: nat)
    ensures
        n < 1000 ==> zero_padded(n, 3) == seq![digit_char((n / 100) as int)] + zero_padded(n % 100, 2),
        n < 10000 ==> zero_padded(n, 4) == seq![digit_char((n / 1000) as int)] + zero_padded(
            n % 1000,
            3,
        ),
{
    lemma_digit_arith(n);
    if n < 1000 {
        lemma_padded_digits(n);
        lemma_padded_digits(n % 100);
        assert(zero_padded(n, 3) =~= seq![digit_char((n / 100) as int)] + zero_padded(n % 100, 2));
    }
    if n < 10000 {
        lemma_padded_digits(n);
        lemma_padded_digits(n % 1000);
        assert(zero_padded(n, 4) =~= seq![digit_char((n / 1000) as int)] + zero_padded(n % 1000, 3));
    }
}

proof fn lemma_padded_order_3(n1: nat, n2: nat)
    requires
        n1 < n2 < 1000,
    ensures
        text_less(zero_padded(n1, 3), zero_padded(n2, 3)),
{
    lemma_padded_split(n1);
    lemma_padded_split(n2);
    let a1 = seq![digit_char((n1 / 100) as int)];
    let a2 = seq![digit_char((n2 / 100) as int)];
    lemma_digit_order((n1 / 100) as int, (n2 / 100) as int);
    lemma_text_less_concat(a1, zero_padded(n1 % 100, 2), a2, zero_padded(n2 % 100, 2));
    if n1 / 100 == n2 / 100 {
        lemma_padded_order_2(n1 % 100, n2 % 100);
    }
}

proof fn lemma_padded_order_4(n1: nat, n2: nat)
    requires
        n1 < n2 < 10000,
    ensures
        text_less(zero_padded(n1, 4), zero_padded(n2, 4)),
{
    lemma_padded_split(n1);
    lemma_padded_split(n2);
    let a1 = seq![digit_char((n1 / 1000) as int)];
    let a2 = seq![digit_char((n2 / 1000) as int)];
    lemma_digit_order((n1 / 1000) as int, (n2 / 1000) as int);
    lemma_text_less_concat(a1, zero_padded(n1 % 1000, 3), a2, zero_padded(n2 % 1000, 3));
    if n1 / 1000 == n2 / 1000 {
        lemma_padded_order_3(n1 % 1000, n2 % 1000);
    }
}

/// Zero-padded numbers of one width compare as texts as they do as numbers.
proof fn lemma_padded_order(n1: nat, n2: nat, width: nat)
    requires
        2 <= width <= 4,
        width == 2 ==> n1 < 100 && n2 < 100,
        width == 3 ==> n1 < 1000 && n2 < 1000,
        width == 4 ==> n1 < 10000 && n2 < 10000,
    ensures
        zero_padded(n1, width).len() == width,
        zero_padded(n2, width).len() == width,
        n1 < n2 ==> text_less(zero_padded(n1, width), zero_padded(n2, width)),
{
    lemma_padded_digits(n1);
    lemma_padded_digits(n2);
    if n1 < n2 {
        if width == 2 {
            lemma_padded_order_2(n1, n2);
        } else if width == 3 {
            lemma_padded_order_3(n1, n2);
        } else {
            lemma_padded_order_4(n1, n2);
        }
    }
}

/// `width`-padded `n1 + tail1` before `n2 + tail2`, from the order of the
/// numbers, or of the tails when the numbers are equal.
proof fn lemma_field_then_tail(
    n1: nat,
    n2: nat,
    width: nat,
    tail1: Seq<char>,
    tail2: Seq<char>,
)
    requires
        2 <= width <= 4,
        width == 2 ==> n1 < 100 && n2 < 100,
        width == 3 ==> n1 < 1000 && n2 < 1000,
        width == 4 ==> n1 < 10000 && n2 < 10000,
        n1 < n2 || (n1 == n2 && text_less(tail1, tail2)),
    ensures
        text_less(zero_padded(n1, width) + tail1, zero_padded(n2, width) + tail2),
{
    lemma_padded_order(n1, n2, width);
    lemma_text_less_concat(zero_padded(n1, width), tail1, zero_padded(n2, width), tail2);
    if n1 < n2 {
        crate::text::lemma_text_less_order(zero_padded(n1, width), zero_padded(n2, width), tail1);
    }
}

proof fn lemma_separator_then_tail(c: char, tail1: Seq<char>, tail2: Seq<char>)
    requires
        text_less(tail1, tail2),
    ensures
        text_less(seq![c] + tail1, seq![c] + tail2),
{
    lemma_text_less_concat(seq![c], tail1, seq![c], tail2);
}

/// A padded field followed by a separator and the rest of a stamp.
spec fn field_then(n: nat, width: nat, separator: char, rest: Seq<char>) -> Seq<char> {
    zero_padded(n, width) + (seq![separator] + rest)
}

/// The stamp of a date and time of day, written out field by field.
spec fn stamp_text(y: nat, mo: nat, d: nat, h: nat, mi: nat, s: nat, ms: nat) -> Seq<char> {
    let t12 = zero_padded(ms, 3) + seq!['Z'];
    let t10 = field_then(s, 2, '.', t12);
    let t8 = field_then(mi, 2, ':', t10);
    let t6 = field_then(h, 2, ':', t8);
    let t4 = field_then(d, 2, 'T', t6);
    let t2 = field_then(mo, 2, '-', t4);
    field_then(y, 4, '-', t2)
}

/// `h1:mi1:s1.ms1` is an earlier time of day than `h2:mi2:s2.ms2`.
spec fn clock_before(h1: nat, mi1: nat, s1: nat, ms1: nat, h2: nat, mi2: nat, s2: nat, ms2: nat) -> bool {
    h1 < h2 || (h1 == h2 && (mi1 < mi2 || (mi1 == mi2 && (s1 < s2 || (s1 == s2 && ms1 < ms2)))))
}

proof fn lemma_stamp_order(
    y1: nat, mo1: nat, d1: nat, h1: nat, mi1: nat, s1: nat, ms1: nat,
    y2: nat, mo2: nat, d2: nat, h2: nat, mi2: nat, s2: nat, ms2: nat,
)
    requires
        y1 < 10000 && y2 < 10000,
        mo1 < 100 && mo2 < 100 && d1 < 100 && d2 < 100,
        h1 < 100 && h2 < 100 && mi1 < 100 && mi2 < 100 && s1 < 100 && s2 < 100,
        ms1 < 1000 && ms2 < 1000,
        date_before(y1 as int, mo1 as int, d1 as int, y2 as int, mo2 as int, d2 as int) || (y1
            == y2 && mo1 == mo2 && d1 == d2 && clock_before(h1, mi1, s1, ms1, h2, mi2, s2, ms2)),
    ensures
        text_less(stamp_text(y1, mo1, d1, h1, mi1, s1, ms1), stamp_text(y2, mo2, d2, h2, mi2, s2, ms2)),
{
    let z = seq!['Z'];
    let t12_1 = zero_padded(ms1, 3) + z;
    let t12_2 = zero_padded(ms2, 3) + z;
    let t10_1 = field_then(s1, 2, '.', t12_1);
    let t10_2 = field_then(s2, 2, '.', t12_2);
    let t8_1 = field_then(mi1, 2, ':', t10_1);
    let t8_2 = field_then(mi2, 2, ':', t10_2);
    let t6_1 = field_then(h1, 2, ':', t8_1);
    let t6_2 = field_then(h2, 2, ':', t8_2);
    let t4_1 = field_then(d1, 2, 'T', t6_1);
    let t4_2 = field_then(d2, 2, 'T', t6_2);
    let t2_1 = field_then(mo1, 2, '-', t4_1);
    let t2_2 = field_then(mo2, 2, '-', t4_2);
    let same_date = y1 == y2 && mo1 == mo2 && d1 == d2;
    if same_date && h1 == h2 && mi1 == mi2 && s1 == s2 && ms1 < ms2 {
        lemma_field_then_tail(ms1, ms2, 3, z, z);
        crate::text::lemma_text_less_order(z, z, z);
    }
    if ms1 < ms2 {
        lemma_padded_order(ms1, ms2, 3);
        lemma_text_less_concat(zero_padded(ms1, 3), z, zero_padded(ms2, 3), z);
        crate::text::lemma_text_less_order(zero_padded(ms1, 3), zero_padded(ms2, 3), z);
    }
    assert(ms1 < ms2 ==> text_less(t12_1, t12_2));
    if s1 < s2 || (s1 == s2 && ms1 < ms2) {
        if s1 == s2 {
            lemma_separator_then_tail('.', t12_1, t12_2);
        }
        lemma_field_then_tail(s1, s2, 2, seq!['.'] + t12_1, seq!['.'] + t12_2);
    }
    assert(s1 < s2 || (s1 == s2 && ms1 < ms2) ==> text_less(t10_1, t10_2));
    if mi1 < mi2 || (mi1 == mi2 && text_less(t10_1, t10_2)) {
        if mi1 == mi2 {
            lemma_separator_then_tail(':', t10_1, t10_2);
        }
        lemma_field_then_tail(mi1, mi2, 2, seq![':'] + t10_1, seq![':'] + t10_2);
    }
    assert(mi1 < mi2 || (mi1 == mi2 && text_less(t10_1, t10_2)) ==> text_less(t8_1, t8_2));
    if h1 < h2 || (h1 == h2 && text_less(t8_1, t8_2)) {
        if h1 == h2 {
            lemma_separator_then_tail(':', t8_1, t8_2);
        }
        lemma_field_then_tail(h1, h2, 2, seq![':'] + t8_1, seq![':'] + t8_2);
    }
    assert(clock_before(h1, mi1, s1, ms1, h2, mi2, s2, ms2) ==> text_less(t6_1, t6_2));
    if d1 < d2 || (d1 == d2 && text_less(t6_1, t6_2)) {
        if d1 == d2 {
            lemma_separator_then_tail('T', t6_1, t6_2);
        }
        lemma_field_then_tail(d1, d2, 2, seq!['T'] + t6_1, seq!['T'] + t6_2);
    }
    assert(d1 < d2 || (d1 == d2 && text_less(t6_1, t6_2)) ==> text_less(t4_1, t4_2));
    if mo1 < mo2 || (mo1 == mo2 && text_less(t4_1, t4_2)) {
        if mo1 == mo2 {
            lemma_separator_then_tail('-', t4_1, t4_2);
        }
        lemma_field_then_tail(mo1, mo2, 2, seq!['-'] + t4_1, seq!['-'] + t4_2);
    }
    assert(mo1 < mo2 || (mo1 == mo2 && text_less(t4_1, t4_2)) ==> text_less(t2_1, t2_2));
    assert(y1 == y2 ==> text_less(t2_1, t2_2));
    if y1 == y2 {
        lemma_separator_then_tail('-', t2_1, t2_2);
    }
    lemma_field_then_tail(y1, y2, 4, seq!['-'] + t2_1, seq!['-'] + t2_2);
}

/// The date of an instant from the Unix epoch to the end of year 9999 is a
/// valid date of a four-digit year, and its stamp is the field-by-field text.
proof fn lemma_stamp_fields(secs: int, millis: nat)
    requires
        0 <= secs < 253402300800,
        millis < 1000,
    ensures
        ({
            let date = civil_date(secs / 86400);
            let sod = secs % 86400;
            &&& valid_date(date.0, date.1, date.2)
            &&& days_from_civil(date.0, date.1, date.2) == secs / 86400
            &&& 0 <= date.0 <= 9999
            &&& iso8601_text(secs, millis) == stamp_text(
                date.0 as nat,
                date.1 as nat,
                date.2 as nat,
                (sod / 3600) as nat,
                ((sod % 3600) / 60) as nat,
                (sod % 60) as nat,
                millis,
            )
        }),
{
    let days = secs / 86400;
    let date = civil_date(days);
    assert(valid_date(date.0, date.1, date.2) && days_from_civil(date.0, date.1, date.2) == days)
        by {
        lemma_every_day_has_a_date(days);
    }
    let (y, m, d) = date;
    lemma_date_within_year(y, m, d);
    lemma_days_before_year(0);
    lemma_days_before_year(10000);
    if y < 0 {
        lemma_days_before_year_increasing(y, 0);
    }
    if y > 9999 {
        lemma_days_before_year_increasing(10000, y);
    }
    let sod = secs % 86400;
    lemma_regroup(
        zero_padded(y as nat, 4),
        zero_padded(m as nat, 2),
        zero_padded(d as nat, 2),
        zero_padded((sod / 3600) as nat, 2),
        zero_padded(((sod % 3600) / 60) as nat, 2),
        zero_padded((sod % 60) as nat, 2),
        zero_padded(millis, 3),
    );
}

/// Regrouping the concatenation of a stamp's fields and separators.
proof fn lemma_regroup(
    y: Seq<char>,
    mo: Seq<char>,
    d: Seq<char>,
    h: Seq<char>,
    mi: Seq<char>,
    s: Seq<char>,
    ms: Seq<char>,
)
    ensures
        y + seq!['-'] + mo + seq!['-'] + d + seq!['T'] + h + seq![':'] + mi + seq![':'] + s + seq!['.']
            + ms + seq!['Z'] == y + (seq!['-'] + (mo + (seq!['-'] + (d + (seq!['T'] + (h + (seq![
            ':'] + (mi + (seq![':'] + (s + (seq!['.'] + (ms + seq!['Z'])))))))))))),
{
    let t12 = ms + seq!['Z'];
    let t11 = seq!['.'] + t12;
    let t10 = s + t11;
    let t9 = seq![':'] + t10;
    let t8 = mi + t9;
    let t7 = seq![':'] + t8;
    let t6 = h + t7;
    let t5 = seq!['T'] + t6;
    let t4 = d + t5;
    let t3 = seq!['-'] + t4;
    let t2 = mo + t3;
    let t1 = seq!['-'] + t2;
    assert(y + seq!['-'] + mo + seq!['-'] + d + seq!['T'] + h + seq![':'] + mi + seq![':'] + s
        + seq!['.'] + ms + seq!['Z'] =~= y + t1);
}

/// Between the Unix epoch and the end of year 9999, a later instant has a
/// later stamp in text order: listing stamps newest first lists the
/// instants newest first.
pub proof fn lemma_iso8601_order(secs1: int, millis1: nat, secs2: int, millis2: nat)
    requires
        0 <= secs1 < 253402300800,
        0 <= secs2 < 253402300800,
        millis1 < 1000,
        millis2 < 1000,
        secs1 < secs2 || (secs1 == secs2 && millis1 < millis2),
    ensures
        text_less(iso8601_text(secs1, millis1), iso8601_text(secs2, millis2)),
{
    lemma_stamp_fields(secs1, millis1);
    lemma_stamp_fields(secs2, millis2);
    let days1 = secs1 / 86400;
    let days2 = secs2 / 86400;
    let sod1 = secs1 % 86400;
    let sod2 = secs2 % 86400;
    let date1 = civil_date(days1);
    let date2 = civil_date(days2);
    vstd::arithmetic::div_mod::lemma_fundamental_div_mod(secs1, 86400);
    vstd::arithmetic::div_mod::lemma_fundamental_div_mod(secs2, 86400);
    assert(days1 <= days2);
    if days1 < days2 {
        lemma_days_from_civil_ordered(date1.0, date1.1, date1.2, date2.0, date2.1, date2.2);
    } else {
        assert(sod1 < sod2 || (sod1 == sod2 && millis1 < millis2));
        vstd::arithmetic::div_mod::lemma_fundamental_div_mod(sod1, 3600);
        vstd::arithmetic::div_mod::lemma_fundamental_div_mod(sod2, 3600);
        vstd::arithmetic::div_mod::lemma_fundamental_div_mod(sod1 % 3600, 60);
        vstd::arithmetic::div_mod::lemma_fundamental_div_mod(sod2 % 3600, 60);
        vstd::arithmetic::div_mod::lemma_fundamental_div_mod_converse(
            sod1,
            60,
            60 * (sod1 / 3600) + (sod1 % 3600) / 60,
            (sod1 % 3600) % 60,
        );
        vstd::arithmetic::div_mod::lemma_fundamental_div_mod_converse(
            sod2,
            60,
            60 * (sod2 / 3600) + (sod2 % 3600) / 60,
            (sod2 % 3600) % 60,
        );
    }
    lemma_stamp_order(
        date1.0 as nat,
        date1.1 as nat,
        date1.2 as nat,
        (sod1 / 3600) as nat,
        ((sod1 % 3600) / 60) as nat,
        (sod1 % 60) as nat,
        millis1,
        date2.0 as nat,
        date2.1 as nat,
        date2.2 as nat,
        (sod2 / 3600) as nat,
        ((sod2 % 3600) / 60) as nat,
        (sod2 % 60) as nat,
        millis2,
    );
}

} // verus!
