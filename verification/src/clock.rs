//! Wall-clock readings and their UTC+8 renderings.

use vstd::prelude::*;
use crate::text::{dec, push_dec_padded, zero_pad, string_of};

verus! {

/// Seconds since the Unix epoch according to the system clock
/// (`SystemTime::now().duration_since(UNIX_EPOCH)`, zero when the clock is before the epoch).
/// Nothing is stated of the value: it is the time at which the call runs.
#[verifier::external_body]
pub(crate) fn unix_now_secs() -> u64 {
    std::time::SystemTime::now().duration_since(std::time::UNIX_EPOCH).unwrap_or_default().as_secs()
}

/// Seconds shifted into UTC+8 (wrapping, as the release build computes it).
pub open spec fn utc8(secs: u64) -> u64 {
    secs.wrapping_add(28800)
}

pub open spec fn pad2(n: nat) -> Seq<char> {
    zero_pad(dec(n), 2)
}

/// `HH:MM:SS` of a shifted second count.
pub open spec fn hms(t: u64) -> Seq<char> {
    pad2(((t / 3600) % 24) as nat) + seq![':'] + pad2(((t / 60) % 60) as nat) + seq![':'] + pad2(
        (t % 60) as nat,
    )
}

/// The time of day in UTC+8 for a Unix second count, as `HH:MM:SS`.
pub open spec fn clock_text_spec(secs: u64) -> Seq<char> {
    hms(utc8(secs))
}

/// Civil date of a day count since 1970-01-01 (proleptic Gregorian calendar).
pub open spec fn civil_from_days(days: u64) -> (u64, u64, u64) {
    let z = days + 719468;
    let era = z / 146097;
    let doe = z % 146097;
    let yoe = (doe - doe / 1460 + doe / 36524 - doe / 146096) / 365;
    let y = yoe + era * 400;
    let doy = doe - (yoe * 365 + yoe / 4 - yoe / 100);
    let mp = (doy * 5 + 2) / 153;
    let d = doy - (mp * 153 + 2) / 5 + 1;
    let m = if mp < 10 {
        mp + 3
    } else {
        mp - 9
    };
    let y2 = if m <= 2 {
        y + 1
    } else {
        y
    };
    (y2 as u64, m as u64, d as u64)
}

/// `YYYY-MM-DD_HH-MM-SS` in UTC+8 for a Unix second count.
pub open spec fn filename_stamp_spec(secs: u64) -> Seq<char> {
    let t = utc8(secs);
    let (y, mo, d) = civil_from_days(t / 86400);
    let rem = t % 86400;
    zero_pad(dec(y as nat), 4) + seq!['-'] + pad2(mo as nat) + seq!['-'] + pad2(d as nat) + seq!['_']
        + pad2((rem / 3600) as nat) + seq!['-'] + pad2(((rem / 60) % 60) as nat) + seq!['-']
        + pad2((rem % 60) as nat)
}

/// `YYYY-MM-DD HH:MM:SS` in UTC for a Unix second count.
pub open spec fn utc_stamp_spec(secs: u64) -> Seq<char> {
    let (y, mo, d) = civil_from_days(secs / 86400);
    let rem = secs % 86400;
    zero_pad(dec(y as nat), 4) + seq!['-'] + pad2(mo as nat) + seq!['-'] + pad2(d as nat) + seq![' ']
        + pad2((rem / 3600) as nat) + seq![':'] + pad2(((rem % 3600) / 60) as nat) + seq![':']
        + pad2((rem % 60) as nat)
}

/// Days since the epoch to (year, month, day).
pub fn days_to_ymd(days: u64) -> (r: (u64, u64, u64))
    requires
        days <= u64::MAX - 719468,
    ensures
        r == civil_from_days(days),
        1 <= r.1 <= 12,
        1 <= r.2 <= days_in_month(r.0 as int, r.1 as int),
{
    proof {
        lemma_civil_parts(days);
        lemma_civil_valid((days + 719468) / 146097, (days + 719468) % 146097);
    }
    let z = days + 719468;
    let era = z / 146097;
    let doe = z % 146097;
    assert(doe / 1460 <= doe);
    let yoe = (doe - doe / 1460 + doe / 36524 - doe / 146096) / 365;
    assert(yoe <= 399) by (nonlinear_arith)
        requires
            yoe == (doe - doe / 1460 + doe / 36524 - doe / 146096) / 365,
            doe < 146097,
    ;
    let y = yoe + era * 400;
    assert(yoe * 365 + yoe / 4 - yoe / 100 <= doe) by (nonlinear_arith)
        requires
            yoe == (doe - doe / 1460 + doe / 36524 - doe / 146096) / 365,
            doe < 146097,
    ;
    let doy = doe - (yoe * 365 + yoe / 4 - yoe / 100);
    assert(doy <= 365) by (nonlinear_arith)
        requires
            yoe == (doe - doe / 1460 + doe / 36524 - doe / 146096) / 365,
            doy == doe - (yoe * 365 + yoe / 4 - yoe / 100),
            doe < 146097,
    ;
    let mp = (doy * 5 + 2) / 153;
    assert(mp <= 11);
    assert((mp * 153 + 2) / 5 <= doy) by (nonlinear_arith)
        requires
            mp == (doy * 5 + 2) / 153,
    ;
    let d = doy - (mp * 153 + 2) / 5 + 1;
    assert(d <= 31) by (nonlinear_arith)
        requires
            mp == (doy * 5 + 2) / 153,
            d == doy - (mp * 153 + 2) / 5 + 1,
            doy <= 365,
    ;
    let m = if mp < 10 {
        mp + 3
    } else {
        mp - 9
    };
    let y = if m <= 2 {
        y + 1
    } else {
        y
    };
    (y, m, d)
}

fn push_pad2(out: &mut Vec<char>, n: u64)
    ensures
        final(out)@ == old(out)@ + pad2(n as nat),
{
    push_dec_padded(out, n, 2);
}

/// `HH:MM:SS` of a shifted second count.
fn push_hms(out: &mut Vec<char>, t: u64)
    ensures
        final(out)@ == old(out)@ + hms(t),
{
    push_pad2(out, (t / 3600) % 24);
    out.push(':');
    push_pad2(out, (t / 60) % 60);
    out.push(':');
    push_pad2(out, t % 60);
    assert(out@ =~= old(out)@ + hms(t));
}

/// The time of day in UTC+8 for a Unix second count (`HH:MM:SS`).
pub fn clock_text(secs: u64) -> (s: String)
    ensures
        s@ == clock_text_spec(secs),
{
    let mut v: Vec<char> = Vec::new();
    push_hms(&mut v, secs.wrapping_add(28800));
    assert(v@ =~= clock_text_spec(secs));
    string_of(&v)
}

/// `YYYY-MM-DD_HH-MM-SS` in UTC+8 for a Unix second count.
pub fn filename_stamp(secs: u64) -> (s: String)
    ensures
        s@ == filename_stamp_spec(secs),
{
    let t = secs.wrapping_add(28800);
    let (y, mo, d) = days_to_ymd(t / 86400);
    let rem = t % 86400;
    let mut v: Vec<char> = Vec::new();
    push_dec_padded(&mut v, y, 4);
    v.push('-');
    push_pad2(&mut v, mo);
    v.push('-');
    push_pad2(&mut v, d);
    v.push('_');
    push_pad2(&mut v, rem / 3600);
    v.push('-');
    push_pad2(&mut v, (rem / 60) % 60);
    v.push('-');
    push_pad2(&mut v, rem % 60);
    assert(v@ =~= filename_stamp_spec(secs));
    string_of(&v)
}

/// `YYYY-MM-DD HH:MM:SS` in UTC for a Unix second count (the updater's log stamp).
pub fn utc_stamp(secs: u64) -> (s: String)
    ensures
        s@ == utc_stamp_spec(secs),
{
    let (y, mo, d) = days_to_ymd(secs / 86400);
    let rem = secs % 86400;
    let mut v: Vec<char> = Vec::new();
    push_dec_padded(&mut v, y, 4);
    v.push('-');
    push_pad2(&mut v, mo);
    v.push('-');
    push_pad2(&mut v, d);
    v.push(' ');
    push_pad2(&mut v, rem / 3600);
    v.push(':');
    push_pad2(&mut v, (rem % 3600) / 60);
    v.push(':');
    push_pad2(&mut v, rem % 60);
    assert(v@ =~= utc_stamp_spec(secs));
    string_of(&v)
}

/// The current UTC+8 date and time in a file-name friendly form: `2026-05-16_14-30-25`.
pub fn format_datetime_utc8_for_filename() -> (s: String)
    ensures
        exists|secs: u64| s@ == filename_stamp_spec(secs),
{
    filename_stamp(unix_now_secs())
}

} // verus!

verus! {

// ── Calendar laws ───────────────────────────────────────────────

/// Leap years of the Gregorian calendar.
pub open spec fn is_leap(y: int) -> bool {
    y % 4 == 0 && (y % 100 != 0 || y % 400 == 0)
}

/// Days in month `m` of year `y`.
pub open spec fn days_in_month(y: int, m: int) -> int {
    if m == 2 {
        if is_leap(y) {
            29
        } else {
            28
        }
    } else if m == 4 || m == 6 || m == 9 || m == 11 {
        30
    } else {
        31
    }
}

/// The calendar day after `(y, m, d)`.
pub open spec fn next_day(y: int, m: int, d: int) -> (int, int, int) {
    if d < days_in_month(y, m) {
        (y, m, d + 1)
    } else if m < 12 {
        (y, m + 1, 1)
    } else {
        (y + 1, 1, 1)
    }
}

proof fn lemma_doy_valid(doy: u32, mp: u32, q: u32, d: u32)
    by (bit_vector)
    requires
        doy <= 365,
        mp * 153 <= doy * 5 + 2,
        doy * 5 + 2 < mp * 153 + 153,
        q * 5 <= mp * 153 + 2,
        mp * 153 + 2 < q * 5 + 5,
        d + q == doy + 1,
    ensures
        mp <= 11,
        1 <= d,
        d <= 31,
        mp == 1 ==> d <= 30,
        mp == 3 ==> d <= 30,
        mp == 6 ==> d <= 30,
        mp == 8 ==> d <= 30,
        mp == 11 ==> d <= 29,
        d == 29 && mp == 11 ==> doy == 365,
        doy >= 337 ==> mp == 11,
        doy >= 337 ==> d + 336 == doy,
        mp >= 10 ==> doy >= 306,
        doy >= 306 ==> mp >= 10,
{
}

proof fn lemma_doy_step(doy: u32, mp: u32, q: u32, d: u32, mp2: u32, q2: u32, d2: u32)
    by (bit_vector)
    requires
        doy < 365,
        mp * 153 <= doy * 5 + 2,
        doy * 5 + 2 < mp * 153 + 153,
        q * 5 <= mp * 153 + 2,
        mp * 153 + 2 < q * 5 + 5,
        d + q == doy + 1,
        mp2 * 153 <= (doy + 1) * 5 + 2,
        (doy + 1) * 5 + 2 < mp2 * 153 + 153,
        q2 * 5 <= mp2 * 153 + 2,
        mp2 * 153 + 2 < q2 * 5 + 5,
        d2 + q2 == doy + 2,
    ensures
        mp2 == mp || mp2 == mp + 1,
        mp2 == mp ==> d2 == d + 1,
        mp2 == mp + 1 ==> d2 == 1,
        mp2 == mp + 1 ==> (d == 31 || (d == 30 && (mp == 1 || mp == 3 || mp == 6 || mp == 8))),
{
}

proof fn lemma_doe_valid(doe: u32, a: u32, b: u32, c: u32, yoe: u32, e: u32, f: u32, doy: u32)
    by (bit_vector)
    requires
        doe < 146097,
        a * 1460 <= doe,
        doe < a * 1460 + 1460,
        b * 36524 <= doe,
        doe < b * 36524 + 36524,
        c * 146096 <= doe,
        doe < c * 146096 + 146096,
        yoe * 365 + a + c <= doe + b,
        doe + b < yoe * 365 + 365 + a + c,
        e * 4 <= yoe,
        yoe < e * 4 + 4,
        f * 100 <= yoe,
        yoe < f * 100 + 100,
        doy + yoe * 365 + e == doe + f,
    ensures
        yoe <= 399,
        doy <= 365,
        doy == 365 ==> ((yoe + 1) % 4 == 0 && ((yoe + 1) % 100 != 0 || (yoe + 1) % 400 == 0)),
{
}

#[verifier::rlimit(100)]
proof fn lemma_doe_step(
    doe: u32,
    a: u32,
    b: u32,
    c: u32,
    yoe: u32,
    e: u32,
    f: u32,
    doy: u32,
    a2: u32,
    b2: u32,
    c2: u32,
    yoe2: u32,
    e2: u32,
    f2: u32,
    doy2: u32,
)
    by (bit_vector)
    requires
        doe < 146096,
        a * 1460 <= doe,
        doe < a * 1460 + 1460,
        b * 36524 <= doe,
        doe < b * 36524 + 36524,
        c * 146096 <= doe,
        doe < c * 146096 + 146096,
        yoe * 365 + a + c <= doe + b,
        doe + b < yoe * 365 + 365 + a + c,
        e * 4 <= yoe,
        yoe < e * 4 + 4,
        f * 100 <= yoe,
        yoe < f * 100 + 100,
        doy + yoe * 365 + e == doe + f,
        a2 * 1460 <= doe + 1,
        doe + 1 < a2 * 1460 + 1460,
        b2 * 36524 <= doe + 1,
        doe + 1 < b2 * 36524 + 36524,
        c2 * 146096 <= doe + 1,
        doe + 1 < c2 * 146096 + 146096,
        yoe2 * 365 + a2 + c2 <= doe + 1 + b2,
        doe + 1 + b2 < yoe2 * 365 + 365 + a2 + c2,
        e2 * 4 <= yoe2,
        yoe2 < e2 * 4 + 4,
        f2 * 100 <= yoe2,
        yoe2 < f2 * 100 + 100,
        doy2 + yoe2 * 365 + e2 == doe + 1 + f2,
    ensures
        yoe2 == yoe || yoe2 == yoe + 1,
        yoe2 == yoe ==> doy2 == doy + 1,
        yoe2 == yoe + 1 ==> doy2 == 0,
        yoe2 == yoe + 1 ==> (doy == 364 || doy == 365),
        yoe2 == yoe + 1 && doy == 364 ==> !((yoe + 1) % 4 == 0 && ((yoe + 1) % 100 != 0 || (yoe + 1)
            % 400 == 0)),
{
}

proof fn lemma_leap_shift(k: int, era: int)
    requires
        era >= 0,
    ensures
        is_leap(k + era * 400) == is_leap(k),
{
    assert(era * 400 == 4 * (era * 100)) by (nonlinear_arith);
    assert(era * 400 == 100 * (era * 4)) by (nonlinear_arith);
    assert(era * 400 == 400 * era) by (nonlinear_arith);
    vstd::arithmetic::div_mod::lemma_mod_multiples_vanish(era * 100, k, 4);
    vstd::arithmetic::div_mod::lemma_mod_multiples_vanish(era * 4, k, 100);
    vstd::arithmetic::div_mod::lemma_mod_multiples_vanish(era, k, 400);
}

/// Year (from 0, each starting on 1 March) of day `doe` of a 400-year era.
#[verifier::opaque]
spec fn yoe_of(doe: int) -> int {
    (doe - doe / 1460 + doe / 36524 - doe / 146096) / 365
}

/// Day (from 0) of that March-based year.
#[verifier::opaque]
spec fn doy_of(doe: int) -> int {
    doe - (yoe_of(doe) * 365 + yoe_of(doe) / 4 - yoe_of(doe) / 100)
}

/// Month (0 = March) of day `doy` of a March-based year.
#[verifier::opaque]
spec fn mp_of(doy: int) -> int {
    (doy * 5 + 2) / 153
}

/// Day of the month of day `doy` of a March-based year.
#[verifier::opaque]
spec fn day_of(doy: int) -> int {
    doy - (mp_of(doy) * 153 + 2) / 5 + 1
}

/// Whether the month counted from March (`mp`) has 30 days.
spec fn short_month(mp: int) -> bool {
    mp == 1 || mp == 3 || mp == 6 || mp == 8
}

pub(crate) proof fn lemma_div_bounds(x: int, d: int)
    requires
        0 <= x,
        0 < d,
    ensures
        0 <= x / d,
        (x / d) * d <= x,
        x < (x / d) * d + d,
{
    vstd::arithmetic::div_mod::lemma_fundamental_div_mod(x, d);
    vstd::arithmetic::div_mod::lemma_mod_pos_bound(x, d);
    vstd::arithmetic::div_mod::lemma_div_pos_is_pos(x, d);
    assert((x / d) * d == d * (x / d)) by (nonlinear_arith);
}

proof fn lemma_era_parts(doe: int)
    requires
        0 <= doe < 146097,
    ensures
        0 <= yoe_of(doe) <= 399,
        0 <= doy_of(doe) <= 365,
        doy_of(doe) == 365 ==> is_leap(yoe_of(doe) + 1),
{
    let a = doe / 1460;
    let b = doe / 36524;
    let c = doe / 146096;
    let yoe = (doe - a + b - c) / 365;
    let e = yoe / 4;
    let f = yoe / 100;
    let doy = doe - (yoe * 365 + e - f);
    lemma_div_bounds(doe, 1460);
    lemma_div_bounds(doe, 36524);
    lemma_div_bounds(doe, 146096);
    assert(0 <= a <= 100 && 0 <= b <= 4 && 0 <= c <= 1);
    lemma_div_bounds(doe - a + b - c, 365);
    assert(0 <= yoe <= 402);
    lemma_div_bounds(yoe, 4);
    lemma_div_bounds(yoe, 100);
    assert(yoe == yoe_of(doe) && doy == doy_of(doe)) by {
        reveal(yoe_of);
        reveal(doy_of);
    }
    lemma_doe_valid(doe as u32, a as u32, b as u32, c as u32, yoe as u32, e as u32, f as u32, doy as u32);
}

proof fn lemma_doy_parts(doy: int)
    requires
        0 <= doy <= 365,
    ensures
        0 <= mp_of(doy) <= 11,
        1 <= day_of(doy) <= 31,
        short_month(mp_of(doy)) ==> day_of(doy) <= 30,
        mp_of(doy) == 11 ==> day_of(doy) <= 29,
        day_of(doy) == 29 && mp_of(doy) == 11 ==> doy == 365,
        mp_of(doy) >= 10 <==> doy >= 306,
        doy >= 337 ==> mp_of(doy) == 11 && day_of(doy) + 336 == doy,
{
    let mp = (doy * 5 + 2) / 153;
    let q = (mp * 153 + 2) / 5;
    let d = doy - q + 1;
    assert(mp == mp_of(doy) && d == day_of(doy)) by {
        reveal(mp_of);
        reveal(day_of);
    }
    assert(0 <= mp <= 12);
    lemma_doy_valid(doy as u32, mp as u32, q as u32, d as u32);
}

proof fn lemma_doy_next(doy: int)
    requires
        0 <= doy < 365,
    ensures
        mp_of(doy + 1) == mp_of(doy) ==> day_of(doy + 1) == day_of(doy) + 1,
        mp_of(doy + 1) != mp_of(doy) ==> mp_of(doy + 1) == mp_of(doy) + 1 && day_of(doy + 1) == 1 && (
        day_of(doy) == 31 || (day_of(doy) == 30 && short_month(mp_of(doy)))),
{
    let mp = (doy * 5 + 2) / 153;
    let q = (mp * 153 + 2) / 5;
    let d = doy - q + 1;
    let mp2 = ((doy + 1) * 5 + 2) / 153;
    let q2 = (mp2 * 153 + 2) / 5;
    let d2 = (doy + 1) - q2 + 1;
    assert(mp == mp_of(doy) && d == day_of(doy) && mp2 == mp_of(doy + 1) && d2 == day_of(doy + 1)) by {
        reveal(mp_of);
        reveal(day_of);
    }
    assert(0 <= mp <= 12 && 0 <= mp2 <= 12);
    lemma_doy_step(doy as u32, mp as u32, q as u32, d as u32, mp2 as u32, q2 as u32, d2 as u32);
}

#[verifier::spinoff_prover]
#[verifier::rlimit(100)]
proof fn lemma_era_next(doe: int)
    requires
        0 <= doe < 146096,
    ensures
        yoe_of(doe + 1) == yoe_of(doe) ==> doy_of(doe + 1) == doy_of(doe) + 1,
        yoe_of(doe + 1) != yoe_of(doe) ==> yoe_of(doe + 1) == yoe_of(doe) + 1 && doy_of(doe + 1) == 0
            && (doy_of(doe) == 365 || (doy_of(doe) == 364 && !is_leap(yoe_of(doe) + 1))),
{
    let a = doe / 1460;
    let b = doe / 36524;
    let c = doe / 146096;
    let yoe = (doe - a + b - c) / 365;
    let e = yoe / 4;
    let f = yoe / 100;
    let doy = doe - (yoe * 365 + e - f);
    let d1 = doe + 1;
    let a2 = d1 / 1460;
    let b2 = d1 / 36524;
    let c2 = d1 / 146096;
    let yoe2 = (d1 - a2 + b2 - c2) / 365;
    let e2 = yoe2 / 4;
    let f2 = yoe2 / 100;
    let doy2 = d1 - (yoe2 * 365 + e2 - f2);
    lemma_div_bounds(doe, 1460);
    lemma_div_bounds(doe, 36524);
    lemma_div_bounds(doe, 146096);
    lemma_div_bounds(d1, 1460);
    lemma_div_bounds(d1, 36524);
    lemma_div_bounds(d1, 146096);
    assert(0 <= a <= 100 && 0 <= b <= 4 && 0 <= c <= 1);
    assert(0 <= a2 <= 100 && 0 <= b2 <= 4 && 0 <= c2 <= 1);
    lemma_div_bounds(doe - a + b - c, 365);
    lemma_div_bounds(d1 - a2 + b2 - c2, 365);
    assert(0 <= yoe <= 402 && 0 <= yoe2 <= 402);
    lemma_era_parts(doe);
    lemma_era_parts(d1);
    lemma_div_bounds(yoe, 4);
    lemma_div_bounds(yoe, 100);
    lemma_div_bounds(yoe2, 4);
    lemma_div_bounds(yoe2, 100);
    assert(yoe == yoe_of(doe) && doy == doy_of(doe)) by {
        reveal(yoe_of);
        reveal(doy_of);
    }
    assert(yoe2 == yoe_of(doe + 1) && doy2 == doy_of(doe + 1)) by {
        reveal(yoe_of);
        reveal(doy_of);
    }
    lemma_doe_step(
        doe as u32,
        a as u32,
        b as u32,
        c as u32,
        yoe as u32,
        e as u32,
        f as u32,
        doy as u32,
        a2 as u32,
        b2 as u32,
        c2 as u32,
        yoe2 as u32,
        e2 as u32,
        f2 as u32,
        doy2 as u32,
    );
}

/// Year, month and day of day `doe` of era `era`, as `civil_from_days` computes them.
spec fn civil_parts(era: int, doe: int) -> (int, int, int) {
    let yoe = yoe_of(doe);
    let mp = mp_of(doy_of(doe));
    let d = day_of(doy_of(doe));
    let m = if mp < 10 {
        mp + 3
    } else {
        mp - 9
    };
    (if m <= 2 {
        yoe + era * 400 + 1
    } else {
        yoe + era * 400
    }, m, d)
}

proof fn lemma_civil_parts(n: u64)
    requires
        n <= u64::MAX - 719468,
    ensures
        ({
            let (y, m, d) = civil_from_days(n);
            let z = n + 719468;
            (y as int, m as int, d as int) == civil_parts(z / 146097, z % 146097)
        }),
        0 <= (n + 719468) / 146097,
        0 <= (n + 719468) % 146097 < 146097,
{
    let z = n + 719468;
    let era = z / 146097;
    let doe = z % 146097;
    lemma_div_bounds(z, 146097);
    vstd::arithmetic::div_mod::lemma_mod_pos_bound(z, 146097);
    assert(era * 400 <= z) by (nonlinear_arith)
        requires
            era * 146097 <= z,
            0 <= era,
    ;
    lemma_era_parts(doe);
    lemma_doy_parts(doy_of(doe));
    reveal(yoe_of);
    reveal(doy_of);
    reveal(mp_of);
    reveal(day_of);
}

proof fn lemma_civil_valid(era: int, doe: int)
    requires
        0 <= era,
        0 <= doe < 146097,
    ensures
        ({
            let (y, m, d) = civil_parts(era, doe);
            1 <= m <= 12 && 1 <= d <= days_in_month(y, m)
        }),
{
    lemma_era_parts(doe);
    lemma_doy_parts(doy_of(doe));
    lemma_leap_shift(yoe_of(doe) + 1, era);
}

proof fn lemma_civil_step(era: int, doe: int)
    requires
        0 <= era,
        0 <= doe < 146096,
    ensures
        ({
            let (y, m, d) = civil_parts(era, doe);
            civil_parts(era, doe + 1) == next_day(y, m, d)
        }),
{
    lemma_civil_valid(era, doe);
    lemma_civil_valid(era, doe + 1);
    lemma_era_parts(doe);
    lemma_era_parts(doe + 1);
    lemma_era_next(doe);
    lemma_doy_parts(doy_of(doe));
    lemma_doy_parts(doy_of(doe + 1));
    lemma_leap_shift(yoe_of(doe) + 1, era);
    if yoe_of(doe + 1) == yoe_of(doe) {
        lemma_doy_next(doy_of(doe));
    } else {
        assert(mp_of(0) == 0 && day_of(0) == 1) by {
            reveal(mp_of);
            reveal(day_of);
        }
    }
}

proof fn lemma_civil_era_end(era: int)
    requires
        0 <= era,
    ensures
        ({
            let (y, m, d) = civil_parts(era, 146096);
            civil_parts(era + 1, 0) == next_day(y, m, d)
        }),
{
    assert(yoe_of(146096) == 399 && doy_of(146096) == 365) by {
        reveal(yoe_of);
        reveal(doy_of);
    }
    assert(yoe_of(0) == 0 && doy_of(0) == 0) by {
        reveal(yoe_of);
        reveal(doy_of);
    }
    assert(mp_of(365) == 11 && day_of(365) == 29 && mp_of(0) == 0 && day_of(0) == 1) by {
        reveal(mp_of);
        reveal(day_of);
    }
    lemma_leap_shift(0, era + 1);
    assert(399 + era * 400 + 1 == 0 + (era + 1) * 400) by (nonlinear_arith);
}

/// `days_to_ymd` follows the Gregorian calendar: the month is one of the twelve, the day
/// exists in that month of that year (29 February only in leap years), and the next day
/// count gives the next calendar day.
pub proof fn law_days_to_ymd_calendar(n: u64)
    requires
        n < u64::MAX - 719468,
    ensures
        ({
            let (y, m, d) = civil_from_days(n);
            1 <= m <= 12 && 1 <= d <= days_in_month(y as int, m as int)
        }),
        ({
            let (y, m, d) = civil_from_days(n);
            let (y2, m2, d2) = civil_from_days((n + 1) as u64);
            (y2 as int, m2 as int, d2 as int) == next_day(y as int, m as int, d as int)
        }),
{
    let z = n + 719468;
    let era = z / 146097;
    let doe = z % 146097;
    lemma_civil_parts(n);
    lemma_civil_parts((n + 1) as u64);
    lemma_civil_valid(era, doe);
    vstd::arithmetic::div_mod::lemma_fundamental_div_mod(z, 146097);
    if doe < 146096 {
        vstd::arithmetic::div_mod::lemma_fundamental_div_mod_converse(z + 1, 146097, era, doe + 1);
        lemma_civil_step(era, doe);
    } else {
        assert(z + 1 == (era + 1) * 146097 + 0) by (nonlinear_arith)
            requires
                z == 146097 * era + doe,
                doe == 146096,
        ;
        vstd::arithmetic::div_mod::lemma_fundamental_div_mod_converse(z + 1, 146097, era + 1, 0);
        lemma_civil_era_end(era);
    }
}

} // verus!
