//! Character-level text utilities shared by the other modules.

use vstd::prelude::*;

verus! {

/// Appends one character to a `String` (std's `String::push`).
#[verifier::external_body]
pub(crate) fn push_char(s: &mut String, c: char)
    ensures
        final(s)@ == old(s)@.push(c),
{
    s.push(c);
}

/// The characters of a string slice, in order.
pub fn chars_of(s: &str) -> (v: Vec<char>)
    ensures
        v@ == s@,
{
    let mut v: Vec<char> = Vec::new();
    for c in it: s.chars()
        invariant
            v.len() == it.index(),
            it.seq() == s@,
            forall|i: int| 0 <= i < v.len() ==> v@[i] == s@[i],
    {
        v.push(c);
    }
    assert(v@ =~= s@);
    v
}

/// Builds a `String` from a sequence of characters.
pub fn string_of(v: &Vec<char>) -> (s: String)
    ensures
        s@ == v@,
{
    let mut s = String::new();
    let n = v.len();
    for i in 0..n
        invariant
            n == v.len(),
            s@ == v@.subrange(0, i as int),
    {
        push_char(&mut s, v[i]);
        assert(v@.subrange(0, i + 1) == v@.subrange(0, i as int).push(v@[i as int]));
    }
    assert(v@.subrange(0, n as int) == v@);
    s
}

} // verus!

verus! {

// ── Character classes ──────────────────────────────────────────────

/// Unicode `White_Space` property (what `char::is_whitespace` and `str::trim` use).
pub open spec fn is_ws(c: char) -> bool {
    ||| ('\u{9}' <= c && c <= '\u{d}')
    ||| c == ' '
    ||| c == '\u{85}'
    ||| c == '\u{a0}'
    ||| c == '\u{1680}'
    ||| ('\u{2000}' <= c && c <= '\u{200a}')
    ||| c == '\u{2028}'
    ||| c == '\u{2029}'
    ||| c == '\u{202f}'
    ||| c == '\u{205f}'
    ||| c == '\u{3000}'
}

pub fn is_whitespace(c: char) -> (b: bool)
    ensures
        b == is_ws(c),
{
    ('\u{9}' <= c && c <= '\u{d}') || c == ' ' || c == '\u{85}' || c == '\u{a0}' || c == '\u{1680}'
        || ('\u{2000}' <= c && c <= '\u{200a}') || c == '\u{2028}' || c == '\u{2029}'
        || c == '\u{202f}' || c == '\u{205f}' || c == '\u{3000}'
}

/// Unicode general category `Cc` (what `char::is_control` tests).
pub open spec fn is_ctrl(c: char) -> bool {
    c <= '\u{1f}' || ('\u{7f}' <= c && c <= '\u{9f}')
}

pub fn is_control(c: char) -> (b: bool)
    ensures
        b == is_ctrl(c),
{
    c <= '\u{1f}' || ('\u{7f}' <= c && c <= '\u{9f}')
}

pub open spec fn is_digit(c: char) -> bool {
    '0' <= c && c <= '9'
}

pub open spec fn is_hex_digit(c: char) -> bool {
    ||| ('0' <= c && c <= '9')
    ||| ('a' <= c && c <= 'f')
    ||| ('A' <= c && c <= 'F')
}

/// `char::to_ascii_lowercase`.
pub open spec fn ascii_lower(c: char) -> char {
    if 'A' <= c && c <= 'Z' {
        ((c as u32) + 32) as char
    } else {
        c
    }
}

pub fn to_ascii_lower(c: char) -> (r: char)
    ensures
        r == ascii_lower(c),
{
    if 'A' <= c && c <= 'Z' {
        let u: u32 = (c as u32) + 32;
        assert(0x61 <= u <= 0x7a);
        char_from_ascii(u)
    } else {
        c
    }
}

/// Converts a code point below 0x80 to its `char`.
fn char_from_ascii(u: u32) -> (c: char)
    requires
        u < 0x80,
    ensures
        c == u as char,
        c as u32 == u,
{
    let b: u8 = u as u8;
    b as char
}

pub open spec fn seq_ascii_lower(s: Seq<char>) -> Seq<char> {
    s.map_values(|c: char| ascii_lower(c))
}

// ── Decimal and hexadecimal rendering ─────────────────────────────

pub open spec fn digit_char(d: nat) -> char {
    if d < 10 {
        ((d + 48) as u32) as char
    } else {
        ((d + 55) as u32) as char
    }
}

/// Decimal digits of `n` (no sign, no padding), as `{}` renders an unsigned integer.
pub open spec fn dec(n: nat) -> Seq<char>
    decreases n,
{
    if n < 10 {
        seq![digit_char(n)]
    } else {
        dec(n / 10).push(digit_char(n % 10))
    }
}

/// Upper-case hexadecimal digits of `n`, as `{:X}` renders it.
pub open spec fn hex_upper(n: nat) -> Seq<char>
    decreases n,
{
    if n < 16 {
        seq![digit_char(n)]
    } else {
        hex_upper(n / 16).push(digit_char(n % 16))
    }
}

/// `s` left-padded with `'0'` to at least `width` characters (`{:0w}`).
pub open spec fn zero_pad(s: Seq<char>, width: nat) -> Seq<char> {
    if s.len() < width {
        Seq::new((width - s.len()) as nat, |i: int| '0') + s
    } else {
        s
    }
}

/// Decimal rendering of a signed integer (`{}` on `i32`/`i64`).
pub open spec fn dec_int(n: int) -> Seq<char> {
    if n < 0 {
        seq!['-'] + dec((-n) as nat)
    } else {
        dec(n as nat)
    }
}

fn digit_of(d: u64) -> (c: char)
    requires
        d < 16,
    ensures
        c == digit_char(d as nat),
{
    if d < 10 {
        char_from_ascii((d + 48) as u32)
    } else {
        char_from_ascii((d + 55) as u32)
    }
}

/// Appends the decimal digits of `n`.
pub fn push_dec(out: &mut Vec<char>, n: u64)
    ensures
        final(out)@ == old(out)@ + dec(n as nat),
    decreases n,
{
    if n >= 10 {
        push_dec(out, n / 10);
    }
    let c = digit_of(n % 10);
    out.push(c);
    proof {
        if n >= 10 {
            assert(old(out)@ + dec(n as nat) =~= old(out)@ + dec((n / 10) as nat) + seq![c]);
        } else {
            assert(old(out)@ + dec(n as nat) =~= old(out)@ + seq![c]);
        }
    }
}

/// Appends the upper-case hexadecimal digits of `n`.
pub fn push_hex_upper(out: &mut Vec<char>, n: u64)
    ensures
        final(out)@ == old(out)@ + hex_upper(n as nat),
    decreases n,
{
    if n >= 16 {
        push_hex_upper(out, n / 16);
    }
    let c = digit_of(n % 16);
    out.push(c);
    proof {
        if n >= 16 {
            assert(old(out)@ + hex_upper(n as nat) =~= old(out)@ + hex_upper((n / 16) as nat) + seq![c]);
        } else {
            assert(old(out)@ + hex_upper(n as nat) =~= old(out)@ + seq![c]);
        }
    }
}

pub proof fn lemma_dec_len(n: nat)
    ensures
        dec(n).len() >= 1,
        n < 10 ==> dec(n).len() == 1,
        10 <= n < 100 ==> dec(n).len() == 2,
        100 <= n < 1000 ==> dec(n).len() == 3,
        1000 <= n < 10000 ==> dec(n).len() == 4,
    decreases n,
{
    if n >= 10 {
        lemma_dec_len(n / 10);
    }
}

/// Appends `n` zero-padded to `width` digits.
pub fn push_dec_padded(out: &mut Vec<char>, n: u64, width: usize)
    ensures
        final(out)@ == old(out)@ + zero_pad(dec(n as nat), width as nat),
{
    let mut digits: Vec<char> = Vec::new();
    push_dec(&mut digits, n);
    assert(digits@ =~= dec(n as nat));
    let len = digits.len();
    let ghost start = out@;
    let pad: usize = if len < width {
        width - len
    } else {
        0
    };
    for i in 0..pad
        invariant
            out@ == start + Seq::new(i as nat, |j: int| '0'),
    {
        out.push('0');
        assert(start + Seq::new((i + 1) as nat, |j: int| '0') =~= start + Seq::new(
            i as nat,
            |j: int| '0',
        ).push('0'));
    }
    let ghost mid = out@;
    for k in 0..len
        invariant
            len == digits@.len(),
            out@ == mid + digits@.subrange(0, k as int),
    {
        out.push(digits[k]);
        assert(mid + digits@.subrange(0, k + 1) =~= mid + digits@.subrange(0, k as int).push(digits@[k as int]));
    }
    assert(digits@.subrange(0, len as int) =~= digits@);
    assert(start + zero_pad(dec(n as nat), width as nat) =~= mid + digits@);
}

/// Appends the decimal rendering of a signed integer.
pub fn push_dec_i64(out: &mut Vec<char>, n: i64)
    ensures
        final(out)@ == old(out)@ + dec_int(n as int),
{
    if n < 0 {
        out.push('-');
        let m: u64 = if n == i64::MIN {
            9223372036854775808u64
        } else {
            (-n) as u64
        };
        let ghost mid = out@;
        push_dec(out, m);
        assert(out@ =~= old(out)@ + dec_int(n as int));
    } else {
        push_dec(out, n as u64);
    }
}

// ── Sequence searching ───────────────────────────────────────────

/// First position at or after `i` where `pat` occurs in `s`.
pub open spec fn find_from(s: Seq<char>, pat: Seq<char>, i: int) -> Option<int>
    decreases s.len() as int + 1 - i,
{
    if i < 0 || i + pat.len() > s.len() {
        None
    } else if s.subrange(i, i + pat.len()) == pat {
        Some(i)
    } else {
        find_from(s, pat, i + 1)
    }
}

pub open spec fn find(s: Seq<char>, pat: Seq<char>) -> Option<int> {
    find_from(s, pat, 0)
}

pub proof fn lemma_find_from_bounds(s: Seq<char>, pat: Seq<char>, i: int)
    ensures
        find_from(s, pat, i) matches Some(k) ==> i <= k && k + pat.len() <= s.len()
            && s.subrange(k, k + pat.len()) == pat,
    decreases s.len() as int + 1 - i,
{
    if i < 0 || i + pat.len() > s.len() {
    } else if s.subrange(i, i + pat.len()) == pat {
    } else {
        lemma_find_from_bounds(s, pat, i + 1);
    }
}

/// Whether `v[i..i+pat.len()]` equals `pat`.
pub fn matches_at(v: &Vec<char>, i: usize, pat: &Vec<char>) -> (b: bool)
    requires
        i + pat.len() <= v.len(),
    ensures
        b == (v@.subrange(i as int, i + pat.len()) == pat@),
{
    let n = pat.len();
    let mut j: usize = 0;
    while j < n
        invariant
            i + n <= v.len(),
            n == pat.len(),
            j <= n,
            forall|k: int| 0 <= k < j ==> v@[i + k] == pat@[k],
        decreases n - j,
    {
        if v[i + j] != pat[j] {
            assert(v@.subrange(i as int, i + n)[j as int] != pat@[j as int]);
            return false;
        }
        j += 1;
    }
    assert(v@.subrange(i as int, i + n) =~= pat@);
    true
}

/// Position of the first occurrence of `pat` in `v` (`str::find`).
pub fn find_vec(v: &Vec<char>, pat: &Vec<char>) -> (r: Option<usize>)
    ensures
        r matches Some(k) ==> find(v@, pat@) == Some(k as int) && k + pat.len() <= v.len(),
        r is None ==> find(v@, pat@) is None,
{
    let mut i: usize = 0;
    if pat.len() > v.len() {
        return None;
    }
    let last = v.len() - pat.len();
    loop
        invariant
            last == v.len() - pat.len(),
            pat.len() <= v.len(),
            i <= last,
            find(v@, pat@) == find_from(v@, pat@, i as int),
        decreases last - i,
    {
        if matches_at(v, i, pat) {
            assert(i + pat.len() <= v.len());
            return Some(i);
        }
        if i == last {
            assert(find_from(v@, pat@, i + 1) is None);
            return None;
        }
        i += 1;
    }
}

/// The elements of `v` from `lo` to `hi`.
pub fn slice_vec(v: &Vec<char>, lo: usize, hi: usize) -> (r: Vec<char>)
    requires
        lo <= hi <= v.len(),
    ensures
        r@ == v@.subrange(lo as int, hi as int),
{
    let mut r: Vec<char> = Vec::new();
    let mut i = lo;
    while i < hi
        invariant
            lo <= i <= hi <= v.len(),
            r@ == v@.subrange(lo as int, i as int),
        decreases hi - i,
    {
        r.push(v[i]);
        assert(v@.subrange(lo as int, i + 1) =~= v@.subrange(lo as int, i as int).push(v@[i as int]));
        i += 1;
    }
    r
}

/// `str::split_once`: the parts before and after the first occurrence of `pat`.
pub open spec fn split_once(s: Seq<char>, pat: Seq<char>) -> Option<(Seq<char>, Seq<char>)> {
    match find(s, pat) {
        Some(k) => Some((s.subrange(0, k), s.subrange(k + pat.len(), s.len() as int))),
        None => None,
    }
}

pub fn split_once_vec(v: &Vec<char>, pat: &Vec<char>) -> (r: Option<(Vec<char>, Vec<char>)>)
    ensures
        match split_once(v@, pat@) {
            Some((a, b)) => r matches Some((x, y)) && x@ == a && y@ == b,
            None => r is None,
        },
{
    match find_vec(v, pat) {
        Some(k) => {
            proof {
                lemma_find_from_bounds(v@, pat@, 0);
                assert(k + pat@.len() <= v@.len());
            }
            let a = slice_vec(v, 0, k);
            let b = slice_vec(v, k + pat.len(), v.len());
            Some((a, b))
        },
        None => None,
    }
}

pub open spec fn starts_with(s: Seq<char>, p: Seq<char>) -> bool {
    p.len() <= s.len() && s.subrange(0, p.len() as int) == p
}

pub fn starts_with_vec(v: &Vec<char>, p: &Vec<char>) -> (b: bool)
    ensures
        b == starts_with(v@, p@),
{
    if p.len() > v.len() {
        false
    } else {
        matches_at(v, 0, p)
    }
}

pub open spec fn ends_with(s: Seq<char>, p: Seq<char>) -> bool {
    p.len() <= s.len() && s.subrange(s.len() - p.len(), s.len() as int) == p
}

pub fn ends_with_vec(v: &Vec<char>, p: &Vec<char>) -> (b: bool)
    ensures
        b == ends_with(v@, p@),
{
    if p.len() > v.len() {
        false
    } else {
        matches_at(v, v.len() - p.len(), p)
    }
}

pub fn seq_eq(a: &Vec<char>, b: &Vec<char>) -> (r: bool)
    ensures
        r == (a@ == b@),
{
    if a.len() != b.len() {
        return false;
    }
    let r = matches_at(a, 0, b);
    assert(a@.subrange(0, b.len() as int) =~= a@);
    r
}

// ── Trimming ──────────────────────────────────────────────────────

/// Number of leading characters of `s` satisfying white space.
pub open spec fn lead_ws(s: Seq<char>) -> nat
    decreases s.len(),
{
    if s.len() > 0 && is_ws(s[0]) {
        1 + lead_ws(s.drop_first())
    } else {
        0
    }
}

/// `str::trim_start`.
pub open spec fn trim_start(s: Seq<char>) -> Seq<char>
    decreases s.len(),
{
    if s.len() > 0 && is_ws(s[0]) {
        trim_start(s.drop_first())
    } else {
        s
    }
}

/// `str::trim_end`.
pub open spec fn trim_end(s: Seq<char>) -> Seq<char>
    decreases s.len(),
{
    if s.len() > 0 && is_ws(s.last()) {
        trim_end(s.drop_last())
    } else {
        s
    }
}

/// `str::trim`.
pub open spec fn trim(s: Seq<char>) -> Seq<char> {
    trim_end(trim_start(s))
}

/// `s[lo..]` with leading white space removed is `trim_start(s[lo..])`.
fn skip_ws_front(v: &Vec<char>, lo: usize) -> (k: usize)
    requires
        lo <= v.len(),
    ensures
        lo <= k <= v.len(),
        trim_start(v@.subrange(lo as int, v.len() as int)) == v@.subrange(k as int, v.len() as int),
{
    let mut k = lo;
    while k < v.len() && is_whitespace(v[k])
        invariant
            lo <= k <= v.len(),
            trim_start(v@.subrange(lo as int, v.len() as int)) == trim_start(
                v@.subrange(k as int, v.len() as int),
            ),
        decreases v.len() - k,
    {
        assert(v@.subrange(k as int, v.len() as int).drop_first() =~= v@.subrange(
            k + 1,
            v.len() as int,
        ));
        k += 1;
    }
    k
}

fn skip_ws_back(v: &Vec<char>, lo: usize, hi: usize) -> (k: usize)
    requires
        lo <= hi <= v.len(),
    ensures
        lo <= k <= hi,
        trim_end(v@.subrange(lo as int, hi as int)) == v@.subrange(lo as int, k as int),
{
    let mut k = hi;
    while k > lo && is_whitespace(v[k - 1])
        invariant
            lo <= k <= hi <= v.len(),
            trim_end(v@.subrange(lo as int, hi as int)) == trim_end(
                v@.subrange(lo as int, k as int),
            ),
        decreases k - lo,
    {
        assert(v@.subrange(lo as int, k as int).drop_last() =~= v@.subrange(lo as int, k - 1));
        k -= 1;
    }
    k
}

pub fn trim_vec(v: &Vec<char>) -> (r: Vec<char>)
    ensures
        r@ == trim(v@),
{
    let a = skip_ws_front(v, 0);
    let b = skip_ws_back(v, a, v.len());
    assert(v@.subrange(0, v.len() as int) =~= v@);
    slice_vec(v, a, b)
}

// ── Integer parsing (`str::parse` for integer types) ────────────────

/// Value of a run of decimal digits.
pub open spec fn digits_value(s: Seq<char>) -> nat
    decreases s.len(),
{
    if s.len() == 0 {
        0
    } else {
        digits_value(s.drop_last()) * 10 + ((s.last() as u32) - 48) as nat
    }
}

pub open spec fn all_digits(s: Seq<char>) -> bool {
    forall|i: int| 0 <= i < s.len() ==> is_digit(#[trigger] s[i])
}

/// What `str::parse` yields for an integer type whose values are `lo..=hi`
/// (`signed` tells whether a leading `-` is allowed).
pub open spec fn parse_int(s: Seq<char>, signed: bool, lo: int, hi: int) -> Option<int> {
    if s.len() == 0 {
        None
    } else if (s[0] == '+' || s[0] == '-') && s.len() == 1 {
        None
    } else if s[0] == '-' && signed {
        let d = s.drop_first();
        if all_digits(d) && -(digits_value(d) as int) >= lo {
            Some(-(digits_value(d) as int))
        } else {
            None
        }
    } else {
        let d = if s[0] == '+' {
            s.drop_first()
        } else {
            s
        };
        if all_digits(d) && digits_value(d) <= hi {
            Some(digits_value(d) as int)
        } else {
            None
        }
    }
}

/// Digits of `v[lo..]` read as a number, when all are digits and the value is at most `cap`.
fn read_digits(v: &Vec<char>, lo: usize, cap: u64) -> (r: Option<u64>)
    requires
        lo <= v.len(),
        cap >= 9,
    ensures
        ({
            let d = v@.subrange(lo as int, v.len() as int);
            match r {
                Some(x) => all_digits(d) && digits_value(d) == x && x <= cap,
                None => !all_digits(d) || digits_value(d) > cap,
            }
        }),
{
    let mut acc: u64 = 0;
    let mut i = lo;
    while i < v.len()
        invariant
            lo <= i <= v.len(),
            all_digits(v@.subrange(lo as int, i as int)),
            digits_value(v@.subrange(lo as int, i as int)) == acc,
            acc <= cap,
            cap >= 9,
        decreases v.len() - i,
    {
        let c = v[i];
        let ghost pre = v@.subrange(lo as int, i as int);
        let ghost nxt = v@.subrange(lo as int, i + 1);
        assert(nxt.drop_last() =~= pre);
        assert(nxt.last() == c);
        if !('0' <= c && c <= '9') {
            proof {
                lemma_not_all_digits_extends(v@, lo as int, i as int);
            }
            return None;
        }
        let d: u64 = (c as u32 - 48) as u64;
        assert(forall|k: int| 0 <= k < nxt.len() ==> is_digit(#[trigger] nxt[k])) by {
            assert forall|k: int| 0 <= k < nxt.len() implies is_digit(#[trigger] nxt[k]) by {
                if k < pre.len() {
                    assert(nxt[k] == pre[k]);
                }
            }
        }
        if acc > (cap - d) / 10 {
            proof {
                assert(digits_value(nxt) == acc * 10 + d);
                assert(acc * 10 + d > cap) by (nonlinear_arith)
                    requires
                        acc > (cap - d) / 10,
                        d <= 9,
                        d <= cap || true,
                ;
                if all_digits(v@.subrange(lo as int, v.len() as int)) {
                    lemma_digits_value_grows(v@, lo as int, i + 1);
                }
            }
            return None;
        }
        proof {
            assert(acc * 10 + d <= cap) by (nonlinear_arith)
                requires
                    acc <= (cap - d) / 10,
                    d <= cap,
            ;
        }
        acc = acc * 10 + d;
        i += 1;
    }
    Some(acc)
}

proof fn lemma_not_all_digits_extends(s: Seq<char>, lo: int, i: int)
    requires
        0 <= lo <= i < s.len(),
        !is_digit(s[i]),
    ensures
        !all_digits(s.subrange(lo, s.len() as int)),
{
    assert(s.subrange(lo, s.len() as int)[i - lo] == s[i]);
}

proof fn lemma_digits_value_grows(s: Seq<char>, lo: int, i: int)
    requires
        0 <= lo <= i <= s.len(),
        all_digits(s.subrange(lo, s.len() as int)),
    ensures
        digits_value(s.subrange(lo, s.len() as int)) >= digits_value(s.subrange(lo, i)),
    decreases s.len() - i,
{
    if i < s.len() {
        lemma_digits_value_grows(s, lo, i + 1);
        let t = s.subrange(lo, i + 1);
        assert(t.drop_last() =~= s.subrange(lo, i));
        assert(s.subrange(lo, s.len() as int)[i - lo] == s[i]);
    } else {
        assert(s.subrange(lo, i) =~= s.subrange(lo, s.len() as int));
    }
}

/// `str::parse::<u64>`.
pub fn parse_u64(v: &Vec<char>) -> (r: Option<u64>)
    ensures
        match parse_int(v@, false, 0, u64::MAX as int) {
            Some(x) => r == Some(x as u64),
            None => r is None,
        },
{
    if v.len() == 0 {
        return None;
    }
    if (v[0] == '+' || v[0] == '-') && v.len() == 1 {
        return None;
    }
    let lo: usize = if v[0] == '+' {
        1
    } else {
        0
    };
    assert(v@.subrange(1, v.len() as int) =~= v@.drop_first());
    assert(v@.subrange(0, v.len() as int) =~= v@);
    read_digits(v, lo, u64::MAX)
}

/// `str::parse::<i32>`.
pub fn parse_i32(v: &Vec<char>) -> (r: Option<i32>)
    ensures
        match parse_int(v@, true, i32::MIN as int, i32::MAX as int) {
            Some(x) => r == Some(x as i32),
            None => r is None,
        },
{
    if v.len() == 0 {
        return None;
    }
    if (v[0] == '+' || v[0] == '-') && v.len() == 1 {
        return None;
    }
    assert(v@.subrange(1, v.len() as int) =~= v@.drop_first());
    assert(v@.subrange(0, v.len() as int) =~= v@);
    if v[0] == '-' {
        match read_digits(v, 1, 2147483648) {
            Some(m) => Some((0 - (m as i64)) as i32),
            None => None,
        }
    } else {
        let lo: usize = if v[0] == '+' {
            1
        } else {
            0
        };
        match read_digits(v, lo, 2147483647) {
            Some(m) => Some(m as i32),
            None => None,
        }
    }
}

// ── Lexicographic order (the order of `String`'s `Ord`) ─────────────

/// `a <= b` in code-point lexicographic order, which is the byte order of
/// the UTF-8 encodings that `String::cmp` compares.
pub open spec fn lex_le(a: Seq<char>, b: Seq<char>) -> bool
    decreases a.len(),
{
    if a.len() == 0 {
        true
    } else if b.len() == 0 {
        false
    } else if a[0] != b[0] {
        a[0] < b[0]
    } else {
        lex_le(a.drop_first(), b.drop_first())
    }
}

pub proof fn lemma_lex_total(a: Seq<char>, b: Seq<char>)
    ensures
        lex_le(a, b) || lex_le(b, a),
    decreases a.len(),
{
    if a.len() > 0 && b.len() > 0 && a[0] == b[0] {
        lemma_lex_total(a.drop_first(), b.drop_first());
    }
}

pub proof fn lemma_lex_trans(a: Seq<char>, b: Seq<char>, c: Seq<char>)
    requires
        lex_le(a, b),
        lex_le(b, c),
    ensures
        lex_le(a, c),
    decreases a.len(),
{
    if a.len() > 0 && b.len() > 0 && c.len() > 0 && a[0] == b[0] && b[0] == c[0] {
        lemma_lex_trans(a.drop_first(), b.drop_first(), c.drop_first());
    }
}

/// `lex_le(a, b)` computed.
pub fn lex_le_vec(a: &Vec<char>, b: &Vec<char>) -> (r: bool)
    ensures
        r == lex_le(a@, b@),
{
    let mut i: usize = 0;
    assert(a@.subrange(0, a.len() as int) =~= a@);
    assert(b@.subrange(0, b.len() as int) =~= b@);
    while i < a.len() && i < b.len() && a[i] == b[i]
        invariant
            i <= a.len(),
            i <= b.len(),
            lex_le(a@, b@) == lex_le(a@.subrange(i as int, a.len() as int), b@.subrange(
                i as int,
                b.len() as int,
            )),
        decreases a.len() - i,
    {
        let ghost sa = a@.subrange(i as int, a.len() as int);
        let ghost sb = b@.subrange(i as int, b.len() as int);
        assert(sa.drop_first() =~= a@.subrange(i + 1, a.len() as int));
        assert(sb.drop_first() =~= b@.subrange(i + 1, b.len() as int));
        i += 1;
    }
    let ghost sa = a@.subrange(i as int, a.len() as int);
    let ghost sb = b@.subrange(i as int, b.len() as int);
    if i == a.len() {
        true
    } else if i == b.len() {
        false
    } else {
        assert(sa[0] == a@[i as int] && sb[0] == b@[i as int]);
        a[i] < b[i]
    }
}

// ── Facts about rendered numbers ─────────────────────────────────

pub proof fn lemma_digit_char(d: nat)
    requires
        d < 10,
    ensures
        is_digit(digit_char(d)),
        (digit_char(d) as u32) - 48 == d,
{
    let u = (d + 48) as u32;
    assert(48 <= u <= 57);
    assert(u as char as u32 == u);
}

/// `dec(n)` is all digits and reads back as `n`.
pub proof fn lemma_dec_digits(n: nat)
    ensures
        all_digits(dec(n)),
        digits_value(dec(n)) == n,
        dec(n).len() >= 1,
    decreases n,
{
    lemma_digit_char(n % 10);
    if n < 10 {
        let d = dec(n);
        assert(d.drop_last() =~= Seq::<char>::empty());
        assert(d.last() == digit_char(n));
        assert(digits_value(d) == digits_value(d.drop_last()) * 10 + ((d.last() as u32) - 48) as nat);
        assert(digits_value(Seq::<char>::empty()) == 0);
    } else {
        lemma_dec_digits(n / 10);
        let d = dec(n);
        assert(d.drop_last() =~= dec(n / 10));
        assert forall|i: int| 0 <= i < d.len() implies is_digit(#[trigger] d[i]) by {
            if i < d.len() - 1 {
                assert(d[i] == dec(n / 10)[i]);
            }
        }
        assert(d.last() == digit_char(n % 10));
        assert(digits_value(d) == digits_value(d.drop_last()) * 10 + ((d.last() as u32) - 48) as nat);
        assert(digits_value(d) == (n / 10) * 10 + n % 10);
        assert((n / 10) * 10 + n % 10 == n);
    }
}

/// A leading zero does not change the value of a digit string.
pub proof fn lemma_leading_zero(d: Seq<char>)
    requires
        all_digits(d),
    ensures
        all_digits(seq!['0'] + d),
        digits_value(seq!['0'] + d) == digits_value(d),
    decreases d.len(),
{
    let z = seq!['0'] + d;
    assert forall|i: int| 0 <= i < z.len() implies is_digit(#[trigger] z[i]) by {
        if i > 0 {
            assert(z[i] == d[i - 1]);
        }
    }
    if d.len() == 0 {
        assert(z.drop_last() =~= Seq::<char>::empty());
        assert(('0' as u32) == 48);
        assert(z.last() == '0');
        assert(digits_value(z) == digits_value(z.drop_last()) * 10 + ((z.last() as u32) - 48) as nat);
        assert(digits_value(Seq::<char>::empty()) == 0);
        assert(digits_value(d) == 0);
    } else {
        assert(all_digits(d.drop_last())) by {
            assert forall|i: int| 0 <= i < d.drop_last().len() implies is_digit(#[trigger] d.drop_last()[i]) by {
                assert(d.drop_last()[i] == d[i]);
            }
        }
        lemma_leading_zero(d.drop_last());
        assert(z.drop_last() =~= seq!['0'] + d.drop_last());
        assert(z.last() == d.last());
        assert(digits_value(z) == digits_value(z.drop_last()) * 10 + ((z.last() as u32) - 48) as nat);
        assert(digits_value(d) == digits_value(d.drop_last()) * 10 + ((d.last() as u32) - 48) as nat);
    }
}

/// The two-digit zero-padded rendering of `n < 100` reads back as `n`.
pub proof fn lemma_pad2_digits(n: nat)
    requires
        n < 100,
    ensures
        all_digits(zero_pad(dec(n), 2)),
        digits_value(zero_pad(dec(n), 2)) == n,
        zero_pad(dec(n), 2).len() >= 1,
        is_digit(zero_pad(dec(n), 2)[0]),
{
    lemma_dec_digits(n);
    lemma_dec_len(n);
    if n < 10 {
        assert(zero_pad(dec(n), 2) =~= seq!['0'] + dec(n));
        lemma_leading_zero(dec(n));
    }
    assert(is_digit(zero_pad(dec(n), 2)[0]));
}

/// An all-digit string with a digit first parses as its value (when in range).
pub proof fn lemma_parse_digits(s: Seq<char>, hi: int)
    requires
        s.len() >= 1,
        all_digits(s),
        digits_value(s) <= hi,
    ensures
        parse_int(s, false, 0, hi) == Some(digits_value(s) as int),
{
    assert(is_digit(s[0]));
}

/// `find` of a one-character pattern stops at the first occurrence.
pub proof fn lemma_find_char(s: Seq<char>, c: char, i: int, j: int)
    requires
        0 <= i <= j < s.len(),
        s[j] == c,
        forall|k: int| i <= k < j ==> s[k] != c,
    ensures
        find_from(s, seq![c], i) == Some(j),
    decreases j - i,
{
    if i < j {
        assert(s.subrange(i, i + 1) != seq![c]) by {
            assert(s.subrange(i, i + 1)[0] == s[i]);
        }
        lemma_find_char(s, c, i + 1, j);
    } else {
        assert(s.subrange(i, i + 1) =~= seq![c]);
    }
}

/// A one-character pattern absent from `s` is not found.
pub proof fn lemma_find_char_none(s: Seq<char>, c: char, i: int)
    requires
        0 <= i,
        forall|k: int| i <= k < s.len() ==> s[k] != c,
    ensures
        find_from(s, seq![c], i) is None,
    decreases s.len() + 1 - i,
{
    if i + 1 <= s.len() {
        assert(s.subrange(i, i + 1) != seq![c]) by {
            assert(s.subrange(i, i + 1)[0] == s[i]);
        }
        lemma_find_char_none(s, c, i + 1);
    }
}

} // verus!
