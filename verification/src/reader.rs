//! Pure helpers of the game data reader: quest-time rendering, move-name
//! clean-up and the quest timer cap.

use vstd::prelude::*;
use crate::text::{chars_of, dec, push_dec, push_dec_padded, string_of, zero_pad};

verus! {

/// `M'SS'CC` (minutes, seconds, centiseconds) of a duration in milliseconds.
pub open spec fn quest_time_spec(ms: u64) -> Seq<char> {
    let cs = ms / 10;
    dec((cs / 6000) as nat) + seq!['\''] + zero_pad(dec(((cs / 100) % 60) as nat), 2) + seq!['\'']
        + zero_pad(dec((cs % 100) as nat), 2)
}

/// Renders a quest time as `M'SS'CC` (minutes, seconds, centiseconds).
pub fn format_quest_time(ms: u64) -> (s: String)
    ensures
        s@ == quest_time_spec(ms),
{
    let mut v: Vec<char> = Vec::new();
    push_quest_time(&mut v, ms);
    string_of(&v)
}

pub fn push_quest_time(v: &mut Vec<char>, ms: u64)
    ensures
        final(v)@ == old(v)@ + quest_time_spec(ms),
{
    let cs = ms / 10;
    push_dec(v, cs / 6000);
    v.push('\'');
    push_dec_padded(v, (cs / 100) % 60, 2);
    v.push('\'');
    push_dec_padded(v, cs % 100, 2);
    assert(v@ =~= old(v)@ + quest_time_spec(ms));
}

/// Unicode `Uppercase` property of a character (`char::is_uppercase`).
pub uninterp spec fn char_is_uppercase(c: char) -> bool;

/// Whether `c` has the Unicode `Uppercase` property (std's `char::is_uppercase`).
#[verifier::external_body]
fn is_uppercase(c: char) -> (b: bool)
    ensures
        b == char_is_uppercase(c),
{
    c.is_uppercase()
}

/// Text before the first `c` (the first piece of `split(c)`).
pub open spec fn before_first(s: Seq<char>, c: char) -> Seq<char>
    decreases s.len(),
{
    if s.len() == 0 {
        s
    } else if s[0] == c {
        Seq::empty()
    } else {
        seq![s[0]] + before_first(s.drop_first(), c)
    }
}

/// Text after the last `c` (the last piece of `split(c)`).
pub open spec fn after_last(s: Seq<char>, c: char) -> Seq<char>
    decreases s.len(),
{
    if s.len() == 0 {
        s
    } else if s.last() == c {
        Seq::empty()
    } else {
        after_last(s.drop_last(), c).push(s.last())
    }
}

/// Each upper-case character after the first preceded by a space.
pub open spec fn spaced_words(s: Seq<char>) -> Seq<char>
    decreases s.len(),
{
    if s.len() == 0 {
        s
    } else if s.len() > 1 && char_is_uppercase(s.last()) {
        spaced_words(s.drop_last()) + seq![' ', s.last()]
    } else {
        spaced_words(s.drop_last()).push(s.last())
    }
}

/// Readable move name of a raw in-game move string such as
/// `em001:em001Action<...>`: the part after the last `:` of the text before
/// the first `<`, with words split at upper-case letters; `None` when empty.
pub open spec fn sanitize_spec(raw: Seq<char>) -> Option<Seq<char>> {
    let name = after_last(before_first(raw, '<'), ':');
    if name.len() == 0 {
        None
    } else {
        Some(spaced_words(name))
    }
}

fn before_first_vec(v: &Vec<char>, c: char) -> (r: Vec<char>)
    ensures
        r@ == before_first(v@, c),
{
    let mut r: Vec<char> = Vec::new();
    let mut i: usize = 0;
    assert(v@.subrange(0, v.len() as int) =~= v@);
    assert(r@ + v@ =~= v@);
    while i < v.len() && v[i] != c
        invariant
            i <= v.len(),
            forall|k: int| 0 <= k < i ==> v@[k] != c,
            r@ + before_first(v@.subrange(i as int, v.len() as int), c) == before_first(v@, c),
        decreases v.len() - i,
    {
        let ghost rest = v@.subrange(i as int, v.len() as int);
        assert(rest.drop_first() =~= v@.subrange(i + 1, v.len() as int));
        assert(r@.push(v@[i as int]) + before_first(rest.drop_first(), c) =~= r@ + before_first(rest, c));
        r.push(v[i]);
        i += 1;
    }
    proof {
        let rest = v@.subrange(i as int, v.len() as int);
        assert(before_first(rest, c) =~= Seq::<char>::empty());
        assert(r@ + Seq::<char>::empty() =~= r@);
    }
    r
}

fn after_last_vec(v: &Vec<char>, c: char) -> (r: Vec<char>)
    ensures
        r@ == after_last(v@, c),
{
    let mut i = v.len();
    assert(v@.subrange(0, v.len() as int) =~= v@);
    assert(v@ + v@.subrange(v.len() as int, v.len() as int) =~= v@);
    while i > 0 && v[i - 1] != c
        invariant
            i <= v.len(),
            after_last(v@, c) == after_last(v@.subrange(0, i as int), c) + v@.subrange(
                i as int,
                v.len() as int,
            ),
        decreases i,
    {
        let ghost pre = v@.subrange(0, i as int);
        assert(pre.drop_last() =~= v@.subrange(0, i - 1));
        assert(after_last(pre, c) == after_last(pre.drop_last(), c).push(pre.last()));
        assert(v@.subrange(i - 1, v.len() as int) =~= seq![v@[i - 1]] + v@.subrange(
            i as int,
            v.len() as int,
        ));
        i -= 1;
    }
    proof {
        let pre = v@.subrange(0, i as int);
        assert(after_last(pre, c) =~= Seq::<char>::empty());
        assert(Seq::<char>::empty() + v@.subrange(i as int, v.len() as int) =~= v@.subrange(
            i as int,
            v.len() as int,
        ));
    }
    let mut r: Vec<char> = Vec::new();
    let mut k = i;
    while k < v.len()
        invariant
            i <= k <= v.len(),
            r@ == v@.subrange(i as int, k as int),
        decreases v.len() - k,
    {
        r.push(v[k]);
        assert(v@.subrange(i as int, k + 1) =~= v@.subrange(i as int, k as int).push(v@[k as int]));
        k += 1;
    }
    r
}

/// Cleans an in-game move string, e.g. `em001:em001Action<...>` gives `em001 Action`.
pub fn sanitize_action_string(raw: &str) -> (r: Option<String>)
    ensures
        match sanitize_spec(raw@) {
            Some(n) => r matches Some(s) && s@ == n,
            None => r is None,
        },
{
    let v = chars_of(raw);
    let head = before_first_vec(&v, '<');
    let name = after_last_vec(&head, ':');
    if name.len() == 0 {
        return None;
    }
    let mut out: Vec<char> = Vec::new();
    let n = name.len();
    for i in 0..n
        invariant
            n == name@.len(),
            out@ == spaced_words(name@.subrange(0, i as int)),
    {
        let c = name[i];
        let ghost pre = name@.subrange(0, i + 1);
        assert(pre.drop_last() =~= name@.subrange(0, i as int));
        if i > 0 && is_uppercase(c) {
            out.push(' ');
            out.push(c);
            assert(out@ =~= spaced_words(pre));
        } else {
            out.push(c);
            assert(out@ =~= spaced_words(pre));
        }
    }
    assert(name@.subrange(0, n as int) =~= name@);
    Some(string_of(&out))
}

/// The first known limit at least `value`, or `value` itself.
pub open spec fn approximate_high_spec(value: u32, values: Seq<u32>) -> u32
    decreases values.len(),
{
    if values.len() == 0 {
        value
    } else if values[0] >= value {
        values[0]
    } else {
        approximate_high_spec(value, values.drop_first())
    }
}

/// Rounds a raw quest timer limit up to the nearest known limit (the first
/// in `values` that is at least `value`), or keeps it when none is.
pub fn approximate_high(value: u32, values: &[u32]) -> (r: u32)
    ensures
        r == approximate_high_spec(value, values@),
{
    let mut i: usize = 0;
    assert(values@.subrange(0, values@.len() as int) =~= values@);
    while i < values.len()
        invariant
            i <= values@.len(),
            approximate_high_spec(value, values@) == approximate_high_spec(
                value,
                values@.subrange(i as int, values@.len() as int),
            ),
        decreases values@.len() - i,
    {
        let ghost rest = values@.subrange(i as int, values@.len() as int);
        assert(rest.drop_first() =~= values@.subrange(i + 1, values@.len() as int));
        if values[i] >= value {
            return values[i];
        }
        i += 1;
    }
    value
}

/// Known raw quest timer limits (frames at 60 per second): 15, 20, 30, 35 and 50 minutes.
pub fn max_quest_timers() -> (v: Vec<u32>)
    ensures
        v@ == seq![54000u32, 72000u32, 108000u32, 126000u32, 180000u32],
{
    let mut v: Vec<u32> = Vec::new();
    v.push(54000);
    v.push(72000);
    v.push(108000);
    v.push(126000);
    v.push(180000);
    assert(v@ =~= seq![54000u32, 72000u32, 108000u32, 126000u32, 180000u32]);
    v
}

} // verus!
