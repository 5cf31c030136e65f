//! Statistics computed from the hunting log: per-quest outcomes and timings
//! (from the quest messages) and per-monster move counts.

use vstd::prelude::*;
use crate::log::{LogEntry, LogLevel, LogStorage, flatten};
use crate::game_data::{ActionTable, NameTable, action_lookup, lookup_action_name, name_lookup};
use crate::text::{
    all_digits, chars_of, dec, dec_int, find, find_vec, is_digit, lemma_dec_digits, lemma_find_char,
    lemma_find_char_none, lemma_lex_total, lemma_lex_trans, lemma_pad2_digits, lemma_parse_digits,
    lex_le, lex_le_vec, parse_i32, parse_int, parse_u64, push_dec_i64, seq_eq, slice_vec, split_once,
    split_once_vec, starts_with, starts_with_vec, string_of, zero_pad,
};

verus! {

// ── Quest message grammar ─────────────────────────────────────────

pub open spec fn u64_or_zero(s: Seq<char>) -> u64 {
    match parse_int(s, false, 0, u64::MAX as int) {
        Some(v) => v as u64,
        None => 0,
    }
}

/// Milliseconds of an `M'SS'CC` quest time (minutes, seconds, centiseconds),
/// each part read as a number or 0; 0 unless there are exactly three parts.
/// Arithmetic wraps, as the release build computes it.
pub open spec fn quest_elapsed_spec(s: Seq<char>) -> u64 {
    match split_once(s, seq!['\'']) {
        Some((a, r)) => match split_once(r, seq!['\'']) {
            Some((b, c)) => if find(c, seq!['\'']) is None {
                u64_or_zero(a).wrapping_mul(60000).wrapping_add(u64_or_zero(b).wrapping_mul(1000)).wrapping_add(
                    u64_or_zero(c).wrapping_mul(10),
                )
            } else {
                0
            },
            None => 0,
        },
        None => 0,
    }
}

fn u64_or_zero_vec(v: &Vec<char>) -> (r: u64)
    ensures
        r == u64_or_zero(v@),
{
    match parse_u64(v) {
        Some(x) => x,
        None => 0,
    }
}

/// Parses `M'SS'CC` (as `format_quest_time` writes it) into milliseconds.
pub fn parse_quest_elapsed(s: &str) -> (ms: u64)
    ensures
        ms == quest_elapsed_spec(s@),
{
    let v = chars_of(s);
    parse_quest_elapsed_chars(&v)
}

fn parse_quest_elapsed_chars(v: &Vec<char>) -> (ms: u64)
    ensures
        ms == quest_elapsed_spec(v@),
{
    let mut q: Vec<char> = Vec::new();
    q.push('\'');
    assert(q@ =~= seq!['\'']);
    match split_once_vec(v, &q) {
        Some((a, r)) => match split_once_vec(&r, &q) {
            Some((b, c)) => {
                if find_vec(&c, &q).is_none() {
                    let m = u64_or_zero_vec(&a);
                    let sec = u64_or_zero_vec(&b);
                    let cs = u64_or_zero_vec(&c);
                    m.wrapping_mul(60000).wrapping_add(sec.wrapping_mul(1000)).wrapping_add(
                        cs.wrapping_mul(10),
                    )
                } else {
                    0
                }
            },
            None => 0,
        },
        None => 0,
    }
}

/// Quest id in the text after `] ` of a quest-start message: the part
/// between the first `ID:` and the next `ID:`, cut at the first `)`, read as
/// an `i32`, or 0.
pub open spec fn start_qid(rest: Seq<char>) -> i32 {
    match split_once(rest, "ID:"@) {
        Some((_, after)) => {
            let seg = match split_once(after, "ID:"@) {
                Some((a, _)) => a,
                None => after,
            };
            let t = match split_once(seg, ")"@) {
                Some((a, _)) => a,
                None => seg,
            };
            match parse_int(t, true, i32::MIN as int, i32::MAX as int) {
                Some(v) => v as i32,
                None => 0,
            }
        },
        None => 0,
    }
}

/// A quest-start message `[name] 任务开始(ID:id)…`: the quest name and id.
pub open spec fn quest_start(m: Seq<char>) -> Option<(Seq<char>, i32)> {
    if m.len() > 0 && m[0] == '[' {
        match split_once(m.drop_first(), "] "@) {
            Some((name, rest)) => if find(rest, "任务开始"@) is Some {
                Some((name, start_qid(rest)))
            } else {
                None
            },
            None => None,
        }
    } else {
        None
    }
}

/// A quest-end message `任务{label}！耗时 {time}`: the label and the time in ms.
pub open spec fn quest_end(m: Seq<char>) -> Option<(Seq<char>, u64)> {
    if starts_with(m, "任务"@) {
        match split_once(m.skip("任务"@.len() as int), "！耗时 "@) {
            Some((label, el)) => Some((label, quest_elapsed_spec(el))),
            None => None,
        }
    } else {
        None
    }
}

/// Messages that close the current quest without an outcome.
pub open spec fn quest_reset(m: Seq<char>) -> bool {
    starts_with(m, "任务中断"@) || m == "任务记录中断：游戏连接丢失"@
}

fn start_qid_exec(rest: &Vec<char>) -> (q: i32)
    ensures
        q == start_qid(rest@),
{
    let id = chars_of("ID:");
    let close = chars_of(")");
    match split_once_vec(rest, &id) {
        Some((_, after)) => {
            let seg = match split_once_vec(&after, &id) {
                Some((a, _)) => a,
                None => after,
            };
            let t = match split_once_vec(&seg, &close) {
                Some((a, _)) => a,
                None => seg,
            };
            match parse_i32(&t) {
                Some(v) => v,
                None => 0,
            }
        },
        None => 0,
    }
}

fn quest_start_exec(m: &Vec<char>) -> (r: Option<(Vec<char>, i32)>)
    ensures
        match quest_start(m@) {
            Some((n, q)) => r matches Some((rn, rq)) && rn@ == n && rq == q,
            None => r is None,
        },
{
    if m.len() > 0 && m[0] == '[' {
        let body = slice_vec(m, 1, m.len());
        assert(body@ =~= m@.drop_first());
        let sep = chars_of("] ");
        match split_once_vec(&body, &sep) {
            Some((name, rest)) => {
                let key = chars_of("任务开始");
                if find_vec(&rest, &key).is_some() {
                    let q = start_qid_exec(&rest);
                    Some((name, q))
                } else {
                    None
                }
            },
            None => None,
        }
    } else {
        None
    }
}

fn quest_end_exec(m: &Vec<char>) -> (r: Option<(Vec<char>, u64)>)
    ensures
        match quest_end(m@) {
            Some((l, ms)) => r matches Some((rl, rms)) && rl@ == l && rms == ms,
            None => r is None,
        },
{
    let pfx = chars_of("任务");
    if starts_with_vec(m, &pfx) {
        let rest = slice_vec(m, pfx.len(), m.len());
        let sep = chars_of("！耗时 ");
        match split_once_vec(&rest, &sep) {
            Some((label, el)) => {
                let ms = parse_quest_elapsed_chars(&el);
                Some((label, ms))
            },
            None => None,
        }
    } else {
        None
    }
}

fn quest_reset_exec(m: &Vec<char>) -> (b: bool)
    ensures
        b == quest_reset(m@),
{
    let a = chars_of("任务中断");
    let b = chars_of("任务记录中断：游戏连接丢失");
    starts_with_vec(m, &a) || seq_eq(m, &b)
}

// ── Quest tallies ───────────────────────────────────────────────

/// Running outcome counts of one quest (by quest name).
pub struct QuestTally {
    pub name: Seq<char>,
    pub qid: i32,
    pub total: u32,
    pub success: u32,
    pub fail: u32,
    pub abandon: u32,
    pub abandon_ms: u64,
    pub abandon_cnt: u32,
    /// Completion times of successful runs, oldest first.
    pub times: Seq<u64>,
}

/// State of the scan over the log: tallies in order of first outcome, and
/// the quest that was started last and has not ended yet.
pub struct QuestScan {
    pub tallies: Seq<QuestTally>,
    pub current: Option<(Seq<char>, i32)>,
}

/// Index of the tally of `name`.
pub open spec fn tally_index(t: Seq<QuestTally>, name: Seq<char>) -> Option<int>
    decreases t.len(),
{
    if t.len() == 0 {
        None
    } else if t.last().name == name {
        Some(t.len() - 1)
    } else {
        tally_index(t.drop_last(), name)
    }
}

pub open spec fn fresh_tally(name: Seq<char>, qid: i32) -> QuestTally {
    QuestTally {
        name,
        qid,
        total: 0,
        success: 0,
        fail: 0,
        abandon: 0,
        abandon_ms: 0,
        abandon_cnt: 0,
        times: Seq::empty(),
    }
}

/// One outcome added to a tally. Counters wrap, as the release build computes them.
pub open spec fn tally_outcome(b: QuestTally, qid: i32, label: Seq<char>, ms: u64) -> QuestTally {
    let s = label == "成功"@;
    let f = label == "失败"@;
    let a = label == "放弃"@;
    QuestTally {
        name: b.name,
        qid,
        total: b.total.wrapping_add(1),
        success: b.success.wrapping_add(if s { 1 } else { 0 }),
        fail: b.fail.wrapping_add(if f { 1 } else { 0 }),
        abandon: b.abandon.wrapping_add(if a { 1 } else { 0 }),
        abandon_ms: b.abandon_ms.wrapping_add(if a { ms } else { 0 }),
        abandon_cnt: b.abandon_cnt.wrapping_add(if a { 1 } else { 0 }),
        times: if s { b.times.push(ms) } else { b.times },
    }
}

pub open spec fn record_outcome(
    t: Seq<QuestTally>,
    name: Seq<char>,
    qid: i32,
    label: Seq<char>,
    ms: u64,
) -> Seq<QuestTally> {
    match tally_index(t, name) {
        Some(i) => t.update(i, tally_outcome(t[i], qid, label, ms)),
        None => t.push(tally_outcome(fresh_tally(name, qid), qid, label, ms)),
    }
}

/// One log entry read by the quest scan. An interruption (`任务中断…`, also
/// written `任务中断！耗时 …`) or a lost connection only forgets the current
/// quest and is not counted as an outcome.
pub open spec fn scan_step(st: QuestScan, e: LogEntry) -> QuestScan {
    if e.level != LogLevel::Quest {
        st
    } else {
        let m = e.message@;
        match quest_start(m) {
            Some(q) => QuestScan { tallies: st.tallies, current: Some(q) },
            None => if quest_reset(m) {
                QuestScan { tallies: st.tallies, current: None }
            } else {
                match quest_end(m) {
                    Some((label, ms)) => {
                        let (name, qid) = match st.current {
                            Some(c) => c,
                            None => ("未知"@, 0i32),
                        };
                        QuestScan { tallies: record_outcome(st.tallies, name, qid, label, ms), current: None }
                    },
                    None => st,
                }
            },
        }
    }
}

pub open spec fn scan_entries(es: Seq<LogEntry>) -> QuestScan
    decreases es.len(),
{
    if es.len() == 0 {
        QuestScan { tallies: Seq::empty(), current: None }
    } else {
        scan_step(scan_entries(es.drop_last()), es.last())
    }
}

pub open spec fn distinct_names(t: Seq<QuestTally>) -> bool {
    forall|i: int, j: int| 0 <= i < j < t.len() ==> t[i].name != t[j].name
}

proof fn lemma_tally_index(t: Seq<QuestTally>, name: Seq<char>)
    ensures
        tally_index(t, name) matches Some(i) ==> 0 <= i < t.len() && t[i].name == name,
        tally_index(t, name) is None ==> forall|i: int| 0 <= i < t.len() ==> t[i].name != name,
    decreases t.len(),
{
    if t.len() > 0 && t.last().name != name {
        lemma_tally_index(t.drop_last(), name);
        assert forall|i: int| 0 <= i < t.len() - 1 implies t[i] == t.drop_last()[i] by {}
    }
}

proof fn lemma_scan_distinct(es: Seq<LogEntry>)
    ensures
        distinct_names(scan_entries(es).tallies),
    decreases es.len(),
{
    if es.len() > 0 {
        lemma_scan_distinct(es.drop_last());
        let st = scan_entries(es.drop_last());
        let e = es.last();
        if e.level == LogLevel::Quest && quest_start(e.message@) is None && !quest_reset(e.message@) {
            if let Some((label, ms)) = quest_end(e.message@) {
                let (name, qid) = match st.current {
                    Some(c) => c,
                    None => ("未知"@, 0i32),
                };
                lemma_tally_index(st.tallies, name);
                let t2 = record_outcome(st.tallies, name, qid, label, ms);
                assert forall|i: int, j: int| 0 <= i < j < t2.len() implies t2[i].name != t2[j].name by {
                    if j == st.tallies.len() {
                        assert(t2[j].name == name);
                    } else {
                        assert(t2[i].name == st.tallies[i].name);
                        assert(t2[j].name == st.tallies[j].name);
                    }
                }
            }
        }
    }
}

/// Executable counterpart of `QuestTally`.
struct Tally {
    name: Vec<char>,
    qid: i32,
    total: u32,
    success: u32,
    fail: u32,
    abandon: u32,
    abandon_ms: u64,
    abandon_cnt: u32,
    times: Vec<u64>,
}

impl View for Tally {
    type V = QuestTally;

    closed spec fn view(&self) -> QuestTally {
        QuestTally {
            name: self.name@,
            qid: self.qid,
            total: self.total,
            success: self.success,
            fail: self.fail,
            abandon: self.abandon,
            abandon_ms: self.abandon_ms,
            abandon_cnt: self.abandon_cnt,
            times: self.times@,
        }
    }
}

spec fn tallies_view(v: Seq<Tally>) -> Seq<QuestTally> {
    v.map_values(|t: Tally| t@)
}

fn find_tally(v: &Vec<Tally>, name: &Vec<char>) -> (r: Option<usize>)
    ensures
        match tally_index(tallies_view(v@), name@) {
            Some(i) => r == Some(i as usize),
            None => r is None,
        },
        r matches Some(i) ==> i < v.len() && tally_index(tallies_view(v@), name@) == Some(i as int),
{
    proof {
        lemma_tally_index(tallies_view(v@), name@);
    }
    let mut i = v.len();
    assert(tallies_view(v@).subrange(0, i as int) =~= tallies_view(v@));
    while i > 0
        invariant
            i <= v.len(),
            tally_index(tallies_view(v@), name@) == tally_index(
                tallies_view(v@).subrange(0, i as int),
                name@,
            ),
        decreases i,
    {
        let ghost pre = tallies_view(v@).subrange(0, i as int);
        assert(pre.drop_last() =~= tallies_view(v@).subrange(0, i - 1));
        if seq_eq(&v[i - 1].name, name) {
            assert(pre.last().name == name@);
            return Some(i - 1);
        }
        i -= 1;
    }
    None
}

fn apply_outcome(b: &mut Tally, qid: i32, label: &Vec<char>, ms: u64)
    ensures
        final(b)@ == tally_outcome(old(b)@, qid, label@, ms),
{
    let s = seq_eq(label, &chars_of("成功"));
    let f = seq_eq(label, &chars_of("失败"));
    let a = seq_eq(label, &chars_of("放弃"));
    b.qid = qid;
    b.total = b.total.wrapping_add(1);
    b.success = b.success.wrapping_add(if s { 1 } else { 0 });
    b.fail = b.fail.wrapping_add(if f { 1 } else { 0 });
    b.abandon = b.abandon.wrapping_add(if a { 1 } else { 0 });
    b.abandon_ms = b.abandon_ms.wrapping_add(if a { ms } else { 0 });
    b.abandon_cnt = b.abandon_cnt.wrapping_add(if a { 1 } else { 0 });
    if s {
        b.times.push(ms);
    }
}

fn record_outcome_exec(t: &mut Vec<Tally>, name: Vec<char>, qid: i32, label: &Vec<char>, ms: u64)
    ensures
        tallies_view(final(t)@) == record_outcome(tallies_view(old(t)@), name@, qid, label@, ms),
{
    match find_tally(t, &name) {
        Some(i) => {
            let ghost t0 = t@;
            let mut b = t.remove(i);
            assert(b == t0[i as int]);
            apply_outcome(&mut b, qid, label, ms);
            t.insert(i, b);
            assert(t@ =~= t0.update(i as int, b));
            assert(tallies_view(t0)[i as int] == t0[i as int]@);
            assert(tally_index(tallies_view(t0), name@) == Some(i as int));
            assert(tallies_view(t@) =~= tallies_view(t0).update(i as int, b@));
            assert(tallies_view(t@) =~= record_outcome(tallies_view(old(t)@), name@, qid, label@, ms));
        },
        None => {
            let mut b = Tally {
                name,
                qid,
                total: 0,
                success: 0,
                fail: 0,
                abandon: 0,
                abandon_ms: 0,
                abandon_cnt: 0,
                times: Vec::new(),
            };
            assert(b@ == fresh_tally(name@, qid));
            apply_outcome(&mut b, qid, label, ms);
            t.push(b);
            assert(tallies_view(t@) =~= record_outcome(tallies_view(old(t)@), name@, qid, label@, ms));
        },
    }
}

spec fn current_view(c: Option<(Vec<char>, i32)>) -> Option<(Seq<char>, i32)> {
    match c {
        Some((n, q)) => Some((n@, q)),
        None => None,
    }
}

fn scan_entry(t: &mut Vec<Tally>, current: &mut Option<(Vec<char>, i32)>, e: &LogEntry)
    ensures
        ({
            let st = QuestScan { tallies: tallies_view(old(t)@), current: current_view(*old(current)) };
            let nx = scan_step(st, *e);
            tallies_view(final(t)@) == nx.tallies && current_view(*final(current)) == nx.current
        }),
{
    if e.level != LogLevel::Quest {
        return;
    }
    let m = chars_of(e.message.as_str());
    match quest_start_exec(&m) {
        Some((n, q)) => {
            *current = Some((n, q));
        },
        None => {
            if quest_reset_exec(&m) {
                *current = None;
            } else {
                match quest_end_exec(&m) {
                    Some((label, ms)) => {
                        let (name, qid) = match current.take() {
                            Some(c) => c,
                            None => (chars_of("未知"), 0i32),
                        };
                        record_outcome_exec(t, name, qid, &label, ms);
                    },
                    None => {},
                }
            }
        },
    }
}

// ── Quest statistics ─────────────────────────────────────────────

/// Outcome statistics of one quest, gathered from the quest messages of the log.
#[derive(Clone, Debug)]
pub struct QuestStat {
    pub quest_name: String,
    pub quest_id: i32,
    pub total: u32,
    pub success: u32,
    pub fail: u32,
    pub abandon: u32,
    pub avg_abandon_ms: u64,
    /// Average completion time (ms) of successful runs.
    pub avg_completion_ms: u64,
    /// Fastest completion (ms).
    pub fastest_ms: u64,
    /// Slowest completion (ms).
    pub slowest_ms: u64,
    /// Up to 20 most recent completion times, in chronological order.
    pub recent_completions: Vec<u64>,
}

/// Wrapping sum, in order.
pub open spec fn wsum(s: Seq<u64>) -> u64
    decreases s.len(),
{
    if s.len() == 0 {
        0
    } else {
        wsum(s.drop_last()).wrapping_add(s.last())
    }
}

pub open spec fn seq_min(s: Seq<u64>) -> u64
    decreases s.len(),
{
    if s.len() <= 1 {
        if s.len() == 1 { s[0] } else { 0 }
    } else if s.last() < seq_min(s.drop_last()) {
        s.last()
    } else {
        seq_min(s.drop_last())
    }
}

pub open spec fn seq_max(s: Seq<u64>) -> u64
    decreases s.len(),
{
    if s.len() <= 1 {
        if s.len() == 1 { s[0] } else { 0 }
    } else if s.last() > seq_max(s.drop_last()) {
        s.last()
    } else {
        seq_max(s.drop_last())
    }
}

/// The last (at most) 20 values, oldest first.
pub open spec fn recent_spec(s: Seq<u64>) -> Seq<u64> {
    if s.len() > 20 {
        s.subrange(s.len() - 20, s.len() as int)
    } else {
        s
    }
}

/// `q` is the statistic of tally `t`.
#[verifier::opaque]
pub open spec fn stat_of(q: QuestStat, t: QuestTally) -> bool {
    &&& q.quest_name@ == t.name
    &&& q.quest_id == t.qid
    &&& q.total == t.total
    &&& q.success == t.success
    &&& q.fail == t.fail
    &&& q.abandon == t.abandon
    &&& q.avg_abandon_ms == (if t.abandon_cnt > 0 { t.abandon_ms / (t.abandon_cnt as u64) } else { 0 })
    &&& q.avg_completion_ms == (if t.times.len() > 0 { wsum(t.times) / (t.times.len() as u64) } else { 0 })
    &&& q.fastest_ms == seq_min(t.times)
    &&& q.slowest_ms == seq_max(t.times)
    &&& q.recent_completions@ == recent_spec(t.times)
}

/// `q` is the statistic of one of the tallies.
pub open spec fn from_tally(q: QuestStat, tv: Seq<QuestTally>) -> bool {
    exists|j: int| 0 <= j < tv.len() && stat_of(q, tv[j])
}

/// Some element of `out` is the statistic of `t`.
pub open spec fn in_stats(out: Seq<QuestStat>, t: QuestTally) -> bool {
    exists|i: int| 0 <= i < out.len() && stat_of(out[i], t)
}

/// Report order: more runs first, then by quest name.
pub open spec fn stat_before(a: QuestStat, b: QuestStat) -> bool {
    a.total > b.total || (a.total == b.total && lex_le(a.quest_name@, b.quest_name@))
}

/// The quest tallies of a whole storage.
pub open spec fn quest_tallies(m: Seq<Seq<LogEntry>>) -> Seq<QuestTally> {
    scan_entries(flatten(m)).tallies
}

fn stat_from_tally(t: &Tally) -> (q: QuestStat)
    ensures
        stat_of(q, t@),
{
    let avg = if t.abandon_cnt > 0 {
        t.abandon_ms / (t.abandon_cnt as u64)
    } else {
        0
    };
    let n = t.times.len();
    let mut sum: u64 = 0;
    let mut lo: u64 = 0;
    let mut hi: u64 = 0;
    for i in 0..n
        invariant
            n == t.times@.len(),
            sum == wsum(t.times@.subrange(0, i as int)),
            i > 0 ==> lo == seq_min(t.times@.subrange(0, i as int)),
            i > 0 ==> hi == seq_max(t.times@.subrange(0, i as int)),
    {
        let x = t.times[i];
        let ghost pre = t.times@.subrange(0, i as int);
        let ghost nxt = t.times@.subrange(0, i + 1);
        assert(nxt.drop_last() =~= pre);
        sum = sum.wrapping_add(x);
        if i == 0 {
            lo = x;
            hi = x;
        } else {
            if x < lo {
                lo = x;
            }
            if x > hi {
                hi = x;
            }
        }
    }
    assert(t.times@.subrange(0, n as int) =~= t.times@);
    let avg_completion = if n > 0 {
        sum / (n as u64)
    } else {
        0
    };
    let mut recent: Vec<u64> = Vec::new();
    let first = if n > 20 {
        n - 20
    } else {
        0
    };
    for k in first..n
        invariant
            n == t.times@.len(),
            first == (if n > 20 { n - 20 } else { 0 }),
            first <= n,
            recent@ == t.times@.subrange(first as int, k as int),
    {
        recent.push(t.times[k]);
        assert(t.times@.subrange(first as int, k + 1) =~= t.times@.subrange(first as int, k as int).push(
            t.times@[k as int],
        ));
    }
    assert(recent@ =~= recent_spec(t.times@));
    reveal(stat_of);
    QuestStat {
        quest_name: string_of(&t.name),
        quest_id: t.qid,
        total: t.total,
        success: t.success,
        fail: t.fail,
        abandon: t.abandon,
        avg_abandon_ms: avg,
        avg_completion_ms: avg_completion,
        fastest_ms: if n > 0 { lo } else { 0 },
        slowest_ms: if n > 0 { hi } else { 0 },
        recent_completions: recent,
    }
}

proof fn lemma_stat_before_total(a: QuestStat, b: QuestStat)
    ensures
        stat_before(a, b) || stat_before(b, a),
{
    lemma_lex_total(a.quest_name@, b.quest_name@);
}

proof fn lemma_stat_before_trans(a: QuestStat, b: QuestStat, c: QuestStat)
    requires
        stat_before(a, b),
        stat_before(b, c),
    ensures
        stat_before(a, c),
{
    if a.total == b.total && b.total == c.total {
        lemma_lex_trans(a.quest_name@, b.quest_name@, c.quest_name@);
    }
}

fn stat_before_exec(a: &QuestStat, b: &QuestStat) -> (r: bool)
    ensures
        r == stat_before(*a, *b),
{
    if a.total != b.total {
        a.total > b.total
    } else {
        let x = chars_of(a.quest_name.as_str());
        let y = chars_of(b.quest_name.as_str());
        lex_le_vec(&x, &y)
    }
}

pub open spec fn sorted_stats(s: Seq<QuestStat>) -> bool {
    forall|i: int, k: int| 0 <= i < k < s.len() ==> stat_before(s[i], s[k])
}

/// Inserts `x` after every element that comes before it.
fn insert_stat(out: &mut Vec<QuestStat>, x: QuestStat)
    requires
        sorted_stats(old(out)@),
    ensures
        sorted_stats(final(out)@),
        exists|p: int| 0 <= p <= old(out)@.len() && final(out)@ == old(out)@.insert(p, x),
{
    let n = out.len();
    let mut p: usize = 0;
    while p < n && !stat_before_exec(&x, &out[p])
        invariant
            n == out@.len(),
            p <= n,
            forall|k: int| 0 <= k < p ==> stat_before(out@[k], x),
        decreases n - p,
    {
        proof {
            lemma_stat_before_total(x, out@[p as int]);
        }
        p += 1;
    }
    let ghost old_out = out@;
    proof {
        if p < n {
            assert forall|k: int| p <= k < n implies stat_before(x, #[trigger] old_out[k]) by {
                if k > p {
                    lemma_stat_before_trans(x, old_out[p as int], old_out[k]);
                }
            }
        }
    }
    out.insert(p, x);
    proof {
        let s = out@;
        assert(s == old_out.insert(p as int, x));
        assert forall|i: int, k: int| 0 <= i < k < s.len() implies stat_before(s[i], s[k]) by {
            if k < p {
                assert(s[i] == old_out[i] && s[k] == old_out[k]);
            } else if k == p {
                assert(s[i] == old_out[i]);
            } else if i < p {
                assert(s[i] == old_out[i] && s[k] == old_out[k - 1]);
                lemma_stat_before_trans(old_out[i], x, old_out[k - 1]);
            } else if i == p {
                assert(s[k] == old_out[k - 1]);
            } else {
                assert(s[i] == old_out[i - 1] && s[k] == old_out[k - 1]);
            }
        }
    }
}

spec fn covers(perm: Seq<int>, b: int) -> bool {
    exists|a: int| 0 <= a < perm.len() && #[trigger] perm[a] == b
}

impl LogStorage {
    /// Reads every quest message of the log and gathers per-quest outcome
    /// statistics (one entry per quest name), most-run quests first and
    /// then by name.
    pub fn compute_quest_stats(&self) -> (r: Vec<QuestStat>)
        ensures
            ({
                let t = quest_tallies(self@);
                &&& r@.len() == t.len()
                &&& forall|i: int| 0 <= i < r@.len() ==> #[trigger] from_tally(r@[i], t)
                &&& forall|j: int| 0 <= j < t.len() ==> #[trigger] in_stats(r@, t[j])
                &&& sorted_stats(r@)
                &&& forall|i: int, k: int| 0 <= i < k < r@.len() ==> r@[i].quest_name@ != r@[k].quest_name@
            }),
    {
        let es = self.all_entries();
        let mut t: Vec<Tally> = Vec::new();
        let mut current: Option<(Vec<char>, i32)> = None;
        let n = es.len();
        for i in 0..n
            invariant
                n == es@.len(),
                es@ == flatten(self@),
                tallies_view(t@) == scan_entries(es@.subrange(0, i as int)).tallies,
                current_view(current) == scan_entries(es@.subrange(0, i as int)).current,
        {
            assert(es@.subrange(0, i + 1).drop_last() =~= es@.subrange(0, i as int));
            scan_entry(&mut t, &mut current, &es[i]);
        }
        assert(es@.subrange(0, n as int) =~= es@);
        let ghost tv = tallies_view(t@);
        assert(tv == quest_tallies(self@));
        proof {
            lemma_scan_distinct(flatten(self@));
        }
        stats_in_order(&t)
    }
}

/// `out` lists, through `perm`, the statistics of the first `j` tallies, each once.
spec fn perm_inv(out: Seq<QuestStat>, perm: Seq<int>, tv: Seq<QuestTally>, j: int) -> bool {
    &&& out.len() == j
    &&& perm.len() == j
    &&& forall|a: int| 0 <= a < j ==> 0 <= #[trigger] perm[a] < j
    &&& forall|a: int| 0 <= a < j ==> stat_of(#[trigger] out[a], tv[perm[a]])
    &&& forall|a: int, c: int| 0 <= a < c < j ==> perm[a] != perm[c]
    &&& forall|b: int| 0 <= b < j ==> #[trigger] covers(perm, b)
}

proof fn lemma_perm_insert(
    before: Seq<QuestStat>,
    pb: Seq<int>,
    tv: Seq<QuestTally>,
    j: int,
    p: int,
    q: QuestStat,
)
    requires
        perm_inv(before, pb, tv, j),
        0 <= p <= j,
        j < tv.len(),
        stat_of(q, tv[j]),
    ensures
        perm_inv(before.insert(p, q), pb.insert(p, j), tv, j + 1),
{
    let out = before.insert(p, q);
    let perm = pb.insert(p, j);
    assert forall|a: int| 0 <= a < j + 1 implies 0 <= #[trigger] perm[a] < j + 1 by {
        if a < p {
            assert(perm[a] == pb[a]);
        } else if a > p {
            assert(perm[a] == pb[a - 1]);
        }
    }
    assert forall|a: int| 0 <= a < j + 1 implies stat_of(#[trigger] out[a], tv[perm[a]]) by {
        if a < p {
            assert(out[a] == before[a] && perm[a] == pb[a]);
        } else if a > p {
            assert(out[a] == before[a - 1] && perm[a] == pb[a - 1]);
        }
    }
    assert forall|a: int, c: int| 0 <= a < c < j + 1 implies perm[a] != perm[c] by {
        if a < p && c < p {
            assert(perm[a] == pb[a] && perm[c] == pb[c]);
        } else if a < p && c == p {
            assert(perm[a] == pb[a]);
        } else if a < p && c > p {
            assert(perm[a] == pb[a] && perm[c] == pb[c - 1]);
        } else if a == p {
            assert(perm[c] == pb[c - 1]);
        } else {
            assert(perm[a] == pb[a - 1] && perm[c] == pb[c - 1]);
        }
    }
    assert forall|b: int| 0 <= b < j + 1 implies #[trigger] covers(perm, b) by {
        if b == j {
            assert(perm[p] == b);
        } else {
            assert(covers(pb, b));
            let a0 = choose|a: int| 0 <= a < pb.len() && #[trigger] pb[a] == b;
            if a0 < p {
                assert(perm[a0] == b);
            } else {
                assert(perm[a0 + 1] == b);
            }
        }
    }
}

proof fn lemma_stat_of_name(q: QuestStat, t: QuestTally)
    requires
        stat_of(q, t),
    ensures
        q.quest_name@ == t.name,
{
    reveal(stat_of);
}

proof fn lemma_perm_sound(out: Seq<QuestStat>, perm: Seq<int>, tv: Seq<QuestTally>)
    requires
        perm_inv(out, perm, tv, tv.len() as int),
    ensures
        forall|i: int| 0 <= i < out.len() ==> #[trigger] from_tally(out[i], tv),
{
    assert forall|i: int| 0 <= i < out.len() implies #[trigger] from_tally(out[i], tv) by {
        let j = perm[i];
        assert(0 <= j < tv.len());
        assert(stat_of(out[i], tv[j]));
    }
}

proof fn lemma_perm_complete(out: Seq<QuestStat>, perm: Seq<int>, tv: Seq<QuestTally>)
    requires
        perm_inv(out, perm, tv, tv.len() as int),
    ensures
        forall|j: int| 0 <= j < tv.len() ==> #[trigger] in_stats(out, tv[j]),
{
    assert forall|j: int| 0 <= j < tv.len() implies #[trigger] in_stats(out, tv[j]) by {
        assert(covers(perm, j));
        let a = choose|a: int| 0 <= a < perm.len() && #[trigger] perm[a] == j;
        assert(0 <= a < out.len());
        assert(stat_of(out[a], tv[perm[a]]));
    }
}

proof fn lemma_perm_names(out: Seq<QuestStat>, perm: Seq<int>, tv: Seq<QuestTally>)
    requires
        perm_inv(out, perm, tv, tv.len() as int),
        distinct_names(tv),
    ensures
        forall|i: int, k: int| 0 <= i < k < out.len() ==> out[i].quest_name@ != out[k].quest_name@,
{
    assert forall|i: int, k: int| 0 <= i < k < out.len() implies out[i].quest_name@
        != out[k].quest_name@ by {
        lemma_stat_of_name(out[i], tv[perm[i]]);
        lemma_stat_of_name(out[k], tv[perm[k]]);
        if perm[i] < perm[k] {
            assert(tv[perm[i]].name != tv[perm[k]].name);
        } else {
            assert(tv[perm[k]].name != tv[perm[i]].name);
        }
    }
}

/// The statistics of the tallies, most-run quests first and then by name.
fn stats_in_order(t: &Vec<Tally>) -> (out: Vec<QuestStat>)
    requires
        distinct_names(tallies_view(t@)),
    ensures
        ({
            let tv = tallies_view(t@);
            &&& out@.len() == tv.len()
            &&& forall|i: int| 0 <= i < out@.len() ==> #[trigger] from_tally(out@[i], tv)
            &&& forall|j: int| 0 <= j < tv.len() ==> #[trigger] in_stats(out@, tv[j])
            &&& sorted_stats(out@)
            &&& forall|i: int, k: int| 0 <= i < k < out@.len() ==> out@[i].quest_name@ != out@[k].quest_name@
        }),
{
    let ghost tv = tallies_view(t@);
    let mut out: Vec<QuestStat> = Vec::new();
    let ghost mut perm: Seq<int> = Seq::empty();
    let k = t.len();
    for j in 0..k
        invariant
            k == t@.len(),
            tv == tallies_view(t@),
            sorted_stats(out@),
            perm_inv(out@, perm, tv, j as int),
    {
        let q = stat_from_tally(&t[j]);
        assert(stat_of(q, tv[j as int]));
        let ghost before = out@;
        let ghost pb = perm;
        insert_stat(&mut out, q);
        proof {
            let p = choose|p: int| 0 <= p <= before.len() && out@ == before.insert(p, q);
            lemma_perm_insert(before, pb, tv, j as int, p, q);
            perm = pb.insert(p, j as int);
        }
    }
    proof {
        lemma_perm_sound(out@, perm, tv);
        lemma_perm_complete(out@, perm, tv);
        lemma_perm_names(out@, perm, tv);
    }
    out
}


// ── Generic bookkeeping for reordered outputs ─────────────────────

/// `out` lists, through `perm`, one image of each of the first `j` sources.
spec fn perm_rel<A, B>(out: Seq<A>, perm: Seq<int>, src: Seq<B>, rel: spec_fn(A, B) -> bool, j: int) -> bool {
    &&& out.len() == j
    &&& perm.len() == j
    &&& j <= src.len()
    &&& forall|a: int| 0 <= a < j ==> 0 <= #[trigger] perm[a] < j
    &&& forall|a: int| 0 <= a < j ==> rel(#[trigger] out[a], src[perm[a]])
    &&& forall|a: int, c: int| 0 <= a < c < j ==> perm[a] != perm[c]
    &&& forall|b: int| 0 <= b < j ==> #[trigger] covers(perm, b)
}

proof fn lemma_perm_rel_insert<A, B>(
    before: Seq<A>,
    pb: Seq<int>,
    src: Seq<B>,
    rel: spec_fn(A, B) -> bool,
    j: int,
    p: int,
    q: A,
)
    requires
        perm_rel(before, pb, src, rel, j),
        0 <= p <= j,
        j < src.len(),
        rel(q, src[j]),
    ensures
        perm_rel(before.insert(p, q), pb.insert(p, j), src, rel, j + 1),
{
    let out = before.insert(p, q);
    let perm = pb.insert(p, j);
    assert forall|a: int| 0 <= a < j + 1 implies 0 <= #[trigger] perm[a] < j + 1 by {
        if a < p {
            assert(perm[a] == pb[a]);
        } else if a > p {
            assert(perm[a] == pb[a - 1]);
        }
    }
    assert forall|a: int| 0 <= a < j + 1 implies rel(#[trigger] out[a], src[perm[a]]) by {
        if a < p {
            assert(out[a] == before[a] && perm[a] == pb[a]);
        } else if a > p {
            assert(out[a] == before[a - 1] && perm[a] == pb[a - 1]);
        }
    }
    assert forall|a: int, c: int| 0 <= a < c < j + 1 implies perm[a] != perm[c] by {
        if a < p && c < p {
            assert(perm[a] == pb[a] && perm[c] == pb[c]);
        } else if a < p && c == p {
            assert(perm[a] == pb[a]);
        } else if a < p && c > p {
            assert(perm[a] == pb[a] && perm[c] == pb[c - 1]);
        } else if a == p {
            assert(perm[c] == pb[c - 1]);
        } else {
            assert(perm[a] == pb[a - 1] && perm[c] == pb[c - 1]);
        }
    }
    assert forall|b: int| 0 <= b < j + 1 implies #[trigger] covers(perm, b) by {
        if b == j {
            assert(perm[p] == b);
        } else {
            assert(covers(pb, b));
            let a0 = choose|a: int| 0 <= a < pb.len() && #[trigger] pb[a] == b;
            if a0 < p {
                assert(perm[a0] == b);
            } else {
                assert(perm[a0 + 1] == b);
            }
        }
    }
}

/// `x` is the image of some source.
pub open spec fn has_source<A, B>(x: A, src: Seq<B>, rel: spec_fn(A, B) -> bool) -> bool {
    exists|j: int| 0 <= j < src.len() && rel(x, src[j])
}

/// `y` has an image in `out`.
pub open spec fn has_image<A, B>(out: Seq<A>, y: B, rel: spec_fn(A, B) -> bool) -> bool {
    exists|i: int| 0 <= i < out.len() && rel(out[i], y)
}

/// Every element of `out` is an image of some source.
pub open spec fn all_from<A, B>(out: Seq<A>, src: Seq<B>, rel: spec_fn(A, B) -> bool) -> bool {
    forall|i: int| 0 <= i < out.len() ==> #[trigger] has_source(out[i], src, rel)
}

/// Every source has an image in `out`.
pub open spec fn all_in<A, B>(out: Seq<A>, src: Seq<B>, rel: spec_fn(A, B) -> bool) -> bool {
    forall|j: int| 0 <= j < src.len() ==> #[trigger] has_image(out, src[j], rel)
}

proof fn lemma_perm_rel_done<A, B>(out: Seq<A>, perm: Seq<int>, src: Seq<B>, rel: spec_fn(A, B) -> bool)
    requires
        perm_rel(out, perm, src, rel, src.len() as int),
    ensures
        all_from(out, src, rel),
        all_in(out, src, rel),
        forall|i: int, k: int| 0 <= i < k < out.len() ==> perm[i] != perm[k] && 0 <= perm[i] < src.len()
            && 0 <= perm[k] < src.len() && rel(out[i], src[perm[i]]) && rel(out[k], src[perm[k]]),
{
    assert forall|i: int| 0 <= i < out.len() implies #[trigger] has_source(out[i], src, rel) by {
        let j = perm[i];
        assert(rel(out[i], src[j]));
    }
    assert forall|j: int| 0 <= j < src.len() implies #[trigger] has_image(out, src[j], rel) by {
        assert(covers(perm, j));
        let a = choose|a: int| 0 <= a < perm.len() && #[trigger] perm[a] == j;
        assert(rel(out[a], src[perm[a]]));
    }
}

// ── Move statistics ─────────────────────────────────────────────

/// Running count of one move of one monster (by move name).
pub struct ActionTally {
    pub name: Seq<char>,
    pub id: i32,
    pub count: u32,
}

/// Running move counts of one monster.
pub struct MonsterTally {
    pub id: i32,
    pub name: Seq<char>,
    /// In order of first sighting.
    pub actions: Seq<ActionTally>,
}

pub open spec fn action_index(a: Seq<ActionTally>, name: Seq<char>) -> Option<int>
    decreases a.len(),
{
    if a.len() == 0 {
        None
    } else if a.last().name == name {
        Some(a.len() - 1)
    } else {
        action_index(a.drop_last(), name)
    }
}

pub open spec fn monster_index(m: Seq<MonsterTally>, id: i32) -> Option<int>
    decreases m.len(),
{
    if m.len() == 0 {
        None
    } else if m.last().id == id {
        Some(m.len() - 1)
    } else {
        monster_index(m.drop_last(), id)
    }
}

/// One sighting of move `name` (id `aid`) counted; a new move keeps the id it was first seen with.
pub open spec fn add_action(a: Seq<ActionTally>, name: Seq<char>, aid: i32) -> Seq<ActionTally> {
    match action_index(a, name) {
        Some(j) => a.update(j, ActionTally { name: a[j].name, id: a[j].id, count: a[j].count.wrapping_add(1) }),
        None => a.push(ActionTally { name, id: aid, count: 1 }),
    }
}

/// Name of the move in a log entry: the name the entry carries, else the
/// table's name, else `动作 #{id}`.
pub open spec fn move_name(e: LogEntry, acts: Seq<(i32, i32, String)>, mid: i32, aid: i32) -> Seq<char> {
    match e.action_name {
        Some(s) => s@,
        None => match action_lookup(acts, mid, aid) {
            Some(n) => n,
            None => "动作 #"@ + dec_int(aid as int),
        },
    }
}

pub open spec fn monster_name_or_unknown(names: Seq<(i32, String)>, mid: i32) -> Seq<char> {
    match name_lookup(names, mid) {
        Some(n) => n,
        None => "未知"@,
    }
}

/// One log entry read by the move count: entries with a monster and a move id count.
pub open spec fn count_step(
    m: Seq<MonsterTally>,
    e: LogEntry,
    names: Seq<(i32, String)>,
    acts: Seq<(i32, i32, String)>,
) -> Seq<MonsterTally> {
    match (e.monster_id, e.action_id) {
        (Some(mid), Some(aid)) => {
            let an = move_name(e, acts, mid, aid);
            match monster_index(m, mid) {
                Some(i) => m.update(
                    i,
                    MonsterTally { id: m[i].id, name: m[i].name, actions: add_action(m[i].actions, an, aid) },
                ),
                None => m.push(
                    MonsterTally {
                        id: mid,
                        name: monster_name_or_unknown(names, mid),
                        actions: add_action(Seq::empty(), an, aid),
                    },
                ),
            }
        },
        _ => m,
    }
}

pub open spec fn count_entries(
    es: Seq<LogEntry>,
    names: Seq<(i32, String)>,
    acts: Seq<(i32, i32, String)>,
) -> Seq<MonsterTally>
    decreases es.len(),
{
    if es.len() == 0 {
        Seq::empty()
    } else {
        count_step(count_entries(es.drop_last(), names, acts), es.last(), names, acts)
    }
}

/// Count of one move of one monster.
#[derive(Clone, Debug)]
pub struct ActionCountItem {
    pub action_name: String,
    pub action_id: i32,
    pub count: u32,
}

/// Move counts of one monster.
#[derive(Clone, Debug)]
pub struct MonsterActionStats {
    pub monster_id: i32,
    pub monster_name: String,
    pub total_actions: u32,
    pub actions: Vec<ActionCountItem>,
}

/// Wrapping sum of the counts.
pub open spec fn count_sum(a: Seq<ActionTally>) -> u32
    decreases a.len(),
{
    if a.len() == 0 {
        0
    } else {
        count_sum(a.drop_last()).wrapping_add(a.last().count)
    }
}

pub open spec fn item_of(x: ActionCountItem, t: ActionTally) -> bool {
    x.action_name@ == t.name && x.action_id == t.id && x.count == t.count
}

/// Move report order: more sightings first, then by move id.
pub open spec fn item_before(a: ActionCountItem, b: ActionCountItem) -> bool {
    a.count > b.count || (a.count == b.count && a.action_id <= b.action_id)
}

pub open spec fn sorted_items(s: Seq<ActionCountItem>) -> bool {
    forall|i: int, k: int| 0 <= i < k < s.len() ==> item_before(s[i], s[k])
}

/// `x` reports tally `t`: same monster, the moves each reported once, in report order.
pub open spec fn monster_stat_of(x: MonsterActionStats, t: MonsterTally) -> bool {
    &&& x.monster_id == t.id
    &&& x.monster_name@ == t.name
    &&& x.total_actions == count_sum(t.actions)
    &&& x.actions@.len() == t.actions.len()
    &&& all_from(x.actions@, t.actions, |a: ActionCountItem, b: ActionTally| item_of(a, b))
    &&& all_in(x.actions@, t.actions, |a: ActionCountItem, b: ActionTally| item_of(a, b))
    &&& sorted_items(x.actions@)
}

/// Monster report order: more moves first, then by monster id.
pub open spec fn monster_before(a: MonsterActionStats, b: MonsterActionStats) -> bool {
    a.total_actions > b.total_actions || (a.total_actions == b.total_actions && a.monster_id
        <= b.monster_id)
}

pub open spec fn sorted_monsters(s: Seq<MonsterActionStats>) -> bool {
    forall|i: int, k: int| 0 <= i < k < s.len() ==> monster_before(s[i], s[k])
}

/// The move tallies of a whole storage.
pub open spec fn move_tallies(
    m: Seq<Seq<LogEntry>>,
    names: Seq<(i32, String)>,
    acts: Seq<(i32, i32, String)>,
) -> Seq<MonsterTally> {
    count_entries(flatten(m), names, acts)
}

// executable counterparts

struct ActionAcc {
    name: Vec<char>,
    id: i32,
    count: u32,
}

impl View for ActionAcc {
    type V = ActionTally;

    closed spec fn view(&self) -> ActionTally {
        ActionTally { name: self.name@, id: self.id, count: self.count }
    }
}

struct MonsterAcc {
    id: i32,
    name: Vec<char>,
    actions: Vec<ActionAcc>,
}

spec fn actions_view(v: Seq<ActionAcc>) -> Seq<ActionTally> {
    v.map_values(|a: ActionAcc| a@)
}

impl View for MonsterAcc {
    type V = MonsterTally;

    closed spec fn view(&self) -> MonsterTally {
        MonsterTally { id: self.id, name: self.name@, actions: actions_view(self.actions@) }
    }
}

spec fn monsters_view(v: Seq<MonsterAcc>) -> Seq<MonsterTally> {
    v.map_values(|m: MonsterAcc| m@)
}

proof fn lemma_action_index(a: Seq<ActionTally>, name: Seq<char>)
    ensures
        action_index(a, name) matches Some(i) ==> 0 <= i < a.len() && a[i].name == name,
        action_index(a, name) is None ==> forall|i: int| 0 <= i < a.len() ==> a[i].name != name,
    decreases a.len(),
{
    if a.len() > 0 && a.last().name != name {
        lemma_action_index(a.drop_last(), name);
        assert forall|i: int| 0 <= i < a.len() - 1 implies a[i] == a.drop_last()[i] by {}
    }
}

proof fn lemma_monster_index(m: Seq<MonsterTally>, id: i32)
    ensures
        monster_index(m, id) matches Some(i) ==> 0 <= i < m.len() && m[i].id == id,
        monster_index(m, id) is None ==> forall|i: int| 0 <= i < m.len() ==> m[i].id != id,
    decreases m.len(),
{
    if m.len() > 0 && m.last().id != id {
        lemma_monster_index(m.drop_last(), id);
        assert forall|i: int| 0 <= i < m.len() - 1 implies m[i] == m.drop_last()[i] by {}
    }
}

fn add_action_exec(v: &mut Vec<ActionAcc>, name: Vec<char>, aid: i32)
    ensures
        actions_view(final(v)@) == add_action(actions_view(old(v)@), name@, aid),
{
    proof {
        lemma_action_index(actions_view(v@), name@);
    }
    let mut i = v.len();
    assert(actions_view(v@).subrange(0, i as int) =~= actions_view(v@));
    while i > 0
        invariant
            v@ == old(v)@,
            i <= v.len(),
            action_index(actions_view(v@), name@) == action_index(
                actions_view(v@).subrange(0, i as int),
                name@,
            ),
        decreases i,
    {
        let ghost pre = actions_view(v@).subrange(0, i as int);
        assert(pre.drop_last() =~= actions_view(v@).subrange(0, i - 1));
        if seq_eq(&v[i - 1].name, &name) {
            assert(pre.last().name == name@);
            let ghost v0 = v@;
            let mut a = v.remove(i - 1);
            a.count = a.count.wrapping_add(1);
            v.insert(i - 1, a);
            assert(v@ =~= v0.update(i - 1, a));
            assert(actions_view(v@) =~= add_action(actions_view(v0), name@, aid));
            return;
        }
        i -= 1;
    }
    let a = ActionAcc { name, id: aid, count: 1 };
    let ghost v0 = v@;
    v.push(a);
    assert(actions_view(v@) =~= add_action(actions_view(v0), a.name@, aid));
}

fn find_monster(v: &Vec<MonsterAcc>, id: i32) -> (r: Option<usize>)
    ensures
        match monster_index(monsters_view(v@), id) {
            Some(i) => r == Some(i as usize),
            None => r is None,
        },
        r matches Some(i) ==> i < v.len() && monster_index(monsters_view(v@), id) == Some(i as int),
{
    proof {
        lemma_monster_index(monsters_view(v@), id);
    }
    let mut i = v.len();
    assert(monsters_view(v@).subrange(0, i as int) =~= monsters_view(v@));
    while i > 0
        invariant
            i <= v.len(),
            monster_index(monsters_view(v@), id) == monster_index(
                monsters_view(v@).subrange(0, i as int),
                id,
            ),
        decreases i,
    {
        let ghost pre = monsters_view(v@).subrange(0, i as int);
        assert(pre.drop_last() =~= monsters_view(v@).subrange(0, i - 1));
        if v[i - 1].id == id {
            assert(pre.last().id == id);
            return Some(i - 1);
        }
        i -= 1;
    }
    None
}

fn move_name_exec(e: &LogEntry, acts: &ActionTable, mid: i32, aid: i32) -> (r: Vec<char>)
    ensures
        r@ == move_name(*e, acts@, mid, aid),
{
    match &e.action_name {
        Some(s) => chars_of(s.as_str()),
        None => match lookup_action_name(acts, mid, aid) {
            Some(n) => chars_of(n.as_str()),
            None => {
                let mut v = chars_of("动作 #");
                push_dec_i64(&mut v, aid as i64);
                v
            },
        },
    }
}

fn count_entry(m: &mut Vec<MonsterAcc>, e: &LogEntry, names: &NameTable, acts: &ActionTable)
    ensures
        monsters_view(final(m)@) == count_step(monsters_view(old(m)@), *e, names@, acts@),
{
    let (mid, aid) = match (e.monster_id, e.action_id) {
        (Some(mid), Some(aid)) => (mid, aid),
        _ => {
            return;
        },
    };
    let an = move_name_exec(e, acts, mid, aid);
    proof {
        lemma_monster_index(monsters_view(m@), mid);
    }
    match find_monster(m, mid) {
        Some(i) => {
            let ghost m0 = m@;
            let mut x = m.remove(i);
            assert(x == m0[i as int]);
            let ghost x0 = x;
            add_action_exec(&mut x.actions, an, aid);
            m.insert(i, x);
            assert(m@ =~= m0.update(i as int, x));
            assert(monster_index(monsters_view(m0), mid) == Some(i as int));
            assert(monsters_view(m0)[i as int] == x0@);
            assert(x@ == MonsterTally { id: x0@.id, name: x0@.name, actions: add_action(x0@.actions, an@, aid) });
            assert(monsters_view(m@) =~= monsters_view(m0).update(i as int, x@));
            assert(monsters_view(m@) =~= count_step(monsters_view(m0), *e, names@, acts@));
        },
        None => {
            let name = match names.get(mid) {
                Some(n) => chars_of(n.as_str()),
                None => chars_of("未知"),
            };
            let mut actions: Vec<ActionAcc> = Vec::new();
            assert(actions_view(actions@) =~= Seq::<ActionTally>::empty());
            add_action_exec(&mut actions, an, aid);
            let x = MonsterAcc { id: mid, name, actions };
            let ghost m0 = m@;
            m.push(x);
            assert(monsters_view(m@) =~= count_step(monsters_view(m0), *e, names@, acts@));
        },
    }
}

fn insert_item(out: &mut Vec<ActionCountItem>, x: ActionCountItem)
    requires
        sorted_items(old(out)@),
    ensures
        sorted_items(final(out)@),
        exists|p: int| 0 <= p <= old(out)@.len() && final(out)@ == old(out)@.insert(p, x),
{
    let n = out.len();
    let mut p: usize = 0;
    while p < n && !(x.count > out[p].count || (x.count == out[p].count && x.action_id < out[p].action_id))
        invariant
            n == out@.len(),
            p <= n,
            forall|k: int| 0 <= k < p ==> item_before(out@[k], x),
        decreases n - p,
    {
        p += 1;
    }
    let ghost old_out = out@;
    out.insert(p, x);
    proof {
        let s = out@;
        assert forall|i: int, k: int| 0 <= i < k < s.len() implies item_before(s[i], s[k]) by {
            if k < p {
                assert(s[i] == old_out[i] && s[k] == old_out[k]);
            } else if k == p {
                assert(s[i] == old_out[i]);
            } else if i < p {
                assert(s[i] == old_out[i] && s[k] == old_out[k - 1]);
            } else if i == p {
                assert(s[k] == old_out[k - 1]);
                assert(item_before(old_out[p as int], old_out[k - 1]) || p == k - 1);
            } else {
                assert(s[i] == old_out[i - 1] && s[k] == old_out[k - 1]);
            }
        }
    }
}

fn insert_monster(out: &mut Vec<MonsterActionStats>, x: MonsterActionStats)
    requires
        sorted_monsters(old(out)@),
    ensures
        sorted_monsters(final(out)@),
        exists|p: int| 0 <= p <= old(out)@.len() && final(out)@ == old(out)@.insert(p, x),
{
    let n = out.len();
    let mut p: usize = 0;
    while p < n && !(x.total_actions > out[p].total_actions || (x.total_actions
        == out[p].total_actions && x.monster_id < out[p].monster_id))
        invariant
            n == out@.len(),
            p <= n,
            forall|k: int| 0 <= k < p ==> monster_before(out@[k], x),
        decreases n - p,
    {
        p += 1;
    }
    let ghost old_out = out@;
    out.insert(p, x);
    proof {
        let s = out@;
        assert forall|i: int, k: int| 0 <= i < k < s.len() implies monster_before(s[i], s[k]) by {
            if k < p {
                assert(s[i] == old_out[i] && s[k] == old_out[k]);
            } else if k == p {
                assert(s[i] == old_out[i]);
            } else if i < p {
                assert(s[i] == old_out[i] && s[k] == old_out[k - 1]);
            } else if i == p {
                assert(s[k] == old_out[k - 1]);
                assert(monster_before(old_out[p as int], old_out[k - 1]) || p == k - 1);
            } else {
                assert(s[i] == old_out[i - 1] && s[k] == old_out[k - 1]);
            }
        }
    }
}

fn monster_stat_from(t: &MonsterAcc) -> (x: MonsterActionStats)
    ensures
        monster_stat_of(x, t@),
{
    let ghost src = actions_view(t.actions@);
    let ghost rel = |a: ActionCountItem, b: ActionTally| item_of(a, b);
    let mut out: Vec<ActionCountItem> = Vec::new();
    let ghost mut perm: Seq<int> = Seq::empty();
    let mut total: u32 = 0;
    let k = t.actions.len();
    for j in 0..k
        invariant
            k == t.actions@.len(),
            src == actions_view(t.actions@),
            rel == (|a: ActionCountItem, b: ActionTally| item_of(a, b)),
            sorted_items(out@),
            perm_rel(out@, perm, src, rel, j as int),
            total == count_sum(src.subrange(0, j as int)),
    {
        let a = &t.actions[j];
        let item = ActionCountItem { action_name: string_of(&a.name), action_id: a.id, count: a.count };
        assert(src[j as int] == a@);
        assert(rel(item, src[j as int]));
        assert(src.subrange(0, j + 1).drop_last() =~= src.subrange(0, j as int));
        total = total.wrapping_add(a.count);
        let ghost before = out@;
        let ghost pb = perm;
        insert_item(&mut out, item);
        proof {
            let p = choose|p: int| 0 <= p <= before.len() && out@ == before.insert(p, item);
            lemma_perm_rel_insert(before, pb, src, rel, j as int, p, item);
            perm = pb.insert(p, j as int);
        }
    }
    proof {
        lemma_perm_rel_done(out@, perm, src, rel);
        assert(src.subrange(0, k as int) =~= src);
    }
    MonsterActionStats { monster_id: t.id, monster_name: string_of(&t.name), total_actions: total, actions: out }
}

fn monsters_in_order(m: &Vec<MonsterAcc>) -> (out: Vec<MonsterActionStats>)
    ensures
        ({
            let t = monsters_view(m@);
            let rel = |a: MonsterActionStats, b: MonsterTally| monster_stat_of(a, b);
            &&& out@.len() == t.len()
            &&& all_from(out@, t, rel)
            &&& all_in(out@, t, rel)
            &&& sorted_monsters(out@)
        }),
{
        let ghost src = monsters_view(m@);
        let ghost rel = |a: MonsterActionStats, b: MonsterTally| monster_stat_of(a, b);
        let mut out: Vec<MonsterActionStats> = Vec::new();
        let ghost mut perm: Seq<int> = Seq::empty();
        let k = m.len();
        for j in 0..k
            invariant
                k == m@.len(),
                src == monsters_view(m@),
                rel == (|a: MonsterActionStats, b: MonsterTally| monster_stat_of(a, b)),
                sorted_monsters(out@),
                perm_rel(out@, perm, src, rel, j as int),
        {
            let x = monster_stat_from(&m[j]);
            assert(src[j as int] == m@[j as int]@);
            let ghost before = out@;
            let ghost pb = perm;
            insert_monster(&mut out, x);
            proof {
                let p = choose|p: int| 0 <= p <= before.len() && out@ == before.insert(p, x);
                lemma_perm_rel_insert(before, pb, src, rel, j as int, p, x);
                perm = pb.insert(p, j as int);
            }
        }
        proof {
            lemma_perm_rel_done(out@, perm, src, rel);
        }
    out
}

impl LogStorage {
    /// Counts, per monster and per move name, the move changes recorded in the
    /// log (entries that carry a monster id and a move id), most active
    /// monsters first and then by monster id; each monster's moves are listed
    /// most frequent first and then by move id. Monster names come from
    /// `monster_names` ("未知" when unknown); a move without a recorded name is
    /// named from `actions`, or `动作 #{id}`.
    pub fn compute_action_stats(&self, monster_names: &NameTable, actions: &ActionTable) -> (r: Vec<
        MonsterActionStats,
    >)
        ensures
            ({
                let t = move_tallies(self@, monster_names@, actions@);
                let rel = |a: MonsterActionStats, b: MonsterTally| monster_stat_of(a, b);
                &&& r@.len() == t.len()
                &&& all_from(r@, t, rel)
                &&& all_in(r@, t, rel)
                &&& sorted_monsters(r@)
            }),
    {
        let es = self.all_entries();
        let mut m: Vec<MonsterAcc> = Vec::new();
        let n = es.len();
        for i in 0..n
            invariant
                n == es@.len(),
                es@ == flatten(self@),
                monsters_view(m@) == count_entries(es@.subrange(0, i as int), monster_names@, actions@),
        {
            assert(es@.subrange(0, i + 1).drop_last() =~= es@.subrange(0, i as int));
            count_entry(&mut m, &es[i], monster_names, actions);
        }
        assert(es@.subrange(0, n as int) =~= es@);
        monsters_in_order(&m)
    }
}

// ── Reading back a rendered quest time ───────────────────────────

proof fn lemma_digits_quote_free(s: Seq<char>)
    requires
        all_digits(s),
    ensures
        forall|k: int| 0 <= k < s.len() ==> s[k] != '\'',
{
    assert forall|k: int| 0 <= k < s.len() implies s[k] != '\'' by {
        assert(is_digit(s[k]));
    }
}

/// `parse_quest_elapsed` is the inverse of `format_quest_time` up to the
/// centisecond the format keeps: parsing the text `format_quest_time(ms)`
/// renders (`quest_time_spec(ms)`) gives `ms - ms % 10`.
pub proof fn law_quest_time_round_trip(ms: u64)
    ensures
        quest_elapsed_spec(crate::reader::quest_time_spec(ms)) == (ms / 10) * 10,
        quest_elapsed_spec(crate::reader::quest_time_spec(ms)) == ms - ms % 10,
{
    let cs = ms / 10;
    let a = cs / 6000;
    let b = (cs / 100) % 60;
    let c = cs % 100;
    let sa = dec(a as nat);
    let sb = zero_pad(dec(b as nat), 2);
    let sc = zero_pad(dec(c as nat), 2);
    lemma_dec_digits(a as nat);
    lemma_pad2_digits(b as nat);
    lemma_pad2_digits(c as nat);
    lemma_digits_quote_free(sa);
    lemma_digits_quote_free(sb);
    lemma_digits_quote_free(sc);
    let q = seq!['\''];
    let s = crate::reader::quest_time_spec(ms);
    assert(s =~= sa + q + sb + q + sc);
    lemma_find_char(s, '\'', 0, sa.len() as int);
    let r = s.subrange(sa.len() as int + 1, s.len() as int);
    assert(s.subrange(0, sa.len() as int) =~= sa);
    assert(r =~= sb + q + sc);
    lemma_find_char(r, '\'', 0, sb.len() as int);
    assert(r.subrange(0, sb.len() as int) =~= sb);
    assert(r.subrange(sb.len() as int + 1, r.len() as int) =~= sc);
    lemma_find_char_none(sc, '\'', 0);
    lemma_parse_digits(sa, u64::MAX as int);
    lemma_parse_digits(sb, u64::MAX as int);
    lemma_parse_digits(sc, u64::MAX as int);
    assert(u64_or_zero(sa) == a);
    assert(u64_or_zero(sb) == b);
    assert(u64_or_zero(sc) == c);
    assert(a * 60000 + b * 1000 + c * 10 == (ms / 10) * 10) by (nonlinear_arith)
        requires
            cs == ms / 10,
            a == cs / 6000,
            b == (cs / 100) % 60,
            c == cs % 100,
    ;
    assert(a * 60000 <= u64::MAX) by (nonlinear_arith)
        requires
            a == cs / 6000,
            cs == ms / 10,
    ;
    assert(a.wrapping_mul(60000) == a * 60000);
    assert(b.wrapping_mul(1000) == b * 1000);
    assert(c.wrapping_mul(10) == c * 10);
}

/// An interruption message, or a lost connection, only forgets the quest
/// being recorded: no outcome is counted for it.
pub proof fn law_interruption_not_counted(st: QuestScan, e: LogEntry)
    requires
        e.level == LogLevel::Quest,
        quest_start(e.message@) is None,
        quest_reset(e.message@),
    ensures
        scan_step(st, e).tallies == st.tallies,
        scan_step(st, e).current is None,
{
}

/// The quest-level entries of a sequence, in order.
pub open spec fn quest_only(es: Seq<LogEntry>) -> Seq<LogEntry>
    decreases es.len(),
{
    if es.len() == 0 {
        Seq::empty()
    } else if es.last().level == LogLevel::Quest {
        quest_only(es.drop_last()).push(es.last())
    } else {
        quest_only(es.drop_last())
    }
}

proof fn lemma_scan_quest_only(es: Seq<LogEntry>)
    ensures
        scan_entries(es) == scan_entries(quest_only(es)),
    decreases es.len(),
{
    if es.len() > 0 {
        lemma_scan_quest_only(es.drop_last());
        if es.last().level == LogLevel::Quest {
            let q = quest_only(es.drop_last()).push(es.last());
            assert(q.drop_last() =~= quest_only(es.drop_last()));
            assert(q.last() == es.last());
        }
    }
}

/// The quest statistics depend only on the quest-level entries, in the order
/// they were logged: adding, removing or changing other entries, or splitting
/// the log into rounds differently, leaves the tallies (and with them every
/// field of `compute_quest_stats`' result) unchanged.
pub proof fn law_stats_depend_on_quest_entries(m1: Seq<Seq<LogEntry>>, m2: Seq<Seq<LogEntry>>)
    requires
        quest_only(flatten(m1)) == quest_only(flatten(m2)),
    ensures
        quest_tallies(m1) == quest_tallies(m2),
{
    lemma_scan_quest_only(flatten(m1));
    lemma_scan_quest_only(flatten(m2));
}

// ── Move totals ─────────────────────────────────────────────────

/// Number of entries that record a move (a monster id and a move id).
pub open spec fn move_entries(es: Seq<LogEntry>) -> int
    decreases es.len(),
{
    if es.len() == 0 {
        0
    } else {
        move_entries(es.drop_last()) + if es.last().monster_id is Some && es.last().action_id is Some {
            1int
        } else {
            0int
        }
    }
}

/// Exact sum of the move counts of one monster.
pub open spec fn action_total(a: Seq<ActionTally>) -> int
    decreases a.len(),
{
    if a.len() == 0 {
        0
    } else {
        action_total(a.drop_last()) + a.last().count
    }
}

/// Sum over all monsters of the per-monster totals that the report shows.
pub open spec fn reported_total(m: Seq<MonsterTally>) -> int
    decreases m.len(),
{
    if m.len() == 0 {
        0
    } else {
        reported_total(m.drop_last()) + count_sum(m.last().actions)
    }
}

/// Exact sum of every move count.
spec fn monster_total(m: Seq<MonsterTally>) -> int
    decreases m.len(),
{
    if m.len() == 0 {
        0
    } else {
        monster_total(m.drop_last()) + action_total(m.last().actions)
    }
}

proof fn lemma_action_total_update(a: Seq<ActionTally>, j: int, x: ActionTally)
    requires
        0 <= j < a.len(),
    ensures
        action_total(a.update(j, x)) == action_total(a) - a[j].count + x.count,
        a[j].count <= action_total(a),
        0 <= action_total(a),
    decreases a.len(),
{
    let b = a.update(j, x);
    if j == a.len() - 1 {
        assert(b.drop_last() =~= a.drop_last());
        lemma_action_total_nonneg(a.drop_last());
    } else {
        assert(b.drop_last() =~= a.drop_last().update(j, x));
        lemma_action_total_update(a.drop_last(), j, x);
    }
}

proof fn lemma_action_total_nonneg(a: Seq<ActionTally>)
    ensures
        0 <= action_total(a),
    decreases a.len(),
{
    if a.len() > 0 {
        lemma_action_total_nonneg(a.drop_last());
    }
}

proof fn lemma_count_sum_exact(a: Seq<ActionTally>)
    requires
        action_total(a) <= u32::MAX,
    ensures
        count_sum(a) == action_total(a),
    decreases a.len(),
{
    if a.len() > 0 {
        lemma_action_total_nonneg(a.drop_last());
        lemma_count_sum_exact(a.drop_last());
    }
}

proof fn lemma_add_action_total(a: Seq<ActionTally>, name: Seq<char>, aid: i32)
    requires
        action_total(a) < u32::MAX,
    ensures
        action_total(add_action(a, name, aid)) == action_total(a) + 1,
{
    lemma_action_index(a, name);
    match action_index(a, name) {
        Some(j) => {
            lemma_action_total_update(a, j, ActionTally { name: a[j].name, id: a[j].id, count: a[j].count.wrapping_add(1) });
        },
        None => {
            let b = a.push(ActionTally { name, id: aid, count: 1 });
            assert(b.drop_last() =~= a);
        },
    }
}

proof fn lemma_monster_total_update(m: Seq<MonsterTally>, i: int, x: MonsterTally)
    requires
        0 <= i < m.len(),
    ensures
        monster_total(m.update(i, x)) == monster_total(m) - action_total(m[i].actions) + action_total(x.actions),
        action_total(m[i].actions) <= monster_total(m),
    decreases m.len(),
{
    let b = m.update(i, x);
    if i == m.len() - 1 {
        assert(b.drop_last() =~= m.drop_last());
        lemma_monster_total_nonneg(m.drop_last());
    } else {
        assert(b.drop_last() =~= m.drop_last().update(i, x));
        lemma_monster_total_update(m.drop_last(), i, x);
        lemma_action_total_nonneg(m.last().actions);
    }
}

proof fn lemma_monster_total_nonneg(m: Seq<MonsterTally>)
    ensures
        0 <= monster_total(m),
    decreases m.len(),
{
    if m.len() > 0 {
        lemma_monster_total_nonneg(m.drop_last());
        lemma_action_total_nonneg(m.last().actions);
    }
}

proof fn lemma_count_step_total(
    m: Seq<MonsterTally>,
    e: LogEntry,
    names: Seq<(i32, String)>,
    acts: Seq<(i32, i32, String)>,
)
    requires
        monster_total(m) < u32::MAX,
    ensures
        monster_total(count_step(m, e, names, acts)) == monster_total(m) + if e.monster_id is Some
            && e.action_id is Some {
            1int
        } else {
            0int
        },
{
    match (e.monster_id, e.action_id) {
        (Some(mid), Some(aid)) => {
            let an = move_name(e, acts, mid, aid);
            lemma_monster_index(m, mid);
            match monster_index(m, mid) {
                Some(i) => {
                    let x = MonsterTally { id: m[i].id, name: m[i].name, actions: add_action(m[i].actions, an, aid) };
                    lemma_monster_total_update(m, i, x);
                    lemma_add_action_total(m[i].actions, an, aid);
                },
                None => {
                    let x = MonsterTally {
                        id: mid,
                        name: monster_name_or_unknown(names, mid),
                        actions: add_action(Seq::empty(), an, aid),
                    };
                    lemma_add_action_total(Seq::empty(), an, aid);
                    assert(m.push(x).drop_last() =~= m);
                },
            }
        },
        _ => {},
    }
}

proof fn lemma_count_entries_total(es: Seq<LogEntry>, names: Seq<(i32, String)>, acts: Seq<(i32, i32, String)>)
    requires
        es.len() <= u32::MAX,
    ensures
        monster_total(count_entries(es, names, acts)) == move_entries(es),
        0 <= move_entries(es) <= es.len(),
    decreases es.len(),
{
    if es.len() > 0 {
        lemma_count_entries_total(es.drop_last(), names, acts);
        lemma_count_step_total(count_entries(es.drop_last(), names, acts), es.last(), names, acts);
    }
}

proof fn lemma_reported_exact(m: Seq<MonsterTally>)
    requires
        monster_total(m) <= u32::MAX,
    ensures
        reported_total(m) == monster_total(m),
    decreases m.len(),
{
    if m.len() > 0 {
        lemma_monster_total_nonneg(m.drop_last());
        lemma_action_total_nonneg(m.last().actions);
        lemma_count_sum_exact(m.last().actions);
        lemma_reported_exact(m.drop_last());
    }
}

/// The move report accounts for every recorded move once: while the log holds
/// no more entries than a `u32` counts, the per-monster totals (`count_sum` of
/// each tally, reported as `total_actions`) add up to the number of entries
/// that carry both a monster id and a move id, and each of them is the exact
/// sum of that monster's move counts.
pub proof fn law_move_totals_count_every_move(
    m: Seq<Seq<LogEntry>>,
    names: Seq<(i32, String)>,
    acts: Seq<(i32, i32, String)>,
)
    requires
        flatten(m).len() <= u32::MAX,
    ensures
        reported_total(move_tallies(m, names, acts)) == move_entries(flatten(m)),
        forall|i: int|
            0 <= i < move_tallies(m, names, acts).len() ==> count_sum(#[trigger] move_tallies(m, names, acts)[i].actions)
                == action_total(move_tallies(m, names, acts)[i].actions),
{
    let t = move_tallies(m, names, acts);
    lemma_count_entries_total(flatten(m), names, acts);
    lemma_reported_exact(t);
    assert forall|i: int| 0 <= i < t.len() implies count_sum(#[trigger] t[i].actions) == action_total(t[i].actions) by {
        lemma_monster_total_update(t, i, t[i]);
        lemma_count_sum_exact(t[i].actions);
    }
}

// ── Quest statistic ranges ──────────────────────────────────────

/// Exact sum of completion times.
pub open spec fn isum(s: Seq<u64>) -> int
    decreases s.len(),
{
    if s.len() == 0 {
        0
    } else {
        isum(s.drop_last()) + s.last()
    }
}

/// What every tally keeps: outcomes never exceed the runs, which never exceed
/// the entries read; one time per success; one abandon count per abandon.
spec fn tally_sane(t: QuestTally, n: int) -> bool {
    &&& t.total <= n
    &&& t.success + t.fail + t.abandon <= t.total
    &&& t.times.len() == t.success
    &&& t.abandon_cnt == t.abandon
}

spec fn tallies_sane(ts: Seq<QuestTally>, n: int) -> bool {
    forall|i: int| 0 <= i < ts.len() ==> tally_sane(#[trigger] ts[i], n)
}

proof fn lemma_scan_sane(es: Seq<LogEntry>)
    requires
        es.len() <= u32::MAX,
    ensures
        tallies_sane(scan_entries(es).tallies, es.len() as int),
    decreases es.len(),
{
    if es.len() > 0 {
        let pre = es.drop_last();
        let n = es.len() as int;
        lemma_scan_sane(pre);
        let st = scan_entries(pre);
        let e = es.last();
        assert(tallies_sane(st.tallies, n));
        if e.level == LogLevel::Quest && quest_start(e.message@) is None && !quest_reset(e.message@) {
            if let Some((label, ms)) = quest_end(e.message@) {
                let (name, qid) = match st.current {
                    Some(c) => c,
                    None => ("未知"@, 0i32),
                };
                lemma_tally_index(st.tallies, name);
                reveal_strlit("成功");
                reveal_strlit("失败");
                reveal_strlit("放弃");
                assert("成功"@ != "失败"@ && "成功"@ != "放弃"@ && "失败"@ != "放弃"@) by {
                    assert("成功"@[1] != "失败"@[1]);
                    assert("成功"@[1] != "放弃"@[1]);
                    assert("失败"@[1] != "放弃"@[1]);
                }
                match tally_index(st.tallies, name) {
                    Some(i) => {
                        assert(tally_sane(st.tallies[i], n - 1));
                        let b = st.tallies[i];
                        let x = tally_outcome(b, qid, label, ms);
                        assert(tally_sane(x, n));
                    },
                    None => {
                        let x = tally_outcome(fresh_tally(name, qid), qid, label, ms);
                        assert(tally_sane(x, n));
                    },
                }
                let r = record_outcome(st.tallies, name, qid, label, ms);
                assert forall|k: int| 0 <= k < r.len() implies tally_sane(#[trigger] r[k], n) by {
                    match tally_index(st.tallies, name) {
                        Some(i) => {
                            if k != i {
                                assert(tally_sane(st.tallies[k], n));
                            }
                        },
                        None => {
                            if k < st.tallies.len() {
                                assert(tally_sane(st.tallies[k], n));
                            }
                        },
                    }
                }
            }
        }
    }
}

proof fn lemma_wsum_exact(s: Seq<u64>)
    requires
        isum(s) <= u64::MAX,
    ensures
        wsum(s) == isum(s),
        0 <= isum(s),
    decreases s.len(),
{
    if s.len() > 0 {
        lemma_isum_nonneg(s.drop_last());
        lemma_wsum_exact(s.drop_last());
    }
}

proof fn lemma_isum_nonneg(s: Seq<u64>)
    ensures
        0 <= isum(s),
    decreases s.len(),
{
    if s.len() > 0 {
        lemma_isum_nonneg(s.drop_last());
    }
}

proof fn lemma_min_max_bounds(s: Seq<u64>)
    requires
        s.len() >= 1,
    ensures
        seq_min(s) <= seq_max(s),
        seq_min(s) * s.len() <= isum(s),
        isum(s) <= seq_max(s) * s.len(),
    decreases s.len(),
{
    if s.len() == 1 {
        assert(s.drop_last().len() == 0);
        assert(isum(s.drop_last()) == 0);
        assert(isum(s) == s[0] && seq_min(s) == s[0] && seq_max(s) == s[0]);
    } else {
        let p = s.drop_last();
        lemma_min_max_bounds(p);
        let lo = seq_min(s) as int;
        let hi = seq_max(s) as int;
        let n = p.len() as int;
        assert(lo <= seq_min(p) && seq_max(p) <= hi && lo <= s.last() && s.last() <= hi);
        assert(lo * n <= seq_min(p) * n) by (nonlinear_arith)
            requires
                lo <= seq_min(p),
                n >= 0,
        ;
        assert(seq_max(p) * n <= hi * n) by (nonlinear_arith)
            requires
                seq_max(p) <= hi,
                n >= 0,
        ;
        assert(lo * (n + 1) == lo * n + lo && hi * (n + 1) == hi * n + hi) by (nonlinear_arith);
        assert(s.len() == n + 1 && isum(s) == isum(p) + s.last());
    }
}

/// Every quest statistic is consistent with itself: successes, failures and
/// abandons together never exceed the runs; the recent list holds the last
/// `min(success, 20)` completion times; the fastest time is no slower than the
/// slowest; and where the completion times sum within `u64`, the average
/// completion lies between the fastest and the slowest. This holds while the
/// log holds no more entries than a `u32` counts.
pub proof fn law_quest_stat_ranges(m: Seq<Seq<LogEntry>>, j: int, q: QuestStat)
    requires
        flatten(m).len() <= u32::MAX,
        0 <= j < quest_tallies(m).len(),
        stat_of(q, quest_tallies(m)[j]),
    ensures
        q.success + q.fail + q.abandon <= q.total,
        q.recent_completions@.len() == (if q.success < 20 {
            q.success as int
        } else {
            20
        }),
        q.fastest_ms <= q.slowest_ms,
        isum(quest_tallies(m)[j].times) <= u64::MAX ==> q.fastest_ms <= q.avg_completion_ms
            <= q.slowest_ms,
{
    let t = quest_tallies(m)[j];
    lemma_scan_sane(flatten(m));
    assert(tally_sane(t, flatten(m).len() as int));
    reveal(stat_of);
    if t.times.len() >= 1 {
        lemma_min_max_bounds(t.times);
        if isum(t.times) <= u64::MAX {
            lemma_wsum_exact(t.times);
            let n = t.times.len() as int;
            let lo = seq_min(t.times) as int;
            let hi = seq_max(t.times) as int;
            let x = isum(t.times);
            assert(lo <= x / n) by (nonlinear_arith)
                requires
                    lo * n <= x,
                    n >= 1,
            ;
            assert(x / n <= hi) by (nonlinear_arith)
                requires
                    x <= hi * n,
                    n >= 1,
            ;
        }
    }
}

// ── Quest statistics against the end messages ─────────────────────

/// The quest an end message is counted under: the one started last and not
/// yet ended or reset, else `未知`.
pub open spec fn run_name(c: Option<(Seq<char>, i32)>) -> Seq<char> {
    match c {
        Some(c) => c.0,
        None => "未知"@,
    }
}

/// Whether `e` is an end message (`任务{label}！耗时 {time}`) at quest level.
pub open spec fn is_end_message(e: LogEntry) -> bool {
    &&& e.level == LogLevel::Quest
    &&& quest_start(e.message@) is None
    &&& !quest_reset(e.message@)
    &&& quest_end(e.message@) is Some
}

/// The (label, elapsed ms) of every end message of the log counted under quest `name`, in order.
pub open spec fn quest_outcomes(es: Seq<LogEntry>, name: Seq<char>) -> Seq<(Seq<char>, u64)>
    decreases es.len(),
{
    if es.len() == 0 {
        Seq::empty()
    } else {
        let pre = quest_outcomes(es.drop_last(), name);
        let e = es.last();
        if is_end_message(e) && run_name(scan_entries(es.drop_last()).current) == name {
            pre.push(quest_end(e.message@).unwrap())
        } else {
            pre
        }
    }
}

/// The elapsed times of the outcomes with `label`, in order.
pub open spec fn times_with(o: Seq<(Seq<char>, u64)>, label: Seq<char>) -> Seq<u64>
    decreases o.len(),
{
    if o.len() == 0 {
        Seq::empty()
    } else if o.last().0 == label {
        times_with(o.drop_last(), label).push(o.last().1)
    } else {
        times_with(o.drop_last(), label)
    }
}

/// A tally agrees with the outcomes counted under its name.
spec fn tally_matches(t: QuestTally, o: Seq<(Seq<char>, u64)>) -> bool {
    &&& t.total == o.len()
    &&& t.success == times_with(o, "成功"@).len()
    &&& t.fail == times_with(o, "失败"@).len()
    &&& t.abandon == times_with(o, "放弃"@).len()
    &&& t.abandon_cnt == times_with(o, "放弃"@).len()
    &&& t.abandon_ms == wsum(times_with(o, "放弃"@))
    &&& t.times == times_with(o, "成功"@)
}

proof fn lemma_times_with_len(o: Seq<(Seq<char>, u64)>, label: Seq<char>)
    ensures
        times_with(o, label).len() <= o.len(),
    decreases o.len(),
{
    if o.len() > 0 {
        lemma_times_with_len(o.drop_last(), label);
    }
}

proof fn lemma_outcomes_len(es: Seq<LogEntry>, name: Seq<char>)
    ensures
        quest_outcomes(es, name).len() <= es.len(),
    decreases es.len(),
{
    if es.len() > 0 {
        lemma_outcomes_len(es.drop_last(), name);
    }
}

proof fn lemma_outcome_matches(t: QuestTally, o: Seq<(Seq<char>, u64)>, qid: i32, label: Seq<char>, ms: u64)
    requires
        tally_matches(t, o),
        o.len() < u32::MAX,
    ensures
        tally_matches(tally_outcome(t, qid, label, ms), o.push((label, ms))),
{
    let o2 = o.push((label, ms));
    assert(o2.drop_last() =~= o);
    lemma_times_with_len(o, "成功"@);
    lemma_times_with_len(o, "失败"@);
    lemma_times_with_len(o, "放弃"@);
    reveal_strlit("成功");
    reveal_strlit("失败");
    reveal_strlit("放弃");
    assert("成功"@ != "失败"@ && "成功"@ != "放弃"@ && "失败"@ != "放弃"@) by {
        assert("成功"@[1] != "失败"@[1]);
        assert("成功"@[1] != "放弃"@[1]);
        assert("失败"@[1] != "放弃"@[1]);
    }
    let ab = times_with(o, "放弃"@);
    assert(ab.push(ms).drop_last() =~= ab);
}

#[verifier::rlimit(50)]
proof fn lemma_scan_outcomes(es: Seq<LogEntry>)
    requires
        es.len() <= u32::MAX,
    ensures
        forall|i: int|
            0 <= i < scan_entries(es).tallies.len() ==> tally_matches(
                #[trigger] scan_entries(es).tallies[i],
                quest_outcomes(es, scan_entries(es).tallies[i].name),
            ),
        forall|name: Seq<char>|
            tally_index(scan_entries(es).tallies, name) is None ==> #[trigger] quest_outcomes(es, name).len()
                == 0,
    decreases es.len(),
{
    if es.len() > 0 {
        let pre = es.drop_last();
        lemma_scan_outcomes(pre);
        lemma_scan_distinct(pre);
        let st = scan_entries(pre);
        let e = es.last();
        let cur = run_name(st.current);
        if is_end_message(e) {
            let (label, ms) = quest_end(e.message@).unwrap();
            let qid = match st.current {
                Some(c) => c.1,
                None => 0i32,
            };
            assert(scan_entries(es).tallies == record_outcome(st.tallies, cur, qid, label, ms));
            lemma_tally_index(st.tallies, cur);
            let r = record_outcome(st.tallies, cur, qid, label, ms);
            let ob = quest_outcomes(pre, cur);
            let oa = quest_outcomes(es, cur);
            assert(oa == ob.push((label, ms)));
            assert(oa.drop_last() == ob);
            lemma_outcomes_len(pre, cur);
            match tally_index(st.tallies, cur) {
                Some(i) => {
                    assert(tally_matches(st.tallies[i], ob));
                    lemma_outcome_matches(st.tallies[i], ob, qid, label, ms);
                    assert(tally_matches(r[i], oa));
                },
                None => {
                    assert(ob.len() == 0);
                    assert(ob =~= Seq::<(Seq<char>, u64)>::empty());
                    assert(tally_matches(fresh_tally(cur, qid), ob));
                    lemma_outcome_matches(fresh_tally(cur, qid), ob, qid, label, ms);
                    assert(tally_matches(r[r.len() - 1], oa));
                },
            }
            assert forall|k: int| 0 <= k < r.len() implies tally_matches(
                #[trigger] r[k],
                quest_outcomes(es, r[k].name),
            ) by {
                if r[k].name != cur {
                    assert(r[k] == st.tallies[k]);
                    assert(quest_outcomes(es, r[k].name) == quest_outcomes(pre, r[k].name));
                }
            }
            assert forall|name: Seq<char>| tally_index(r, name) is None implies #[trigger] quest_outcomes(
                es,
                name,
            ).len() == 0 by {
                lemma_tally_index(r, name);
                lemma_tally_index(st.tallies, name);
                if name == cur {
                    match tally_index(st.tallies, cur) {
                        Some(i) => {
                            assert(r[i].name == cur);
                        },
                        None => {
                            assert(r[r.len() - 1].name == cur);
                        },
                    }
                } else {
                    assert(quest_outcomes(es, name) == quest_outcomes(pre, name));
                    if let Some(k) = tally_index(st.tallies, name) {
                        assert(r[k].name == name);
                    }
                }
            }
        } else {
            assert(scan_entries(es).tallies == st.tallies);
            assert forall|name: Seq<char>| quest_outcomes(es, name) == quest_outcomes(pre, name) by {}
        }
    }
}

proof fn lemma_min_max_members(s: Seq<u64>)
    requires
        s.len() >= 1,
    ensures
        forall|k: int| 0 <= k < s.len() ==> seq_min(s) <= #[trigger] s[k] <= seq_max(s),
        s.contains(seq_min(s)),
        s.contains(seq_max(s)),
    decreases s.len(),
{
    if s.len() == 1 {
        assert(s[0] == seq_min(s) && s[0] == seq_max(s));
    } else {
        let p = s.drop_last();
        lemma_min_max_members(p);
        assert forall|k: int| 0 <= k < s.len() implies seq_min(s) <= #[trigger] s[k] <= seq_max(s) by {
            if k < p.len() {
                assert(s[k] == p[k]);
            }
        }
        let a = choose|a: int| 0 <= a < p.len() && p[a] == seq_min(p);
        let b = choose|b: int| 0 <= b < p.len() && p[b] == seq_max(p);
        assert(s[a] == p[a] && s[b] == p[b]);
        assert(s[s.len() - 1] == s.last());
    }
}

proof fn lemma_int_mean(x: int, n: int)
    requires
        0 <= x,
        0 < n,
    ensures
        (x / n) * n <= x < (x / n + 1) * n,
{
    crate::clock::lemma_div_bounds(x, n);
    assert((x / n + 1) * n == (x / n) * n + n) by (nonlinear_arith);
}

/// Each quest's statistics are what its end messages say. Of the runs counted
/// under the quest's name, in order: `total` is their number; `success`,
/// `fail` and `abandon` count those labelled 成功, 失败 and 放弃;
/// `avg_abandon_ms` is the integer mean of the abandoned runs' times and
/// `avg_completion_ms` that of the successful runs' times (where those times
/// sum within `u64`); `fastest_ms` and `slowest_ms` are the least and the
/// greatest successful time; `recent_completions` holds the last twenty (or
/// fewer) successful times, oldest first. This holds while the log holds no
/// more entries than a `u32` counts.
pub proof fn law_quest_stats_from_end_messages(m: Seq<Seq<LogEntry>>, q: QuestStat)
    requires
        flatten(m).len() <= u32::MAX,
        from_tally(q, quest_tallies(m)),
    ensures
        ({
            let o = quest_outcomes(flatten(m), q.quest_name@);
            let won = times_with(o, "成功"@);
            let ab = times_with(o, "放弃"@);
            &&& q.total == o.len()
            &&& q.success == won.len()
            &&& q.fail == times_with(o, "失败"@).len()
            &&& q.abandon == ab.len()
            &&& (ab.len() == 0 ==> q.avg_abandon_ms == 0)
            &&& (ab.len() > 0 && isum(ab) <= u64::MAX ==> q.avg_abandon_ms * ab.len() <= isum(ab) < (
            q.avg_abandon_ms + 1) * ab.len())
            &&& (won.len() == 0 ==> q.avg_completion_ms == 0 && q.fastest_ms == 0 && q.slowest_ms == 0)
            &&& (won.len() > 0 && isum(won) <= u64::MAX ==> q.avg_completion_ms * won.len() <= isum(won) < (
            q.avg_completion_ms + 1) * won.len())
            &&& (forall|k: int| 0 <= k < won.len() ==> q.fastest_ms <= #[trigger] won[k] <= q.slowest_ms)
            &&& (won.len() > 0 ==> won.contains(q.fastest_ms) && won.contains(q.slowest_ms))
            &&& q.recent_completions@ == (if won.len() > 20 {
                won.subrange(won.len() - 20, won.len() as int)
            } else {
                won
            })
        }),
{
    let es = flatten(m);
    let tv = quest_tallies(m);
    let j = choose|j: int| 0 <= j < tv.len() && stat_of(q, tv[j]);
    let t = tv[j];
    lemma_scan_outcomes(es);
    assert(tally_matches(t, quest_outcomes(es, t.name)));
    reveal(stat_of);
    let o = quest_outcomes(es, t.name);
    let won = times_with(o, "成功"@);
    let ab = times_with(o, "放弃"@);
    if ab.len() > 0 && isum(ab) <= u64::MAX {
        lemma_wsum_exact(ab);
        lemma_int_mean(isum(ab), ab.len() as int);
    }
    if won.len() > 0 {
        lemma_min_max_members(won);
        if isum(won) <= u64::MAX {
            lemma_wsum_exact(won);
            lemma_int_mean(isum(won), won.len() as int);
        }
    }
}

// ── Per-move counts against the log ───────────────────────────────

/// Whether entry `e` records move `name` of monster `mid` (under the name the report gives it).
pub open spec fn sights(e: LogEntry, acts: Seq<(i32, i32, String)>, mid: i32, name: Seq<char>) -> bool {
    match (e.monster_id, e.action_id) {
        (Some(x), Some(aid)) => x == mid && move_name(e, acts, x, aid) == name,
        _ => false,
    }
}

/// Number of entries of the log that record move `name` of monster `mid`.
pub open spec fn move_sightings(es: Seq<LogEntry>, acts: Seq<(i32, i32, String)>, mid: i32, name: Seq<char>) -> int
    decreases es.len(),
{
    if es.len() == 0 {
        0
    } else {
        move_sightings(es.drop_last(), acts, mid, name) + if sights(es.last(), acts, mid, name) {
            1int
        } else {
            0int
        }
    }
}

spec fn names_distinct(a: Seq<ActionTally>) -> bool {
    forall|k1: int, k2: int| 0 <= k1 < k2 < a.len() ==> a[k1].name != a[k2].name
}

spec fn tallies_distinct(t: Seq<MonsterTally>) -> bool {
    &&& forall|i1: int, i2: int| 0 <= i1 < i2 < t.len() ==> t[i1].id != t[i2].id
    &&& forall|i: int| 0 <= i < t.len() ==> names_distinct(#[trigger] t[i].actions)
}

spec fn counts_match(t: Seq<MonsterTally>, es: Seq<LogEntry>, acts: Seq<(i32, i32, String)>) -> bool {
    forall|i: int, k: int|
        0 <= i < t.len() && 0 <= k < t[i].actions.len() ==> #[trigger] t[i].actions[k].count
            == move_sightings(es, acts, t[i].id, t[i].actions[k].name)
}

spec fn listed(t: Seq<MonsterTally>, mid: i32, name: Seq<char>) -> bool {
    exists|i: int, k: int|
        0 <= i < t.len() && 0 <= k < t[i].actions.len() && t[i].id == mid && #[trigger] t[i].actions[k].name
            == name
}

spec fn all_listed(t: Seq<MonsterTally>, es: Seq<LogEntry>, acts: Seq<(i32, i32, String)>) -> bool {
    forall|mid: i32, name: Seq<char>| #[trigger] move_sightings(es, acts, mid, name) > 0 ==> listed(t, mid, name)
}

proof fn lemma_sightings_bound(es: Seq<LogEntry>, acts: Seq<(i32, i32, String)>, mid: i32, name: Seq<char>)
    ensures
        0 <= move_sightings(es, acts, mid, name) <= es.len(),
    decreases es.len(),
{
    if es.len() > 0 {
        lemma_sightings_bound(es.drop_last(), acts, mid, name);
    }
}

proof fn lemma_add_action_facts(a: Seq<ActionTally>, name: Seq<char>, aid: i32)
    requires
        names_distinct(a),
        forall|k: int| 0 <= k < a.len() && a[k].name == name ==> a[k].count < u32::MAX,
    ensures
        ({
            let b = add_action(a, name, aid);
            &&& names_distinct(b)
            &&& b.len() == a.len() || b.len() == a.len() + 1
            &&& forall|k: int|
                0 <= k < a.len() ==> #[trigger] b[k].name == a[k].name && (a[k].name != name ==> b[k].count
                    == a[k].count) && (a[k].name == name ==> b[k].count == a[k].count + 1)
            &&& b.len() == a.len() + 1 ==> (forall|k: int| 0 <= k < a.len() ==> a[k].name != name) && b.last().name
                == name && b.last().count == 1
            &&& b.len() == a.len() ==> exists|k: int| 0 <= k < a.len() && a[k].name == name
        }),
{
    lemma_action_index(a, name);
    let b = add_action(a, name, aid);
    match action_index(a, name) {
        Some(j) => {
            assert forall|k: int| 0 <= k < a.len() && a[k].name == name implies k == j by {
                if k != j {
                    if k < j {
                        assert(a[k].name != a[j].name);
                    } else {
                        assert(a[j].name != a[k].name);
                    }
                }
            }
            assert(b.len() == a.len());
        },
        None => {
            assert forall|k1: int, k2: int| 0 <= k1 < k2 < b.len() implies b[k1].name != b[k2].name by {
                if k2 == a.len() {
                    assert(b[k1] == a[k1]);
                }
            }
        },
    }
}

/// What `count_step` adds to the sightings.
proof fn lemma_sightings_step(es: Seq<LogEntry>, acts: Seq<(i32, i32, String)>)
    requires
        es.len() > 0,
    ensures
        forall|mid: i32, name: Seq<char>|
            #[trigger] move_sightings(es, acts, mid, name) == move_sightings(es.drop_last(), acts, mid, name) + if sights(
                es.last(),
                acts,
                mid,
                name,
            ) {
                1int
            } else {
                0int
            },
{
}

#[verifier::rlimit(100)]
proof fn lemma_count_entries_match(es: Seq<LogEntry>, names: Seq<(i32, String)>, acts: Seq<(i32, i32, String)>)
    requires
        es.len() <= u32::MAX,
    ensures
        tallies_distinct(count_entries(es, names, acts)),
        counts_match(count_entries(es, names, acts), es, acts),
        all_listed(count_entries(es, names, acts), es, acts),
    decreases es.len(),
{
    if es.len() == 0 {
        return;
    }
    let pre = es.drop_last();
    let e = es.last();
    lemma_count_entries_match(pre, names, acts);
    lemma_sightings_step(es, acts);
    let t = count_entries(pre, names, acts);
    let t2 = count_entries(es, names, acts);
    assert(t2 == count_step(t, e, names, acts));
    match (e.monster_id, e.action_id) {
        (Some(mid), Some(aid)) => {
            let an = move_name(e, acts, mid, aid);
            lemma_monster_index(t, mid);
            lemma_sightings_bound(pre, acts, mid, an);
            match monster_index(t, mid) {
                Some(i) => {
                    let a = t[i].actions;
                    assert(names_distinct(a));
                    assert forall|k: int| 0 <= k < a.len() && a[k].name == an implies a[k].count < u32::MAX by {
                        assert(t[i].actions[k].count == move_sightings(pre, acts, t[i].id, t[i].actions[k].name));
                    }
                    lemma_add_action_facts(a, an, aid);
                    let b = add_action(a, an, aid);
                    assert(t2 == t.update(i, MonsterTally { id: t[i].id, name: t[i].name, actions: b }));
                    // ids are distinct, so only tally `i` belongs to `mid`
                    assert forall|i3: int| 0 <= i3 < t.len() && t[i3].id == mid implies i3 == i by {
                        if i3 < i {
                            assert(t[i3].id != t[i].id);
                        } else if i3 > i {
                            assert(t[i].id != t[i3].id);
                        }
                    }
                    if b.len() == a.len() + 1 {
                        if move_sightings(pre, acts, mid, an) > 0 {
                            assert(listed(t, mid, an));
                            let (i3, k3) = choose|i3: int, k3: int|
                                0 <= i3 < t.len() && 0 <= k3 < t[i3].actions.len() && t[i3].id == mid
                                    && #[trigger] t[i3].actions[k3].name == an;
                            assert(i3 == i);
                            assert(a[k3].name != an);
                        }
                    }
                    assert(tallies_distinct(t2));
                    assert forall|i2: int, k: int| 0 <= i2 < t2.len() && 0 <= k < t2[i2].actions.len() implies #[trigger] t2[i2].actions[k].count
                        == move_sightings(es, acts, t2[i2].id, t2[i2].actions[k].name) by {
                        if i2 != i {
                            assert(t2[i2] == t[i2]);
                            assert(t[i2].actions[k].count == move_sightings(pre, acts, t[i2].id, t[i2].actions[k].name));
                            assert(t[i2].id != mid);
                        } else if k < a.len() {
                            assert(t[i].actions[k].count == move_sightings(pre, acts, t[i].id, t[i].actions[k].name));
                            assert(b[k].name == a[k].name);
                        }
                    }
                    assert forall|mid2: i32, name2: Seq<char>| #[trigger] move_sightings(es, acts, mid2, name2) > 0 implies listed(
                        t2,
                        mid2,
                        name2,
                    ) by {
                        if sights(e, acts, mid2, name2) {
                            if b.len() == a.len() + 1 {
                                assert(t2[i].actions[b.len() - 1].name == name2);
                            } else {
                                let k = choose|k: int| 0 <= k < a.len() && a[k].name == an;
                                assert(t2[i].actions[k].name == name2);
                            }
                        } else {
                            assert(move_sightings(pre, acts, mid2, name2) > 0);
                            assert(listed(t, mid2, name2));
                            let (i3, k3) = choose|i3: int, k3: int|
                                0 <= i3 < t.len() && 0 <= k3 < t[i3].actions.len() && t[i3].id == mid2
                                    && #[trigger] t[i3].actions[k3].name == name2;
                            if i3 == i {
                                assert(b[k3].name == a[k3].name);
                                assert(t2[i3].actions[k3].name == name2);
                            } else {
                                assert(t2[i3] == t[i3]);
                                assert(t2[i3].actions[k3].name == name2);
                            }
                        }
                    }
                },
                None => {
                    lemma_add_action_facts(Seq::empty(), an, aid);
                    let b = add_action(Seq::empty(), an, aid);
                    let x = MonsterTally { id: mid, name: monster_name_or_unknown(names, mid), actions: b };
                    assert(t2 == t.push(x));
                    assert(b.len() == 1);
                    if move_sightings(pre, acts, mid, an) > 0 {
                        assert(listed(t, mid, an));
                        let (i3, k3) = choose|i3: int, k3: int|
                            0 <= i3 < t.len() && 0 <= k3 < t[i3].actions.len() && t[i3].id == mid
                                && #[trigger] t[i3].actions[k3].name == an;
                        assert(t[i3].id != mid);
                    }
                    assert forall|i1: int, i2: int| 0 <= i1 < i2 < t2.len() implies t2[i1].id != t2[i2].id by {
                        if i2 == t.len() {
                            assert(t2[i1] == t[i1]);
                        }
                    }
                    assert forall|i2: int| 0 <= i2 < t2.len() implies names_distinct(#[trigger] t2[i2].actions) by {
                        if i2 < t.len() {
                            assert(t2[i2] == t[i2]);
                        }
                    }
                    assert forall|i2: int, k: int| 0 <= i2 < t2.len() && 0 <= k < t2[i2].actions.len() implies #[trigger] t2[i2].actions[k].count
                        == move_sightings(es, acts, t2[i2].id, t2[i2].actions[k].name) by {
                        if i2 < t.len() {
                            assert(t2[i2] == t[i2]);
                            assert(t[i2].actions[k].count == move_sightings(pre, acts, t[i2].id, t[i2].actions[k].name));
                            assert(t[i2].id != mid);
                        }
                    }
                    assert forall|mid2: i32, name2: Seq<char>| #[trigger] move_sightings(es, acts, mid2, name2) > 0 implies listed(
                        t2,
                        mid2,
                        name2,
                    ) by {
                        if sights(e, acts, mid2, name2) {
                            assert(t2[t.len() as int].actions[0].name == name2);
                        } else {
                            assert(move_sightings(pre, acts, mid2, name2) > 0);
                            assert(listed(t, mid2, name2));
                            let (i3, k3) = choose|i3: int, k3: int|
                                0 <= i3 < t.len() && 0 <= k3 < t[i3].actions.len() && t[i3].id == mid2
                                    && #[trigger] t[i3].actions[k3].name == name2;
                            assert(t2[i3] == t[i3]);
                            assert(t2[i3].actions[k3].name == name2);
                        }
                    }
                },
            }
        },
        _ => {
            assert(t2 == t);
            assert forall|i2: int, k: int| 0 <= i2 < t2.len() && 0 <= k < t2[i2].actions.len() implies #[trigger] t2[i2].actions[k].count
                == move_sightings(es, acts, t2[i2].id, t2[i2].actions[k].name) by {
                assert(t[i2].actions[k].count == move_sightings(pre, acts, t[i2].id, t[i2].actions[k].name));
            }
            assert forall|mid2: i32, name2: Seq<char>| #[trigger] move_sightings(es, acts, mid2, name2) > 0 implies listed(
                t2,
                mid2,
                name2,
            ) by {
                assert(move_sightings(pre, acts, mid2, name2) > 0);
            }
        },
    }
}

/// Every move count in the move report is the number of log entries that
/// record that move (by the name the report gives it) of that monster, and
/// every move recorded in the log is reported under its monster. This holds
/// while the log holds no more entries than a `u32` counts.
pub proof fn law_move_counts_per_move(
    m: Seq<Seq<LogEntry>>,
    names: Seq<(i32, String)>,
    acts: Seq<(i32, i32, String)>,
    r: Seq<MonsterActionStats>,
)
    requires
        flatten(m).len() <= u32::MAX,
        all_from(r, move_tallies(m, names, acts), |a: MonsterActionStats, b: MonsterTally| monster_stat_of(a, b)),
        all_in(r, move_tallies(m, names, acts), |a: MonsterActionStats, b: MonsterTally| monster_stat_of(a, b)),
    ensures
        forall|i: int, k: int|
            0 <= i < r.len() && 0 <= k < r[i].actions@.len() ==> #[trigger] r[i].actions@[k].count
                == move_sightings(flatten(m), acts, r[i].monster_id, r[i].actions@[k].action_name@),
        forall|mid: i32, name: Seq<char>|
            #[trigger] move_sightings(flatten(m), acts, mid, name) > 0 ==> exists|i: int, k: int|
                0 <= i < r.len() && 0 <= k < r[i].actions@.len() && r[i].monster_id == mid
                    && #[trigger] r[i].actions@[k].action_name@ == name,
{
    let es = flatten(m);
    let t = move_tallies(m, names, acts);
    let rel = |a: MonsterActionStats, b: MonsterTally| monster_stat_of(a, b);
    let irel = |a: ActionCountItem, b: ActionTally| item_of(a, b);
    lemma_count_entries_match(es, names, acts);
    assert forall|i: int, k: int| 0 <= i < r.len() && 0 <= k < r[i].actions@.len() implies #[trigger] r[i].actions@[k].count
        == move_sightings(es, acts, r[i].monster_id, r[i].actions@[k].action_name@) by {
        assert(has_source(r[i], t, rel));
        let j = choose|j: int| 0 <= j < t.len() && rel(r[i], t[j]);
        assert(monster_stat_of(r[i], t[j]));
        assert(has_source(r[i].actions@[k], t[j].actions, irel));
        let k2 = choose|k2: int| 0 <= k2 < t[j].actions.len() && irel(r[i].actions@[k], t[j].actions[k2]);
        assert(t[j].actions[k2].count == move_sightings(es, acts, t[j].id, t[j].actions[k2].name));
    }
    assert forall|mid: i32, name: Seq<char>| #[trigger] move_sightings(es, acts, mid, name) > 0 implies exists|i: int, k: int|
        0 <= i < r.len() && 0 <= k < r[i].actions@.len() && r[i].monster_id == mid
            && #[trigger] r[i].actions@[k].action_name@ == name by {
        assert(listed(t, mid, name));
        let (j, k2) = choose|j: int, k2: int|
            0 <= j < t.len() && 0 <= k2 < t[j].actions.len() && t[j].id == mid && #[trigger] t[j].actions[k2].name
                == name;
        assert(has_image(r, t[j], rel));
        let i = choose|i: int| 0 <= i < r.len() && rel(r[i], t[j]);
        assert(monster_stat_of(r[i], t[j]));
        assert(has_image(r[i].actions@, t[j].actions[k2], irel));
        let k = choose|k: int| 0 <= k < r[i].actions@.len() && irel(r[i].actions@[k], t[j].actions[k2]);
        assert(r[i].actions@[k].action_name@ == name);
    }
}

} // verus!
