//! Structured hunting log: quest states, log entries, the per-round log
//! storage and the connection diagnostics log.
//!
//! Logs are kept in rounds (one per quest); at most `MAX_ROUNDS` rounds are
//! kept and at most `MAX_LOG_ENTRIES` entries per round.

use vstd::prelude::*;
use crate::clock::{clock_text, clock_text_spec, unix_now_secs};
use std::sync::Arc;
use vstd::rwlock::{RwLock, RwLockPredicate};

verus! {

/// Most rounds kept.
pub const MAX_ROUNDS: usize = 100;

/// Most entries kept per round.
pub const MAX_LOG_ENTRIES: usize = 2000;

/// Most connection diagnostics entries kept.
pub const MAX_CONNECTION_ENTRIES: usize = 200;

/// Quest state as the game stores it (raw values 0 to 7).
#[derive(Clone, Copy, PartialEq, Eq, Debug, Structural)]
pub enum QuestState {
    NoQuest,
    Ready,
    InQuest,
    Success,
    Completed,
    Failed,
    Abandon,
    Quit,
}

impl QuestState {
    pub open spec fn spec_is_over(self) -> bool {
        self is Success || self is Completed || self is Failed || self is Abandon || self is Quit
    }

    /// Whether the state means the quest has ended.
    pub fn is_over(self) -> (b: bool)
        ensures
            b == self.spec_is_over(),
    {
        match self {
            QuestState::Success | QuestState::Completed | QuestState::Failed | QuestState::Abandon
            | QuestState::Quit => true,
            _ => false,
        }
    }

    pub open spec fn spec_from_raw(raw: i32) -> QuestState {
        if raw == 1 {
            QuestState::Ready
        } else if raw == 2 {
            QuestState::InQuest
        } else if raw == 3 {
            QuestState::Success
        } else if raw == 4 {
            QuestState::Completed
        } else if raw == 5 {
            QuestState::Failed
        } else if raw == 6 {
            QuestState::Abandon
        } else if raw == 7 {
            QuestState::Quit
        } else {
            QuestState::NoQuest
        }
    }

    /// Converts the raw game value; unknown values read as `None`.
    pub fn from_raw(raw: i32) -> (s: QuestState)
        ensures
            s == Self::spec_from_raw(raw),
    {
        match raw {
            1 => QuestState::Ready,
            2 => QuestState::InQuest,
            3 => QuestState::Success,
            4 => QuestState::Completed,
            5 => QuestState::Failed,
            6 => QuestState::Abandon,
            7 => QuestState::Quit,
            _ => QuestState::NoQuest,
        }
    }

    pub open spec fn spec_label(self) -> Seq<char> {
        match self {
            QuestState::Success | QuestState::Completed => "成功"@,
            QuestState::Failed => "失败"@,
            QuestState::Abandon => "放弃"@,
            QuestState::Quit => "退出"@,
            _ => "结束"@,
        }
    }

    /// The Chinese word for how the quest ended.
    pub fn label(self) -> (s: &'static str)
        ensures
            s@ == self.spec_label(),
    {
        match self {
            QuestState::Success | QuestState::Completed => "成功",
            QuestState::Failed => "失败",
            QuestState::Abandon => "放弃",
            QuestState::Quit => "退出",
            _ => "结束",
        }
    }
}

/// Log level.
#[derive(Clone, Copy, PartialEq, Eq, Debug, Structural)]
pub enum LogLevel {
    Info,
    Warning,
    Success,
    Error,
    Combat,
    Quest,
}

impl LogLevel {
    pub open spec fn spec_name(self) -> Seq<char> {
        match self {
            LogLevel::Info => "Info"@,
            LogLevel::Warning => "Warning"@,
            LogLevel::Success => "Success"@,
            LogLevel::Error => "Error"@,
            LogLevel::Combat => "Combat"@,
            LogLevel::Quest => "Quest"@,
        }
    }

    /// The level's name as its `Debug` rendering shows it.
    pub fn name(self) -> (s: &'static str)
        ensures
            s@ == self.spec_name(),
    {
        match self {
            LogLevel::Info => "Info",
            LogLevel::Warning => "Warning",
            LogLevel::Success => "Success",
            LogLevel::Error => "Error",
            LogLevel::Combat => "Combat",
            LogLevel::Quest => "Quest",
        }
    }
}

pub fn copy_string(s: &String) -> (r: String)
    ensures
        r == *s,
{
    s.clone()
}

pub fn copy_opt_string(s: &Option<String>) -> (r: Option<String>)
    ensures
        r == *s,
{
    match s {
        Some(x) => Some(x.clone()),
        None => None,
    }
}

/// One hunting log entry.
#[derive(Clone, Debug)]
pub struct LogEntry {
    pub timestamp: String,
    pub level: LogLevel,
    pub quest_id: Option<i32>,
    pub message: String,
    pub monster_id: Option<i32>,
    pub action_id: Option<i32>,
    /// Move name (Chinese when known, English otherwise).
    pub action_name: Option<String>,
}

impl LogEntry {
    /// An entry stamped with the UTC+8 time of day of `unix_secs`, with no monster or move.
    pub fn new_at(unix_secs: u64, level: LogLevel, quest_id: Option<i32>, message: String) -> (e:
        LogEntry)
        ensures
            e.timestamp@ == clock_text_spec(unix_secs),
            e.level == level,
            e.quest_id == quest_id,
            e.message == message,
            e.monster_id is None,
            e.action_id is None,
            e.action_name is None,
    {
        LogEntry {
            timestamp: clock_text(unix_secs),
            level,
            quest_id,
            message,
            monster_id: None,
            action_id: None,
            action_name: None,
        }
    }

    /// An entry stamped with the current UTC+8 time of day.
    pub fn new(level: LogLevel, quest_id: Option<i32>, message: String) -> (e: LogEntry)
        ensures
            exists|secs: u64| e.timestamp@ == clock_text_spec(secs),
            e.level == level,
            e.quest_id == quest_id,
            e.message == message,
            e.monster_id is None,
            e.action_id is None,
            e.action_name is None,
    {
        let secs = unix_now_secs();
        Self::new_at(secs, level, quest_id, message)
    }

    /// A copy equal in every field.
    pub fn copy(&self) -> (r: LogEntry)
        ensures
            r == *self,
    {
        LogEntry {
            timestamp: copy_string(&self.timestamp),
            level: self.level,
            quest_id: self.quest_id,
            message: copy_string(&self.message),
            monster_id: self.monster_id,
            action_id: self.action_id,
            action_name: copy_opt_string(&self.action_name),
        }
    }
}

// ── Connection diagnostics ─────────────────────────────────────────

/// Kind of connection event.
#[derive(Clone, Copy, PartialEq, Eq, Debug, Structural)]
pub enum ConnectionEventType {
    Waiting,
    Connected,
    Disconnected,
    Reconnected,
    ReadError,
    Info,
}

impl ConnectionEventType {
    pub open spec fn spec_as_str(self) -> Seq<char> {
        match self {
            ConnectionEventType::Waiting => "waiting"@,
            ConnectionEventType::Connected => "connected"@,
            ConnectionEventType::Disconnected => "disconnected"@,
            ConnectionEventType::Reconnected => "reconnected"@,
            ConnectionEventType::ReadError => "read_error"@,
            ConnectionEventType::Info => "info"@,
        }
    }

    /// The event's wire name.
    pub fn as_str(&self) -> (s: &'static str)
        ensures
            s@ == self.spec_as_str(),
    {
        match self {
            ConnectionEventType::Waiting => "waiting",
            ConnectionEventType::Connected => "connected",
            ConnectionEventType::Disconnected => "disconnected",
            ConnectionEventType::Reconnected => "reconnected",
            ConnectionEventType::ReadError => "read_error",
            ConnectionEventType::Info => "info",
        }
    }
}

/// One connection diagnostics entry.
#[derive(Clone, Debug)]
pub struct ConnectionLogEntry {
    pub timestamp: String,
    pub event_type: ConnectionEventType,
    pub message: String,
    pub pid: Option<u32>,
    pub module_base: Option<u64>,
}

impl ConnectionLogEntry {
    /// An entry stamped with the UTC+8 time of day of `unix_secs`.
    pub fn new_at(
        unix_secs: u64,
        event_type: ConnectionEventType,
        message: String,
        pid: Option<u32>,
        module_base: Option<u64>,
    ) -> (e: ConnectionLogEntry)
        ensures
            e.timestamp@ == clock_text_spec(unix_secs),
            e.event_type == event_type,
            e.message == message,
            e.pid == pid,
            e.module_base == module_base,
    {
        ConnectionLogEntry { timestamp: clock_text(unix_secs), event_type, message, pid, module_base }
    }

    /// An entry stamped with the current UTC+8 time of day.
    pub fn new(
        event_type: ConnectionEventType,
        message: String,
        pid: Option<u32>,
        module_base: Option<u64>,
    ) -> (e: ConnectionLogEntry)
        ensures
            exists|secs: u64| e.timestamp@ == clock_text_spec(secs),
            e.event_type == event_type,
            e.message == message,
            e.pid == pid,
            e.module_base == module_base,
    {
        let secs = unix_now_secs();
        Self::new_at(secs, event_type, message, pid, module_base)
    }

    /// A copy equal in every field.
    pub fn copy(&self) -> (r: ConnectionLogEntry)
        ensures
            r == *self,
    {
        ConnectionLogEntry {
            timestamp: copy_string(&self.timestamp),
            event_type: self.event_type,
            message: copy_string(&self.message),
            pid: self.pid,
            module_base: self.module_base,
        }
    }
}

/// What `push` leaves of a bounded queue: the oldest entry goes when `cap` are held.
pub open spec fn bounded_push<T>(s: Seq<T>, e: T, cap: nat) -> Seq<T> {
    if s.len() >= cap {
        s.drop_first().push(e)
    } else {
        s.push(e)
    }
}

/// Connection diagnostics storage, oldest entry first.
#[derive(Clone)]
pub struct ConnectionLogStorage {
    pub entries: std::collections::VecDeque<ConnectionLogEntry>,
}

impl View for ConnectionLogStorage {
    type V = Seq<ConnectionLogEntry>;

    open spec fn view(&self) -> Seq<ConnectionLogEntry> {
        self.entries@
    }
}

impl ConnectionLogStorage {
    pub fn new() -> (s: ConnectionLogStorage)
        ensures
            s@ == Seq::<ConnectionLogEntry>::empty(),
    {
        ConnectionLogStorage { entries: std::collections::VecDeque::with_capacity(MAX_CONNECTION_ENTRIES) }
    }

    /// Appends an entry, dropping the oldest when `MAX_CONNECTION_ENTRIES` are held.
    pub fn push(&mut self, entry: ConnectionLogEntry)
        ensures
            final(self)@ == bounded_push(old(self)@, entry, MAX_CONNECTION_ENTRIES as nat),
    {
        if self.entries.len() >= MAX_CONNECTION_ENTRIES {
            self.entries.pop_front();
        }
        self.entries.push_back(entry);
    }

    /// All entries, oldest first.
    pub fn all_entries(&self) -> (v: Vec<ConnectionLogEntry>)
        ensures
            v@ == self@,
    {
        let mut v: Vec<ConnectionLogEntry> = Vec::new();
        let n = self.entries.len();
        for i in 0..n
            invariant
                n == self@.len(),
                v@ == self@.subrange(0, i as int),
        {
            v.push(self.entries[i].copy());
            assert(self@.subrange(0, i + 1) =~= self@.subrange(0, i as int).push(self@[i as int]));
        }
        assert(self@.subrange(0, n as int) =~= self@);
        v
    }

    pub fn clear(&mut self)
        ensures
            final(self)@ == Seq::<ConnectionLogEntry>::empty(),
    {
        self.entries.clear();
    }
}

// ── Hunting log storage ───────────────────────────────────────────

/// Hunting log kept by rounds; the last round is the newest.
#[derive(Clone)]
pub struct LogStorage {
    pub rounds: std::collections::VecDeque<std::collections::VecDeque<LogEntry>>,
}

impl View for LogStorage {
    type V = Seq<Seq<LogEntry>>;

    open spec fn view(&self) -> Seq<Seq<LogEntry>> {
        self.rounds@.map_values(|r: std::collections::VecDeque<LogEntry>| r@)
    }
}

/// Rounds after `new_round`, and the index it returns.
pub open spec fn new_round_spec(m: Seq<Seq<LogEntry>>) -> (Seq<Seq<LogEntry>>, int) {
    if m.len() == 0 {
        (seq![Seq::empty()], 0)
    } else if m.last().len() == 0 {
        (m, m.len() - 1)
    } else {
        let base = if m.len() >= MAX_ROUNDS {
            m.drop_first()
        } else {
            m
        };
        (base.push(Seq::empty()), base.len() as int)
    }
}

/// Rounds after `push(e)`: appended to the newest round, which keeps at most
/// `MAX_LOG_ENTRIES`; nothing happens when there is no round.
pub open spec fn push_spec(m: Seq<Seq<LogEntry>>, e: LogEntry) -> Seq<Seq<LogEntry>> {
    if m.len() == 0 {
        m
    } else {
        m.update(m.len() - 1, bounded_push(m.last(), e, MAX_LOG_ENTRIES as nat))
    }
}

/// All entries of all rounds, oldest round first.
pub open spec fn flatten(m: Seq<Seq<LogEntry>>) -> Seq<LogEntry>
    decreases m.len(),
{
    if m.len() == 0 {
        Seq::empty()
    } else {
        flatten(m.drop_last()) + m.last()
    }
}

/// Every round within the entry limit and the round count within its limit.
pub open spec fn within_limits(m: Seq<Seq<LogEntry>>) -> bool {
    &&& m.len() <= MAX_ROUNDS
    &&& forall|i: int| 0 <= i < m.len() ==> #[trigger] m[i].len() <= MAX_LOG_ENTRIES
}

impl LogStorage {
    pub fn new() -> (s: LogStorage)
        ensures
            s@ == Seq::<Seq<LogEntry>>::empty(),
    {
        let s = LogStorage { rounds: std::collections::VecDeque::new() };
        assert(s@ =~= Seq::<Seq<LogEntry>>::empty());
        s
    }

    /// Starts a new round (when a quest starts) and returns its index. When
    /// the newest round is still empty it is reused, so that no empty page is
    /// left before the first round after the log is cleared.
    pub fn new_round(&mut self) -> (idx: usize)
        ensures
            final(self)@ == new_round_spec(old(self)@).0,
            idx == new_round_spec(old(self)@).1,
    {
        let n = self.rounds.len();
        if n == 0 || self.rounds[n - 1].len() == 0 {
            if n == 0 {
                self.rounds.push_back(std::collections::VecDeque::with_capacity(MAX_LOG_ENTRIES));
                assert(self@ =~= seq![Seq::<LogEntry>::empty()]);
                return 0;
            }
            return n - 1;
        }
        let ghost m = self@;
        if n >= MAX_ROUNDS {
            self.rounds.pop_front();
            assert(self@ =~= m.drop_first());
        }
        self.rounds.push_back(std::collections::VecDeque::with_capacity(MAX_LOG_ENTRIES));
        assert(self@ =~= new_round_spec(m).0);
        self.rounds.len() - 1
    }

    /// Appends to the newest round (dropping its oldest entry when it holds
    /// `MAX_LOG_ENTRIES`); does nothing when there is no round.
    pub fn push(&mut self, entry: LogEntry)
        ensures
            final(self)@ == push_spec(old(self)@, entry),
    {
        let ghost m = self@;
        match self.rounds.pop_back() {
            Some(mut current) => {
                assert(self@ =~= m.drop_last());
                if current.len() >= MAX_LOG_ENTRIES {
                    current.pop_front();
                }
                current.push_back(entry);
                self.rounds.push_back(current);
                assert(self@ =~= push_spec(m, entry));
            },
            None => {},
        }
    }

    /// The entries of round `index`, or `None` past the last round.
    pub fn get_round(&self, index: usize) -> (r: Option<&std::collections::VecDeque<LogEntry>>)
        ensures
            match r {
                Some(round) => index < self@.len() && round@ == self@[index as int],
                None => index >= self@.len(),
            },
    {
        if index < self.rounds.len() {
            Some(&self.rounds[index])
        } else {
            None
        }
    }

    /// Number of rounds.
    pub fn round_count(&self) -> (n: usize)
        ensures
            n == self@.len(),
    {
        self.rounds.len()
    }

    /// Removes every round.
    pub fn clear(&mut self)
        ensures
            final(self)@ == Seq::<Seq<LogEntry>>::empty(),
    {
        self.rounds.clear();
        assert(self@ =~= Seq::<Seq<LogEntry>>::empty());
    }

    /// All entries of all rounds in order (for "export all").
    pub fn all_entries(&self) -> (v: Vec<LogEntry>)
        ensures
            v@ == flatten(self@),
    {
        let mut v: Vec<LogEntry> = Vec::new();
        let n = self.rounds.len();
        for i in 0..n
            invariant
                n == self@.len(),
                v@ == flatten(self@.subrange(0, i as int)),
        {
            let round = &self.rounds[i];
            let k = round.len();
            let ghost before = v@;
            for j in 0..k
                invariant
                    k == round@.len(),
                    v@ == before + round@.subrange(0, j as int),
            {
                v.push(round[j].copy());
                assert(round@.subrange(0, j + 1) =~= round@.subrange(0, j as int).push(round@[j as int]));
            }
            assert(round@.subrange(0, k as int) =~= round@);
            assert(self@.subrange(0, i + 1).drop_last() =~= self@.subrange(0, i as int));
            assert(self@[i as int] == round@);
        }
        assert(self@.subrange(0, n as int) =~= self@);
        v
    }

    /// The entries the log panel is sent: for a requested round, that round's entries (none
    /// past the last round) with its number; with no round, every entry with round 0.
    pub fn entries_for(&self, round: Option<usize>) -> (r: (Vec<LogEntry>, usize))
        ensures
            match round {
                Some(i) => r.1 == i && r.0@ == (if i < self@.len() {
                    self@[i as int]
                } else {
                    Seq::<LogEntry>::empty()
                }),
                None => r.1 == 0 && r.0@ == flatten(self@),
            },
    {
        match round {
            Some(i) => {
                let mut v: Vec<LogEntry> = Vec::new();
                match self.get_round(i) {
                    Some(entries) => {
                        let k = entries.len();
                        for j in 0..k
                            invariant
                                k == entries@.len(),
                                v@ == entries@.subrange(0, j as int),
                        {
                            v.push(entries[j].copy());
                            assert(entries@.subrange(0, j + 1) =~= entries@.subrange(0, j as int).push(
                                entries@[j as int],
                            ));
                        }
                        assert(entries@.subrange(0, k as int) =~= entries@);
                    },
                    None => {
                        assert(v@ =~= Seq::<LogEntry>::empty());
                    },
                }
                (v, i)
            },
            None => (self.all_entries(), 0),
        }
    }
}

// ── Laws of the round storage ─────────────────────────────────────

/// Starting a round always leaves an empty newest round and returns its index.
pub proof fn law_new_round_opens_empty_round(m: Seq<Seq<LogEntry>>)
    ensures
        new_round_spec(m).0.len() >= 1,
        new_round_spec(m).0.last().len() == 0,
        new_round_spec(m).1 == new_round_spec(m).0.len() - 1,
{
}

/// Starting a round twice in a row starts only one: the second call reuses it.
pub proof fn law_new_round_idempotent(m: Seq<Seq<LogEntry>>)
    ensures
        new_round_spec(new_round_spec(m).0) == new_round_spec(m),
{
}

/// Starting a round never loses an entry unless `MAX_ROUNDS` rounds are held,
/// and then only the oldest round goes.
pub proof fn law_new_round_keeps_rounds(m: Seq<Seq<LogEntry>>)
    requires
        m.len() > 0,
        m.last().len() > 0,
    ensures
        m.len() < MAX_ROUNDS ==> new_round_spec(m).0 == m.push(Seq::empty()),
        m.len() >= MAX_ROUNDS ==> new_round_spec(m).0 == m.drop_first().push(Seq::empty()),
{
}

/// The limits on rounds and entries hold after every operation that changes the storage.
pub proof fn law_limits_preserved(m: Seq<Seq<LogEntry>>, e: LogEntry)
    requires
        within_limits(m),
    ensures
        within_limits(new_round_spec(m).0),
        within_limits(push_spec(m, e)),
        within_limits(Seq::<Seq<LogEntry>>::empty()),
{
    let n = new_round_spec(m).0;
    assert forall|i: int| 0 <= i < n.len() implies #[trigger] n[i].len() <= MAX_LOG_ENTRIES by {
        if m.len() > 0 && m.last().len() > 0 && m.len() >= MAX_ROUNDS && i < n.len() - 1 {
            assert(n[i] == m[i + 1]);
        }
    }
    let p = push_spec(m, e);
    assert forall|i: int| 0 <= i < p.len() implies #[trigger] p[i].len() <= MAX_LOG_ENTRIES by {
        if i < m.len() - 1 {
            assert(p[i] == m[i]);
        } else {
            assert(m[m.len() - 1].len() <= MAX_LOG_ENTRIES);
        }
    }
}

/// A pushed entry is read back as the newest entry of the newest round, and
/// the older rounds are untouched.
pub proof fn law_push_reads_back(m: Seq<Seq<LogEntry>>, e: LogEntry)
    requires
        m.len() > 0,
    ensures
        push_spec(m, e).len() == m.len(),
        push_spec(m, e).last().last() == e,
        forall|i: int| 0 <= i < m.len() - 1 ==> #[trigger] push_spec(m, e)[i] == m[i],
{
}

/// Below the entry limit, pushing appends to the flattened log; a full round
/// loses only its oldest entry.
pub proof fn law_push_appends(m: Seq<Seq<LogEntry>>, e: LogEntry)
    requires
        m.len() > 0,
    ensures
        m.last().len() < MAX_LOG_ENTRIES ==> flatten(push_spec(m, e)) == flatten(m).push(e),
        m.last().len() >= MAX_LOG_ENTRIES ==> flatten(push_spec(m, e)) == flatten(m.drop_last())
            + m.last().drop_first().push(e),
{
    let p = push_spec(m, e);
    assert(p.drop_last() =~= m.drop_last());
    if m.last().len() < MAX_LOG_ENTRIES {
        assert(flatten(p) =~= flatten(m).push(e));
    }
}

/// Pushing into an empty storage does nothing: an entry needs a round.
pub proof fn law_push_needs_round(e: LogEntry)
    ensures
        push_spec(Seq::<Seq<LogEntry>>::empty(), e) == Seq::<Seq<LogEntry>>::empty(),
{
}

/// The connection log keeps its bound and always ends with the pushed entry.
pub proof fn law_connection_push(s: Seq<ConnectionLogEntry>, e: ConnectionLogEntry)
    requires
        s.len() <= MAX_CONNECTION_ENTRIES,
    ensures
        bounded_push(s, e, MAX_CONNECTION_ENTRIES as nat).len() <= MAX_CONNECTION_ENTRIES,
        bounded_push(s, e, MAX_CONNECTION_ENTRIES as nat).last() == e,
        s.len() < MAX_CONNECTION_ENTRIES ==> bounded_push(s, e, MAX_CONNECTION_ENTRIES as nat)
            == s.push(e),
{
}

// ── Saving a round ────────────────────────────────────────────────

/// One saved line: `[time] [Level] message`.
pub open spec fn entry_line(e: LogEntry) -> Seq<char> {
    seq!['['] + e.timestamp@ + seq![']', ' ', '['] + e.level.spec_name() + seq![']', ' '] + e.message@
}

/// The saved text of a round: each entry's line followed by CR LF.
pub open spec fn round_text(r: Seq<LogEntry>) -> Seq<char>
    decreases r.len(),
{
    if r.len() == 0 {
        Seq::empty()
    } else {
        round_text(r.drop_last()) + entry_line(r.last()) + seq!['\r', '\n']
    }
}

fn push_str_chars(v: &mut Vec<char>, s: &str)
    ensures
        final(v)@ == old(v)@ + s@,
{
    let w = crate::text::chars_of(s);
    let ghost start = v@;
    let n = w.len();
    for k in 0..n
        invariant
            n == w@.len(),
            v@ == start + w@.subrange(0, k as int),
    {
        v.push(w[k]);
        assert(w@.subrange(0, k + 1) =~= w@.subrange(0, k as int).push(w@[k as int]));
    }
    assert(w@.subrange(0, n as int) =~= w@);
}

/// Why the newest round cannot be saved.
#[derive(Clone, Copy, PartialEq, Eq, Debug, Structural)]
pub enum SaveError {
    /// There is no round.
    NoRounds,
    /// The newest round has no entry.
    EmptyRound,
}

impl SaveError {
    pub open spec fn spec_message(self) -> Seq<char> {
        match self {
            SaveError::NoRounds => "no rounds"@,
            SaveError::EmptyRound => "round is empty"@,
        }
    }

    pub fn message(self) -> (s: &'static str)
        ensures
            s@ == self.spec_message(),
    {
        match self {
            SaveError::NoRounds => "no rounds",
            SaveError::EmptyRound => "round is empty",
        }
    }
}

/// What saving the newest round of a log `m` gives: its text, or why
/// there is none.
pub open spec fn latest_round_result(m: Seq<Seq<LogEntry>>) -> Result<Seq<char>, SaveError> {
    if m.len() == 0 {
        Err(SaveError::NoRounds)
    } else if m.last().len() == 0 {
        Err(SaveError::EmptyRound)
    } else {
        Ok(round_text(m.last()))
    }
}

pub open spec fn save_result_view(r: Result<String, SaveError>) -> Result<Seq<char>, SaveError> {
    match r {
        Ok(t) => Ok(t@),
        Err(e) => Err(e),
    }
}

impl LogStorage {
    /// The text the newest round is saved as.
    pub fn latest_round_text(&self) -> (r: Result<String, SaveError>)
        ensures
            self@.len() == 0 ==> r == Err::<String, SaveError>(SaveError::NoRounds),
            self@.len() > 0 && self@.last().len() == 0 ==> r == Err::<String, SaveError>(
                SaveError::EmptyRound,
            ),
            self@.len() > 0 && self@.last().len() > 0 ==> (r matches Ok(t) && t@ == round_text(
                self@.last(),
            )),
    {
        let n = self.rounds.len();
        if n == 0 {
            return Err(SaveError::NoRounds);
        }
        let round = &self.rounds[n - 1];
        assert(round@ == self@.last());
        if round.len() == 0 {
            return Err(SaveError::EmptyRound);
        }
        let mut v: Vec<char> = Vec::new();
        let k = round.len();
        for j in 0..k
            invariant
                k == round@.len(),
                v@ == round_text(round@.subrange(0, j as int)),
        {
            let e = &round[j];
            v.push('[');
            push_str_chars(&mut v, e.timestamp.as_str());
            v.push(']');
            v.push(' ');
            v.push('[');
            push_str_chars(&mut v, e.level.name());
            v.push(']');
            v.push(' ');
            push_str_chars(&mut v, e.message.as_str());
            v.push('\r');
            v.push('\n');
            assert(round@.subrange(0, j + 1).drop_last() =~= round@.subrange(0, j as int));
            assert(v@ =~= round_text(round@.subrange(0, j as int)) + entry_line(round@[j as int]) + seq![
                '\r',
                '\n',
            ]);
        }
        assert(round@.subrange(0, k as int) =~= round@);
        Ok(crate::text::string_of(&v))
    }
}

/// Whether a character cannot stand in a file name.
pub open spec fn bad_file_char(c: char) -> bool {
    c == '<' || c == '>' || c == ':' || c == '"' || c == '/' || c == '\\' || c == '|' || c == '?'
        || c == '*' || crate::text::is_ctrl(c)
}

pub open spec fn strip_lead(s: Seq<char>, c: char) -> Seq<char>
    decreases s.len(),
{
    if s.len() > 0 && s[0] == c {
        strip_lead(s.drop_first(), c)
    } else {
        s
    }
}

pub open spec fn strip_trail(s: Seq<char>, c: char) -> Seq<char>
    decreases s.len(),
{
    if s.len() > 0 && s.last() == c {
        strip_trail(s.drop_last(), c)
    } else {
        s
    }
}

/// A text made fit for a file name: characters that cannot stand in one
/// become `_`, surrounding whitespace and then dots go, and nothing left
/// gives `untitled`.
pub open spec fn sanitized(value: Seq<char>) -> Seq<char> {
    let m = Seq::new(value.len(), |i: int| if bad_file_char(value[i]) { '_' } else { value[i] });
    let t = strip_trail(strip_lead(crate::text::trim(m), '.'), '.');
    if t.len() == 0 {
        "untitled"@
    } else {
        t
    }
}

pub fn sanitize_filename_part(value: &str) -> (r: String)
    ensures
        r@ == sanitized(value@),
{
    let v = crate::text::chars_of(value);
    let n = v.len();
    let mut m: Vec<char> = Vec::new();
    for i in 0..n
        invariant
            n == v@.len(),
            m@.len() == i,
            forall|j: int| 0 <= j < i ==> m@[j] == (if bad_file_char(v@[j]) { '_' } else { v@[j] }),
    {
        let c = v[i];
        if c == '<' || c == '>' || c == ':' || c == '"' || c == '/' || c == '\\' || c == '|' || c == '?'
            || c == '*' || crate::text::is_control(c) {
            m.push('_');
        } else {
            m.push(c);
        }
    }
    let ghost mapped = Seq::new(value@.len(), |i: int| if bad_file_char(value@[i]) { '_' } else { value@[i] });
    assert(m@ =~= mapped);
    let t = crate::text::trim_vec(&m);
    let mut lo: usize = 0;
    assert(t@.subrange(0, t@.len() as int) =~= t@);
    while lo < t.len() && t[lo] == '.'
        invariant
            lo <= t.len(),
            strip_lead(t@, '.') == strip_lead(t@.subrange(lo as int, t@.len() as int), '.'),
        decreases t.len() - lo,
    {
        assert(t@.subrange(lo as int, t@.len() as int).drop_first() =~= t@.subrange(lo + 1, t@.len() as int));
        lo += 1;
    }
    let ghost a = t@.subrange(lo as int, t@.len() as int);
    let mut hi: usize = t.len();
    assert(a.subrange(0, a.len() as int) =~= a);
    while hi > lo && t[hi - 1] == '.'
        invariant
            lo <= hi <= t.len(),
            a == t@.subrange(lo as int, t@.len() as int),
            strip_trail(a, '.') == strip_trail(t@.subrange(lo as int, hi as int), '.'),
        decreases hi,
    {
        assert(t@.subrange(lo as int, hi as int).drop_last() =~= t@.subrange(lo as int, hi - 1));
        hi -= 1;
    }
    if hi == lo {
        return crate::text::string_of(&crate::text::chars_of("untitled"));
    }
    let out = crate::text::slice_vec(&t, lo, hi);
    crate::text::string_of(&out)
}

/// File name a round is saved under: its start time made fit for a file
/// name, and `.txt`.
pub fn round_file_name(start_time: &str) -> (r: String)
    ensures
        r@ == sanitized(start_time@) + ".txt"@,
{
    let s = sanitize_filename_part(start_time);
    let mut v = crate::text::chars_of(s.as_str());
    push_str_chars(&mut v, ".txt");
    crate::text::string_of(&v)
}

// ── Handles shared between threads ────────────────────────────────

/// What every state of the shared hunting log satisfies: the round and
/// entry limits.
pub struct RoundLimits;

impl RwLockPredicate<LogStorage> for RoundLimits {
    open spec fn inv(self, v: LogStorage) -> bool {
        within_limits(v@)
    }
}

/// What every state of the shared connection log satisfies: its bound.
pub struct ConnectionLimit;

impl RwLockPredicate<ConnectionLogStorage> for ConnectionLimit {
    open spec fn inv(self, v: ConnectionLogStorage) -> bool {
        v@.len() <= MAX_CONNECTION_ENTRIES
    }
}

/// The hunting log as the engine's threads share it.
pub type SharedLog = Arc<RwLock<LogStorage, RoundLimits>>;

/// The connection log as the engine's threads share it.
pub type SharedConnectionLog = Arc<RwLock<ConnectionLogStorage, ConnectionLimit>>;

/// Writing handle of the shared hunting log. Each call takes the lock, makes
/// one change and gives the lock back; the lock's predicate makes Verus
/// check that every change keeps the limits, so every reader sees a log
/// within them.
#[derive(Clone)]
pub struct Logger {
    storage: SharedLog,
}

/// Fifty box-drawing dashes, the separator line.
pub open spec fn separator_text() -> Seq<char> {
    Seq::new(50, |i: int| '─')
}

impl Logger {
    /// The shared log this logger writes to.
    pub closed spec fn shared(&self) -> SharedLog {
        self.storage
    }

    /// A logger on a new empty log, and the handle readers use.
    pub fn new() -> (r: (Logger, SharedLog))
        ensures
            r.0.shared() == r.1,
    {
        let lock = RwLock::new(LogStorage::new(), Ghost(RoundLimits));
        let shared = Arc::new(lock);
        (Logger { storage: shared.clone() }, shared)
    }

    /// Starts a new round (when a quest starts) and returns its index, which
    /// is below `MAX_ROUNDS`.
    pub fn new_round(&self) -> (idx: usize)
        ensures
            idx < MAX_ROUNDS,
            exists|m: Seq<Seq<LogEntry>>|
                #![trigger within_limits(m)]
                within_limits(m) && idx == new_round_spec(m).1,
    {
        let (mut s, handle) = self.storage.acquire_write();
        let ghost before = s@;
        let idx = s.new_round();
        proof {
            law_limits_preserved(before, arbitrary());
            law_new_round_opens_empty_round(before);
            assert(within_limits(before) && idx == new_round_spec(before).1);
        }
        handle.release_write(s);
        idx
    }

    /// Appends one entry to the newest round and returns a copy of it. What the
    /// shared log holds afterwards is not stated: other handles may write to it
    /// as soon as the lock is given back.
    pub fn push(&self, level: LogLevel, quest_id: Option<i32>, msg: String) -> (e: LogEntry)
        ensures
            e.level == level,
            e.quest_id == quest_id,
            e.message == msg,
            e.monster_id is None,
            e.action_id is None,
            e.action_name is None,
            exists|secs: u64| e.timestamp@ == clock_text_spec(secs),
    {
        let entry = LogEntry::new(level, quest_id, msg);
        self.push_entry(entry)
    }

    fn push_entry(&self, entry: LogEntry) -> (e: LogEntry)
        ensures
            e == entry,
    {
        let written = entry.copy();
        let (mut s, handle) = self.storage.acquire_write();
        let ghost before = s@;
        s.push(entry);
        proof {
            law_limits_preserved(before, entry);
        }
        handle.release_write(s);
        written
    }

    pub fn info(&self, msg: String) {
        self.push(LogLevel::Info, None, msg);
    }

    /// Logs `msg` at level `Success`; returns the entry written.
    pub fn success(&self, msg: String) -> (e: LogEntry)
        ensures
            e.level == LogLevel::Success,
            e.message == msg,
            e.quest_id is None,
            e.monster_id is None,
            e.action_id is None,
    {
        self.push(LogLevel::Success, None, msg)
    }

    /// Logs `msg` at level `Error`; returns the entry written.
    pub fn error(&self, msg: String) -> (e: LogEntry)
        ensures
            e.level == LogLevel::Error,
            e.message == msg,
            e.quest_id is None,
            e.monster_id is None,
            e.action_id is None,
    {
        self.push(LogLevel::Error, None, msg)
    }

    /// Logs a combat message (`msg`) at level `Combat`; returns the entry written.
    pub fn combat(&self, msg: String) -> (e: LogEntry)
        ensures
            e.level == LogLevel::Combat,
            e.message == msg,
            e.quest_id is None,
            e.monster_id is None,
            e.action_id is None,
    {
        self.push(LogLevel::Combat, None, msg)
    }

    pub fn quest(&self, msg: String) {
        self.push(LogLevel::Quest, None, msg);
    }

    /// An info entry that names the monster and its move (for highlighting
    /// and move statistics); returns the entry written.
    pub fn action_change(&self, msg: String, monster_id: i32, action_id: i32, action_name: Option<String>) -> (e:
        LogEntry)
        ensures
            e.level == LogLevel::Info,
            e.message == msg,
            e.quest_id is None,
            e.monster_id == Some(monster_id),
            e.action_id == Some(action_id),
            e.action_name == action_name,
    {
        let mut entry = LogEntry::new(LogLevel::Info, None, msg);
        entry.monster_id = Some(monster_id);
        entry.action_id = Some(action_id);
        entry.action_name = action_name;
        self.push_entry(entry)
    }

    /// A separator line of fifty dashes.
    pub fn separator(&self) {
        self.push(LogLevel::Info, None, separator_line());
    }

    /// The text the newest round is saved as (see `LogStorage::latest_round_text`):
    /// the newest round of a state of the shared log, so within the limits.
    pub fn latest_round_text(&self) -> (r: Result<String, SaveError>)
        ensures
            exists|m: Seq<Seq<LogEntry>>|
                #![trigger within_limits(m)]
                within_limits(m) && save_result_view(r) == latest_round_result(m),
            r matches Ok(t) ==> exists|m: Seq<Seq<LogEntry>>|
                #![trigger within_limits(m)]
                within_limits(m) && m.len() > 0 && 0 < m.last().len() <= MAX_LOG_ENTRIES && t@
                    == round_text(m.last()),
    {
        let handle = self.storage.acquire_read();
        let store = handle.borrow();
        let r = store.latest_round_text();
        proof {
            let m = store@;
            assert(within_limits(m) && save_result_view(r) == latest_round_result(m));
            if r is Ok {
                assert(m[m.len() - 1].len() <= MAX_LOG_ENTRIES);
                assert(within_limits(m));
            }
        }
        handle.release_read();
        r
    }
}

/// The separator line's text.
pub fn separator_line() -> (s: String)
    ensures
        s@ == separator_text(),
{
    let mut v: Vec<char> = Vec::new();
    for i in 0..50usize
        invariant
            v@ == Seq::new(i as nat, |j: int| '─'),
    {
        v.push('─');
        assert(v@ =~= Seq::new((i + 1) as nat, |j: int| '─'));
    }
    crate::text::string_of(&v)
}

/// Writing handle of the shared connection log.
#[derive(Clone)]
pub struct ConnectionLogger {
    storage: SharedConnectionLog,
}

impl ConnectionLogger {
    /// The shared log this logger writes to.
    pub closed spec fn shared(&self) -> SharedConnectionLog {
        self.storage
    }

    /// A logger on a new empty connection log, and the handle readers use.
    pub fn new() -> (r: (ConnectionLogger, SharedConnectionLog))
        ensures
            r.0.shared() == r.1,
    {
        let lock = RwLock::new(ConnectionLogStorage::new(), Ghost(ConnectionLimit));
        let shared = Arc::new(lock);
        (ConnectionLogger { storage: shared.clone() }, shared)
    }

    /// Records an event; returns the entry written.
    pub fn log(&self, event_type: ConnectionEventType, message: String) -> (e: ConnectionLogEntry)
        ensures
            e.event_type == event_type,
            e.message == message,
            e.pid is None,
            e.module_base is None,
    {
        self.log_with(event_type, message, None, None)
    }

    /// Records an event with the process id and module base when known, and
    /// returns a copy of the entry written. What the shared log holds
    /// afterwards is not stated: other handles may write to it as soon as the
    /// lock is given back.
    pub fn log_with(
        &self,
        event_type: ConnectionEventType,
        message: String,
        pid: Option<u32>,
        module_base: Option<u64>,
    ) -> (e: ConnectionLogEntry)
        ensures
            e.event_type == event_type,
            e.message == message,
            e.pid == pid,
            e.module_base == module_base,
            exists|secs: u64| e.timestamp@ == clock_text_spec(secs),
    {
        let entry = ConnectionLogEntry::new(event_type, message, pid, module_base);
        let written = entry.copy();
        let (mut s, handle) = self.storage.acquire_write();
        s.push(entry);
        handle.release_write(s);
        written
    }
}

// ── Laws of file names ────────────────────────────────────────────

proof fn lemma_strip_lead(s: Seq<char>, c: char)
    ensures
        strip_lead(s, c).len() <= s.len(),
        forall|i: int|
            0 <= i < strip_lead(s, c).len() ==> #[trigger] strip_lead(s, c)[i] == s[i + s.len()
                - strip_lead(s, c).len()],
        strip_lead(s, c).len() > 0 ==> strip_lead(s, c)[0] != c,
    decreases s.len(),
{
    if s.len() > 0 && s[0] == c {
        lemma_strip_lead(s.drop_first(), c);
    }
}

proof fn lemma_strip_trail(s: Seq<char>, c: char)
    ensures
        strip_trail(s, c).len() <= s.len(),
        forall|i: int| 0 <= i < strip_trail(s, c).len() ==> #[trigger] strip_trail(s, c)[i] == s[i],
        strip_trail(s, c).len() > 0 ==> strip_trail(s, c).last() != c,
    decreases s.len(),
{
    if s.len() > 0 && s.last() == c {
        lemma_strip_trail(s.drop_last(), c);
    }
}

proof fn lemma_trim_start(s: Seq<char>)
    ensures
        crate::text::trim_start(s).len() <= s.len(),
        forall|i: int|
            0 <= i < crate::text::trim_start(s).len() ==> #[trigger] crate::text::trim_start(s)[i]
                == s[i + s.len() - crate::text::trim_start(s).len()],
    decreases s.len(),
{
    if s.len() > 0 && crate::text::is_ws(s[0]) {
        lemma_trim_start(s.drop_first());
    }
}

proof fn lemma_trim_end(s: Seq<char>)
    ensures
        crate::text::trim_end(s).len() <= s.len(),
        forall|i: int| 0 <= i < crate::text::trim_end(s).len() ==> #[trigger] crate::text::trim_end(s)[i] == s[i],
    decreases s.len(),
{
    if s.len() > 0 && crate::text::is_ws(s.last()) {
        lemma_trim_end(s.drop_last());
    }
}

/// What `sanitize_filename_part` gives is always usable as a file name: it
/// is not empty, holds none of `< > : " / \ | ? *` nor a control
/// character, and neither starts nor ends with a dot.
pub proof fn law_sanitized_is_a_file_name(value: Seq<char>)
    ensures
        sanitized(value).len() > 0,
        forall|i: int| 0 <= i < sanitized(value).len() ==> !bad_file_char(#[trigger] sanitized(value)[i]),
        sanitized(value)[0] != '.',
        sanitized(value).last() != '.',
{
    let m = Seq::new(value.len(), |i: int| if bad_file_char(value[i]) { '_' } else { value[i] });
    assert forall|i: int| 0 <= i < m.len() implies !bad_file_char(#[trigger] m[i]) by {}
    let a = crate::text::trim_start(m);
    lemma_trim_start(m);
    let b = crate::text::trim_end(a);
    lemma_trim_end(a);
    assert(b == crate::text::trim(m));
    let c = strip_lead(b, '.');
    lemma_strip_lead(b, '.');
    let t = strip_trail(c, '.');
    lemma_strip_trail(c, '.');
    assert forall|i: int| 0 <= i < a.len() implies !bad_file_char(#[trigger] a[i]) by {
        assert(a[i] == m[i + m.len() - a.len()]);
    }
    assert forall|i: int| 0 <= i < b.len() implies !bad_file_char(#[trigger] b[i]) by {
        assert(b[i] == a[i]);
    }
    assert forall|i: int| 0 <= i < c.len() implies !bad_file_char(#[trigger] c[i]) by {
        assert(c[i] == b[i + b.len() - c.len()]);
    }
    assert forall|i: int| 0 <= i < t.len() implies !bad_file_char(#[trigger] t[i]) by {
        assert(t[i] == c[i]);
    }
    if t.len() == 0 {
        reveal_strlit("untitled");
        assert(sanitized(value) == "untitled"@);
    } else {
        assert(t[0] == c[0]);
    }
}

} // verus!
