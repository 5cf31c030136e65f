//! Decisions of the background reader, taken once per tick: the game
//! connection lifecycle, the quest lifecycle (rounds, start/end messages,
//! automatic saves) and move-change detection. The caller reads the game
//! memory, hands the readings in, and carries out the returned actions.

use vstd::prelude::*;
use crate::clock::{filename_stamp, filename_stamp_spec};
use crate::log::{ConnectionEventType, LogLevel, QuestState};
use crate::reader::{push_quest_time, quest_time_spec};
use crate::text::{chars_of, dec, dec_int, hex_upper, push_dec, push_dec_i64, push_hex_upper, string_of};

verus! {

// ── Connection lifecycle ───────────────────────────────────────────

/// Reads that fail in a row before the game counts as gone.
pub const DISCONNECT_FRAMES: u32 = 10;

/// Connection state, as reported to the panel.
#[derive(Clone, Copy, PartialEq, Eq, Debug, Structural)]
pub enum LinkState {
    Init,
    Waiting,
    Connected,
    Disconnected,
}

impl LinkState {
    pub open spec fn spec_name(self) -> Seq<char> {
        match self {
            LinkState::Init => "init"@,
            LinkState::Waiting => "waiting"@,
            LinkState::Connected => "connected"@,
            LinkState::Disconnected => "disconnected"@,
        }
    }

    /// The state's name: `init`, `waiting`, `connected` or `disconnected`.
    pub fn name(self) -> (s: &'static str)
        ensures
            s@ == self.spec_name(),
    {
        match self {
            LinkState::Init => "init",
            LinkState::Waiting => "waiting",
            LinkState::Connected => "connected",
            LinkState::Disconnected => "disconnected",
        }
    }
}

/// A connection diagnostics event to record.
pub struct LinkEvent {
    pub event_type: ConnectionEventType,
    pub message: String,
    pub pid: Option<u32>,
    pub module_base: Option<u64>,
}

/// Connection lifecycle of the reader.
pub struct ConnectionTracker {
    pub state: LinkState,
    /// Whether the game was ever attached.
    pub was_ever_connected: bool,
    /// Whether the next attach is a reconnection.
    pub needs_reconnect_event: bool,
    /// Failed reads in a row.
    pub disconnect_frames: u32,
    pub pid: Option<u32>,
    pub module_base: Option<u64>,
}

pub open spec fn connected_msg(pid: u32, base: u64) -> Seq<char> {
    "成功捕获游戏进程! PID: "@ + dec(pid as nat) + ", 基址: 0x"@ + hex_upper(base as nat)
}

pub open spec fn waiting_msg() -> Seq<char> {
    "未检测到游戏进程，等待游戏启动..."@
}

pub open spec fn disconnected_msg() -> Seq<char> {
    "游戏进程退出，等待重连"@
}

/// Outcome of one liveness probe of the attached game.
#[derive(Clone, Copy, PartialEq, Eq, Debug, Structural)]
pub enum ProbeOutcome {
    /// Still attached.
    Alive,
    /// Reads failed `DISCONNECT_FRAMES` times in a row: the game is gone.
    Lost,
}

impl ConnectionTracker {
    pub fn new() -> (t: ConnectionTracker)
        ensures
            t.state == LinkState::Init,
            !t.was_ever_connected,
            !t.needs_reconnect_event,
            t.disconnect_frames == 0,
            t.pid is None,
            t.module_base is None,
    {
        ConnectionTracker {
            state: LinkState::Init,
            was_ever_connected: false,
            needs_reconnect_event: false,
            disconnect_frames: 0,
            pid: None,
            module_base: None,
        }
    }

    /// The game process was found and its module base read. An event is
    /// recorded only when coming from a state other than connected: a
    /// reconnection when the game was lost before, a first connection otherwise.
    pub fn on_attached(&mut self, pid: u32, base: u64) -> (ev: Option<LinkEvent>)
        ensures
            final(self).state == LinkState::Connected,
            final(self).pid == Some(pid),
            final(self).module_base == Some(base),
            final(self).disconnect_frames == 0,
            old(self).state == LinkState::Connected ==> ev is None && final(self).needs_reconnect_event
                == old(self).needs_reconnect_event && final(self).was_ever_connected == old(
                self,
            ).was_ever_connected,
            old(self).state != LinkState::Connected ==> {
                &&& ev matches Some(e)
                &&& e.event_type == (if old(self).needs_reconnect_event {
                    ConnectionEventType::Reconnected
                } else {
                    ConnectionEventType::Connected
                })
                &&& e.message@ == connected_msg(pid, base)
                &&& e.pid == Some(pid)
                &&& e.module_base == Some(base)
                &&& !final(self).needs_reconnect_event
                &&& final(self).was_ever_connected
            },
    {
        let was_disconnected = self.state != LinkState::Connected;
        self.pid = Some(pid);
        self.module_base = Some(base);
        self.disconnect_frames = 0;
        if was_disconnected {
            let event_type = if self.needs_reconnect_event {
                self.needs_reconnect_event = false;
                ConnectionEventType::Reconnected
            } else {
                ConnectionEventType::Connected
            };
            let mut m = chars_of("成功捕获游戏进程! PID: ");
            push_dec(&mut m, pid as u64);
            let mid = chars_of(", 基址: 0x");
            let ghost m1 = m@;
            let mut k: usize = 0;
            while k < mid.len()
                invariant
                    k <= mid.len(),
                    m@ == m1 + mid@.subrange(0, k as int),
                decreases mid.len() - k,
            {
                m.push(mid[k]);
                assert(mid@.subrange(0, k + 1) =~= mid@.subrange(0, k as int).push(mid@[k as int]));
                k += 1;
            }
            assert(mid@.subrange(0, mid.len() as int) =~= mid@);
            push_hex_upper(&mut m, base);
            assert(m@ =~= connected_msg(pid, base));
            self.state = LinkState::Connected;
            self.was_ever_connected = true;
            return Some(
                LinkEvent { event_type, message: string_of(&m), pid: Some(pid), module_base: Some(base) },
            );
        }
        None
    }

    /// No game process could be attached. A waiting event is recorded once
    /// per stretch of waiting: on the first search, and after being connected
    /// or disconnected.
    pub fn on_attach_failed(&mut self) -> (ev: Option<LinkEvent>)
        ensures
            old(self).state == LinkState::Waiting ==> ev is None && *final(self) == *old(self),
            old(self).state != LinkState::Waiting ==> {
                &&& ev matches Some(e)
                &&& e.event_type == ConnectionEventType::Waiting
                &&& e.message@ == waiting_msg()
                &&& e.pid is None
                &&& e.module_base is None
                &&& final(self).state == LinkState::Waiting
            },
            final(self).pid == old(self).pid,
            final(self).module_base == old(self).module_base,
            final(self).needs_reconnect_event == old(self).needs_reconnect_event,
            final(self).disconnect_frames == old(self).disconnect_frames,
            final(self).was_ever_connected == old(self).was_ever_connected,
    {
        if self.state == LinkState::Waiting {
            return None;
        }
        self.state = LinkState::Waiting;
        let msg = chars_of("未检测到游戏进程，等待游戏启动...");
        Some(
            LinkEvent {
                event_type: ConnectionEventType::Waiting,
                message: string_of(&msg),
                pid: None,
                module_base: None,
            },
        )
    }

    /// One liveness probe of the attached game (`readable`: whether the
    /// module base could be read). After `DISCONNECT_FRAMES` failures in a row
    /// the game counts as gone: a disconnection event carrying the last pid
    /// and base is returned and the attachment is dropped.
    pub fn on_probe(&mut self, readable: bool) -> (r: (ProbeOutcome, Option<LinkEvent>))
        ensures
            readable ==> r.0 == ProbeOutcome::Alive && r.1 is None && final(self).disconnect_frames == 0
                && final(self).state == old(self).state && final(self).pid == old(self).pid
                && final(self).module_base == old(self).module_base,
            !readable && old(self).disconnect_frames.wrapping_add(1) < DISCONNECT_FRAMES ==> r.0
                == ProbeOutcome::Alive && r.1 is None && final(self).disconnect_frames == old(
                self,
            ).disconnect_frames.wrapping_add(1) && final(self).state == old(self).state
                && final(self).pid == old(self).pid && final(self).module_base == old(self).module_base,
            !readable && old(self).disconnect_frames.wrapping_add(1) >= DISCONNECT_FRAMES ==> {
                &&& r.0 == ProbeOutcome::Lost
                &&& r.1 matches Some(e)
                &&& e.event_type == ConnectionEventType::Disconnected
                &&& e.message@ == disconnected_msg()
                &&& e.pid == old(self).pid
                &&& e.module_base == old(self).module_base
                &&& final(self).state == LinkState::Disconnected
                &&& final(self).needs_reconnect_event
                &&& final(self).pid is None
                &&& final(self).module_base is None
                &&& final(self).disconnect_frames == old(self).disconnect_frames.wrapping_add(1)
            },
            final(self).was_ever_connected == old(self).was_ever_connected,
            readable || old(self).disconnect_frames.wrapping_add(1) < DISCONNECT_FRAMES
                ==> final(self).needs_reconnect_event == old(self).needs_reconnect_event,
    {
        if readable {
            self.disconnect_frames = 0;
            return (ProbeOutcome::Alive, None);
        }
        self.disconnect_frames = self.disconnect_frames.wrapping_add(1);
        if self.disconnect_frames < DISCONNECT_FRAMES {
            return (ProbeOutcome::Alive, None);
        }
        let ev = LinkEvent {
            event_type: ConnectionEventType::Disconnected,
            message: string_of(&chars_of("游戏进程退出，等待重连")),
            pid: self.pid,
            module_base: self.module_base,
        };
        self.pid = None;
        self.module_base = None;
        self.state = LinkState::Disconnected;
        self.needs_reconnect_event = true;
        (ProbeOutcome::Lost, Some(ev))
    }
}

// ── Quest lifecycle ───────────────────────────────────────────────

/// Something the reader must do to the hunting log.
pub enum SessionAction {
    /// Start a new log round.
    NewRound,
    /// Log the separator line.
    Separator,
    /// Log a quest-level message.
    Quest(String),
    /// Log an info-level message.
    Info(String),
    /// Save the newest round under the given start time; `report` tells
    /// whether the outcome of the save is to be logged (see `save_report`).
    SaveRound { start: String, report: bool },
    /// Forget the per-monster tracking state.
    ResetMonsters,
}

/// Spec image of `SessionAction`.
pub enum ActionModel {
    NewRound,
    Separator,
    Quest(Seq<char>),
    Info(Seq<char>),
    SaveRound(Seq<char>, bool),
    ResetMonsters,
}

pub open spec fn action_model(a: SessionAction) -> ActionModel {
    match a {
        SessionAction::NewRound => ActionModel::NewRound,
        SessionAction::Separator => ActionModel::Separator,
        SessionAction::Quest(s) => ActionModel::Quest(s@),
        SessionAction::Info(s) => ActionModel::Info(s@),
        SessionAction::SaveRound { start, report } => ActionModel::SaveRound(start@, report),
        SessionAction::ResetMonsters => ActionModel::ResetMonsters,
    }
}

pub open spec fn actions_model(v: Seq<SessionAction>) -> Seq<ActionModel> {
    v.map_values(|a: SessionAction| action_model(a))
}

/// Quest lifecycle of the reader.
pub struct QuestSession {
    pub prev_state: QuestState,
    pub prev_id: i32,
    /// Quests started so far.
    pub quest_counter: i32,
    /// Start time of the running quest (for the saved round's file name).
    pub start_time: Option<String>,
    /// Last quest time seen while in the quest, shown after it ends.
    pub frozen_elapsed_ms: Option<u64>,
}

/// What one observation of the quest data yields.
pub struct QuestTick {
    pub in_quest: bool,
    /// Quest time to display.
    pub elapsed_ms: Option<u64>,
    pub actions: Vec<SessionAction>,
}

pub open spec fn elapsed_text(e: Option<u64>) -> Seq<char> {
    match e {
        Some(ms) => quest_time_spec(ms),
        None => "??"@,
    }
}

pub open spec fn start_msg(name: Seq<char>, id: i32, n: i32) -> Seq<char> {
    "["@ + name + "] 任务开始(ID:"@ + dec_int(id as int) + ")，本轮第"@ + dec_int(n as int) + "次任务"@
}

pub open spec fn end_msg(label: Seq<char>, e: Option<u64>) -> Seq<char> {
    "任务"@ + label + "！耗时 "@ + elapsed_text(e)
}

pub open spec fn interrupt_msg(e: Option<u64>) -> Seq<char> {
    "任务中断！耗时 "@ + elapsed_text(e)
}

pub open spec fn lost_msg() -> Seq<char> {
    "任务记录中断：游戏连接丢失"@
}

pub open spec fn in_quest_spec(raw: i32, id: i32) -> bool {
    raw == 2 && id > 0
}

/// Quest time shown, and the frozen time kept, after an observation.
pub open spec fn elapsed_spec(frozen: Option<u64>, raw: i32, id: i32, timer: Option<u64>) -> (
    Option<u64>,
    Option<u64>,
) {
    if in_quest_spec(raw, id) {
        match timer {
            Some(ms) => (Some(ms), Some(ms)),
            None => (None, frozen),
        }
    } else if raw >= 3 && id > 0 {
        (frozen, frozen)
    } else {
        (None, None)
    }
}

/// Save action for the running quest, if a start time is known.
pub open spec fn save_actions(start: Option<String>, report: bool) -> Seq<ActionModel> {
    match start {
        Some(s) => seq![ActionModel::SaveRound(s@, report)],
        None => Seq::empty(),
    }
}

/// The actions of one observation.
pub open spec fn tick_actions(
    s: QuestSession,
    raw: i32,
    id: i32,
    elapsed: Option<u64>,
    now_secs: u64,
    name: Option<String>,
) -> Seq<ActionModel> {
    let cur = QuestState::spec_from_raw(raw);
    let was_in = s.prev_state == QuestState::InQuest && s.prev_id > 0;
    let starts = (id > 0 || s.prev_id > 0) && !was_in && in_quest_spec(raw, id);
    let ends = (id > 0 || s.prev_id > 0) && was_in && cur.spec_is_over();
    let breaks = (id > 0 || s.prev_id > 0) && was_in && cur == QuestState::NoQuest;
    let qname = match name {
        Some(n) => n@,
        None => "未知"@,
    };
    let start_part = if starts {
        seq![
            ActionModel::NewRound,
            ActionModel::Separator,
            ActionModel::Quest(start_msg(qname, id, s.quest_counter.wrapping_add(1))),
            ActionModel::ResetMonsters,
        ]
    } else {
        Seq::empty()
    };
    let start_time = if starts {
        Some(filename_stamp_spec(now_secs))
    } else {
        match s.start_time {
            Some(t) => Some(t@),
            None => None,
        }
    };
    let save = match start_time {
        Some(t) => seq![ActionModel::SaveRound(t, true)],
        None => Seq::empty(),
    };
    let end_part = if ends {
        seq![ActionModel::Quest(end_msg(cur.spec_label(), elapsed)), ActionModel::Separator, ActionModel::Info(
            Seq::empty(),
        )] + save
    } else if breaks {
        seq![ActionModel::Quest(interrupt_msg(elapsed)), ActionModel::Separator, ActionModel::Info(
            Seq::empty(),
        )] + save
    } else {
        Seq::empty()
    };
    start_part + end_part
}

fn push_str(v: &mut Vec<char>, s: &str)
    ensures
        final(v)@ == old(v)@ + s@,
{
    let w = chars_of(s);
    push_all(v, &w);
}

fn push_all(v: &mut Vec<char>, w: &Vec<char>)
    ensures
        final(v)@ == old(v)@ + w@,
{
    let ghost start = v@;
    let n = w.len();
    for k in 0..n
        invariant
            n == w@.len(),
            v@ == start + w@.subrange(0, k as int),
    {
        v.push(w[k]);
        assert(w@.subrange(0, k + 1) =~= w@.subrange(0, k as int).push(w@[k as int]));
    }
    assert(w@.subrange(0, n as int) =~= w@);
}

fn elapsed_text_exec(e: Option<u64>, v: &mut Vec<char>)
    ensures
        final(v)@ == old(v)@ + elapsed_text(e),
{
    match e {
        Some(ms) => push_quest_time(v, ms),
        None => push_str(v, "??"),
    }
}

impl QuestSession {
    pub fn new() -> (s: QuestSession)
        ensures
            s.prev_state == QuestState::NoQuest,
            s.prev_id == 0,
            s.quest_counter == 0,
            s.start_time is None,
            s.frozen_elapsed_ms is None,
    {
        QuestSession {
            prev_state: QuestState::NoQuest,
            prev_id: 0,
            quest_counter: 0,
            start_time: None,
            frozen_elapsed_ms: None,
        }
    }

    /// One observation of the quest data: the raw quest state and id read
    /// from the game, the quest time read from the game timer while in a
    /// quest, the clock, and the quest's name. Starting a quest opens a new
    /// log round and logs the start; ending or interrupting it logs the
    /// outcome and asks for the round to be saved.
    pub fn observe(
        &mut self,
        raw_state: i32,
        quest_id: i32,
        timer_ms: Option<u64>,
        now_secs: u64,
        quest_name: Option<String>,
    ) -> (t: QuestTick)
        ensures
            ({
                let (shown, kept) = elapsed_spec(old(self).frozen_elapsed_ms, raw_state, quest_id, timer_ms);
                let was_in = old(self).prev_state == QuestState::InQuest && old(self).prev_id > 0;
                let starts = (quest_id > 0 || old(self).prev_id > 0) && !was_in && in_quest_spec(
                    raw_state,
                    quest_id,
                );
                let closes = (quest_id > 0 || old(self).prev_id > 0) && was_in && (
                QuestState::spec_from_raw(raw_state).spec_is_over() || QuestState::spec_from_raw(
                    raw_state,
                ) == QuestState::NoQuest);
                &&& t.in_quest == in_quest_spec(raw_state, quest_id)
                &&& t.elapsed_ms == shown
                &&& final(self).frozen_elapsed_ms == kept
                &&& actions_model(t.actions@) == tick_actions(
                    *old(self),
                    raw_state,
                    quest_id,
                    shown,
                    now_secs,
                    quest_name,
                )
                &&& final(self).prev_state == QuestState::spec_from_raw(raw_state)
                &&& final(self).prev_id == quest_id
                &&& final(self).quest_counter == (if starts {
                    old(self).quest_counter.wrapping_add(1)
                } else {
                    old(self).quest_counter
                })
                &&& closes ==> final(self).start_time is None
                &&& starts && !closes ==> (final(self).start_time matches Some(st) && st@
                    == filename_stamp_spec(now_secs))
                &&& !starts && !closes ==> final(self).start_time == old(self).start_time
            }),
    {
        let in_quest = raw_state == 2 && quest_id > 0;
        let mut shown: Option<u64> = None;
        if in_quest {
            match timer_ms {
                Some(ms) => {
                    shown = Some(ms);
                    self.frozen_elapsed_ms = Some(ms);
                },
                None => {},
            }
        } else if raw_state >= 3 && quest_id > 0 {
            shown = self.frozen_elapsed_ms;
        } else {
            self.frozen_elapsed_ms = None;
        }
        let ghost s0 = *old(self);
        let mut actions: Vec<SessionAction> = Vec::new();
        let current = QuestState::from_raw(raw_state);
        if quest_id > 0 || self.prev_id > 0 {
            let was_in = self.prev_state == QuestState::InQuest && self.prev_id > 0;
            if !was_in && in_quest {
                self.quest_counter = self.quest_counter.wrapping_add(1);
                self.start_time = Some(filename_stamp(now_secs));
                let mut m = chars_of("[");
                match &quest_name {
                    Some(n) => push_str(&mut m, n.as_str()),
                    None => push_str(&mut m, "未知"),
                }
                push_str(&mut m, "] 任务开始(ID:");
                push_dec_i64(&mut m, quest_id as i64);
                push_str(&mut m, ")，本轮第");
                push_dec_i64(&mut m, self.quest_counter as i64);
                push_str(&mut m, "次任务");
                actions.push(SessionAction::NewRound);
                actions.push(SessionAction::Separator);
                actions.push(SessionAction::Quest(string_of(&m)));
                actions.push(SessionAction::ResetMonsters);
                proof {
                    let qname = match quest_name {
                        Some(n) => n@,
                        None => "未知"@,
                    };
                    assert(m@ =~= start_msg(qname, quest_id, self.quest_counter));
                }
            }
            let closing = was_in && (current.is_over() || current == QuestState::NoQuest);
            if closing {
                let mut m = chars_of("任务");
                if current.is_over() {
                    push_str(&mut m, current.label());
                    push_str(&mut m, "！耗时 ");
                    elapsed_text_exec(shown, &mut m);
                    assert(m@ =~= end_msg(current.spec_label(), shown));
                } else {
                    push_str(&mut m, "中断！耗时 ");
                    elapsed_text_exec(shown, &mut m);
                    assert("任务"@ + "中断！耗时 "@ =~= "任务中断！耗时 "@) by {
                        reveal_strlit("任务");
                        reveal_strlit("中断！耗时 ");
                        reveal_strlit("任务中断！耗时 ");
                    }
                    assert(m@ =~= interrupt_msg(shown));
                }
                actions.push(SessionAction::Quest(string_of(&m)));
                actions.push(SessionAction::Separator);
                actions.push(SessionAction::Info(String::new()));
                match self.start_time.take() {
                    Some(st) => actions.push(SessionAction::SaveRound { start: st, report: true }),
                    None => {},
                }
            }
        }
        self.prev_state = current;
        self.prev_id = quest_id;
        proof {
            assert(actions_model(actions@) =~= tick_actions(s0, raw_state, quest_id, shown, now_secs, quest_name));
        }
        QuestTick { in_quest, elapsed_ms: shown, actions }
    }

    /// The game connection was lost: a running quest is closed in the log
    /// (and its round saved without reporting), and the session forgets it.
    pub fn on_connection_lost(&mut self) -> (actions: Vec<SessionAction>)
        ensures
            old(self).prev_state == QuestState::InQuest && old(self).prev_id > 0 ==> actions_model(
                actions@,
            ) == seq![ActionModel::Quest(lost_msg()), ActionModel::Separator] + save_actions(
                old(self).start_time,
                false,
            ),
            !(old(self).prev_state == QuestState::InQuest && old(self).prev_id > 0) ==> actions@.len()
                == 0,
            old(self).prev_state == QuestState::InQuest && old(self).prev_id > 0
                ==> final(self).start_time is None,
            !(old(self).prev_state == QuestState::InQuest && old(self).prev_id > 0)
                ==> final(self).start_time == old(self).start_time,
            final(self).prev_state == QuestState::NoQuest,
            final(self).prev_id == 0,
            final(self).frozen_elapsed_ms is None,
            final(self).quest_counter == old(self).quest_counter,
    {
        let mut actions: Vec<SessionAction> = Vec::new();
        if self.prev_state == QuestState::InQuest && self.prev_id > 0 {
            actions.push(SessionAction::Quest(string_of(&chars_of("任务记录中断：游戏连接丢失"))));
            actions.push(SessionAction::Separator);
            match self.start_time.take() {
                Some(st) => actions.push(SessionAction::SaveRound { start: st, report: false }),
                None => {},
            }
            assert(actions_model(actions@) =~= seq![ActionModel::Quest(lost_msg()), ActionModel::Separator]
                + save_actions(old(self).start_time, false));
        }
        self.prev_state = QuestState::NoQuest;
        self.prev_id = 0;
        self.frozen_elapsed_ms = None;
        actions
    }
}

/// The log line reporting an automatic save: the saved path, or the failure.
pub fn save_report(outcome: &Result<String, String>) -> (r: (LogLevel, String))
    ensures
        match outcome {
            Ok(p) => r.0 == LogLevel::Info && r.1@ == "本轮日志已自动保存："@ + p@,
            Err(e) => r.0 == LogLevel::Error && r.1@ == "本轮日志自动保存失败："@ + e@,
        },
{
    match outcome {
        Ok(p) => {
            let mut m = chars_of("本轮日志已自动保存：");
            push_str(&mut m, p.as_str());
            (LogLevel::Info, string_of(&m))
        },
        Err(e) => {
            let mut m = chars_of("本轮日志自动保存失败：");
            push_str(&mut m, e.as_str());
            (LogLevel::Error, string_of(&m))
        },
    }
}

// ── Move-change detection ───────────────────────────────────────

/// A move change seen less than this long after the last one is held back
/// unless the move id changed (ms).
pub const ACTION_DEBOUNCE_MS: u64 = 1700;

/// Frame resets of the same named move within this window are one move (ms).
pub const ACTION_GROUP_MS: u64 = 1200;

/// Time since `t`, zero when `t` is later (as `Instant::elapsed` saturates).
pub open spec fn since(now: u64, t: u64) -> u64 {
    if now >= t {
        (now - t) as u64
    } else {
        0
    }
}

/// Move tracking of one monster; times are milliseconds of a monotonic clock.
pub struct ActionWatch {
    pub last_action_id: i32,
    /// Whether a move id was seen yet.
    pub action_id_init: bool,
    /// Name of the last reported move (for grouping frame resets).
    pub last_grouped_name: Option<String>,
    pub last_grouped_ms: u64,
    /// Name reported with the last decision-value change.
    pub last_logged_ai_name: Option<String>,
    /// When the last move change was reported.
    pub last_action_change_ms: u64,
}

pub open spec fn opt_view(o: Option<String>) -> Option<Seq<char>> {
    match o {
        Some(s) => Some(s@),
        None => None,
    }
}

fn opt_eq(a: &Option<String>, b: &Option<String>) -> (r: bool)
    ensures
        r == (opt_view(*a) == opt_view(*b)),
{
    match a {
        Some(x) => match b {
            Some(y) => {
                let r = x.eq(y);
                assert(r == (x@ == y@));
                r
            },
            None => false,
        },
        None => b.is_none(),
    }
}

fn copy_opt(a: &Option<String>) -> (r: Option<String>)
    ensures
        r == *a,
{
    match a {
        Some(x) => Some(x.clone()),
        None => None,
    }
}

fn since_exec(now: u64, t: u64) -> (r: u64)
    ensures
        r == since(now, t),
{
    if now >= t {
        now - t
    } else {
        0
    }
}

impl ActionWatch {
    /// A fresh watch created at `now_ms`: as if the last group was 10 s ago
    /// and the last move change 1 s ago.
    pub fn new(now_ms: u64) -> (w: ActionWatch)
        ensures
            w.last_action_id == 0,
            !w.action_id_init,
            w.last_grouped_name is None,
            w.last_grouped_ms == now_ms.saturating_sub(10000),
            w.last_logged_ai_name is None,
            w.last_action_change_ms == now_ms.saturating_sub(1000),
    {
        ActionWatch {
            last_action_id: 0,
            action_id_init: false,
            last_grouped_name: None,
            last_grouped_ms: now_ms.saturating_sub(10000),
            last_logged_ai_name: None,
            last_action_change_ms: now_ms.saturating_sub(1000),
        }
    }

    /// A monster that is not the target: a change is reported whenever its
    /// move id differs from the last one seen (never on the first sighting).
    pub fn observe_other(&mut self, action_id: i32) -> (changed: bool)
        ensures
            changed == (old(self).action_id_init && action_id != old(self).last_action_id),
            final(self).last_action_id == action_id,
            final(self).action_id_init,
            final(self).last_grouped_name == old(self).last_grouped_name,
            final(self).last_grouped_ms == old(self).last_grouped_ms,
            final(self).last_logged_ai_name == old(self).last_logged_ai_name,
            final(self).last_action_change_ms == old(self).last_action_change_ms,
    {
        let changed = self.action_id_init && action_id != self.last_action_id;
        self.last_action_id = action_id;
        self.action_id_init = true;
        changed
    }

    /// The target monster. With a decision-value configuration for this
    /// monster, a change is reported when the decision values changed
    /// (`ai_changed`) or the named move changed; otherwise when the move id
    /// changed or the move's frame counter restarted (`frame_reset`), unless
    /// held back by the debounce window (id unchanged) or grouped with the
    /// same named move. A report records `now_ms` as the last change.
    pub fn observe_target(
        &mut self,
        action_id: i32,
        static_name: Option<String>,
        has_ai_config: bool,
        ai_changed: bool,
        frame_reset: bool,
        now_ms: u64,
    ) -> (report: bool)
        ensures
            has_ai_config ==> {
                let named_change = opt_view(static_name) is Some && opt_view(static_name) != opt_view(
                    old(self).last_logged_ai_name,
                );
                &&& report == (ai_changed || named_change)
                &&& final(self).last_logged_ai_name == (if ai_changed || named_change {
                    static_name
                } else {
                    old(self).last_logged_ai_name
                })
                &&& final(self).last_grouped_name == old(self).last_grouped_name
                &&& final(self).last_grouped_ms == old(self).last_grouped_ms
            },
            !has_ai_config ==> {
                let id_changed = old(self).action_id_init && action_id != old(self).last_action_id;
                let debounced = !id_changed && since(now_ms, old(self).last_action_change_ms)
                    < ACTION_DEBOUNCE_MS;
                let candidate = (id_changed || frame_reset) && !debounced;
                let grouped = opt_view(static_name) is Some && opt_view(static_name) == opt_view(
                    old(self).last_grouped_name,
                ) && since(now_ms, old(self).last_grouped_ms) < ACTION_GROUP_MS;
                &&& report == (candidate && !grouped)
                &&& candidate ==> final(self).last_grouped_ms == now_ms
                &&& candidate && !grouped ==> final(self).last_grouped_name == static_name
                &&& !(candidate && !grouped) ==> final(self).last_grouped_name == old(self).last_grouped_name
                &&& !candidate ==> final(self).last_grouped_ms == old(self).last_grouped_ms
                &&& final(self).last_logged_ai_name == old(self).last_logged_ai_name
            },
            report ==> final(self).last_action_change_ms == now_ms,
            !report ==> final(self).last_action_change_ms == old(self).last_action_change_ms,
            final(self).last_action_id == action_id,
            final(self).action_id_init,
    {
        let report = if has_ai_config {
            let named_change = static_name.is_some() && !opt_eq(&static_name, &self.last_logged_ai_name);
            if ai_changed || named_change {
                self.last_logged_ai_name = copy_opt(&static_name);
                true
            } else {
                false
            }
        } else {
            let id_changed = self.action_id_init && action_id != self.last_action_id;
            let debounced = !id_changed && since_exec(now_ms, self.last_action_change_ms)
                < ACTION_DEBOUNCE_MS;
            let mut candidate = (id_changed || frame_reset) && !debounced;
            if candidate {
                let grouped = static_name.is_some() && opt_eq(&static_name, &self.last_grouped_name)
                    && since_exec(now_ms, self.last_grouped_ms) < ACTION_GROUP_MS;
                if grouped {
                    self.last_grouped_ms = now_ms;
                    candidate = false;
                } else {
                    self.last_grouped_name = copy_opt(&static_name);
                    self.last_grouped_ms = now_ms;
                }
            }
            candidate
        };
        if report {
            self.last_action_change_ms = now_ms;
        }
        self.last_action_id = action_id;
        self.action_id_init = true;
        report
    }
}

// ── Laws of the quest lifecycle ──────────────────────────────────

/// Every quest start opens a new round before anything is logged, and the
/// start message carries the new quest count.
pub proof fn law_start_opens_round(
    s: QuestSession,
    raw: i32,
    id: i32,
    e: Option<u64>,
    now: u64,
    name: Option<String>,
)
    requires
        !(s.prev_state == QuestState::InQuest && s.prev_id > 0),
        in_quest_spec(raw, id),
    ensures
        tick_actions(s, raw, id, e, now, name) == seq![
            ActionModel::NewRound,
            ActionModel::Separator,
            ActionModel::Quest(
                start_msg(
                    match name {
                        Some(n) => n@,
                        None => "未知"@,
                    },
                    id,
                    s.quest_counter.wrapping_add(1),
                ),
            ),
            ActionModel::ResetMonsters,
        ],
{
    assert(!QuestState::spec_from_raw(raw).spec_is_over());
    assert(tick_actions(s, raw, id, e, now, name) =~= seq![
        ActionModel::NewRound,
        ActionModel::Separator,
        ActionModel::Quest(
            start_msg(
                match name {
                    Some(n) => n@,
                    None => "未知"@,
                },
                id,
                s.quest_counter.wrapping_add(1),
            ),
        ),
        ActionModel::ResetMonsters,
    ]);
}

/// A quest is closed in the log (outcome or interruption) only if the
/// previous observation was inside it; otherwise nothing but a start can be logged.
pub proof fn law_close_needs_running_quest(
    s: QuestSession,
    raw: i32,
    id: i32,
    e: Option<u64>,
    now: u64,
    name: Option<String>,
)
    requires
        !(s.prev_state == QuestState::InQuest && s.prev_id > 0),
        !in_quest_spec(raw, id),
    ensures
        tick_actions(s, raw, id, e, now, name).len() == 0,
{
}

/// A quest running in the previous observation ends with its outcome when the
/// game reports an end state, logs the elapsed time and asks for one save.
pub proof fn law_end_logs_outcome(
    s: QuestSession,
    raw: i32,
    id: i32,
    e: Option<u64>,
    now: u64,
    name: Option<String>,
)
    requires
        s.prev_state == QuestState::InQuest,
        s.prev_id > 0,
        QuestState::spec_from_raw(raw).spec_is_over(),
    ensures
        tick_actions(s, raw, id, e, now, name) == seq![
            ActionModel::Quest(end_msg(QuestState::spec_from_raw(raw).spec_label(), e)),
            ActionModel::Separator,
            ActionModel::Info(Seq::empty()),
        ] + save_actions(s.start_time, true),
{
    let t = tick_actions(s, raw, id, e, now, name);
    assert(!in_quest_spec(raw, id));
    assert(t =~= seq![
        ActionModel::Quest(end_msg(QuestState::spec_from_raw(raw).spec_label(), e)),
        ActionModel::Separator,
        ActionModel::Info(Seq::empty()),
    ] + save_actions(s.start_time, true));
}

// ── Black dragon pressure value ──────────────────────────────────

/// Monster id of the black dragon, whose pressure value is shown.
pub const BLACK_DRAGON_ID: i32 = 101;

/// The move after which the pressure value reads in the scaled mode.
pub const SCALING_MOVE_ID: i32 = 179;

/// Whether the pressure value is read in the scaled mode after this tick:
/// it switches on with the scaling move of the black dragon, stays on while
/// the black dragon is the target, and goes off with any other target.
pub fn next_counterattack_scaled(scaled: bool, monster_id: i32, action_id: i32) -> (r: bool)
    ensures
        r == (monster_id == BLACK_DRAGON_ID && (scaled || action_id == SCALING_MOVE_ID)),
{
    if monster_id == BLACK_DRAGON_ID {
        scaled || action_id == SCALING_MOVE_ID
    } else {
        false
    }
}

} // verus!
