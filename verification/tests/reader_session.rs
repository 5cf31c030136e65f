use mhw_radar::log::{ConnectionEventType, LogLevel, QuestState};
use mhw_radar::session::{
    next_counterattack_scaled, save_report, ActionWatch, ConnectionTracker, LinkState, ProbeOutcome, QuestSession, SessionAction,
    DISCONNECT_FRAMES,
};
use mhw_radar::target::{is_large_monster, MonsterScanner, TargetCandidate, TargetContext, TargetSelector};

#[test]
fn first_connection_then_loss_then_reconnection() {
    let mut t = ConnectionTracker::new();
    assert_eq!(t.state.name(), "init");
    let w = t.on_attach_failed().unwrap();
    assert_eq!(w.event_type, ConnectionEventType::Waiting);
    assert_eq!(w.message, "未检测到游戏进程，等待游戏启动...");
    assert!(t.on_attach_failed().is_none());
    let c = t.on_attached(1234, 0x7FF6A0000000).unwrap();
    assert_eq!(c.event_type, ConnectionEventType::Connected);
    assert_eq!(c.message, "成功捕获游戏进程! PID: 1234, 基址: 0x7FF6A0000000");
    assert_eq!(c.pid, Some(1234));
    assert!(t.on_attached(1234, 0x7FF6A0000000).is_none());
    for _ in 0..(DISCONNECT_FRAMES - 1) {
        let (o, e) = t.on_probe(false);
        assert_eq!(o, ProbeOutcome::Alive);
        assert!(e.is_none());
    }
    let (o, e) = t.on_probe(false);
    assert_eq!(o, ProbeOutcome::Lost);
    let e = e.unwrap();
    assert_eq!(e.event_type, ConnectionEventType::Disconnected);
    assert_eq!(e.message, "游戏进程退出，等待重连");
    assert_eq!(e.pid, Some(1234));
    assert_eq!(e.module_base, Some(0x7FF6A0000000));
    assert_eq!(t.state, LinkState::Disconnected);
    assert_eq!(t.pid, None);
    let r = t.on_attached(99, 0x10).unwrap();
    assert_eq!(r.event_type, ConnectionEventType::Reconnected);
    assert_eq!(r.message, "成功捕获游戏进程! PID: 99, 基址: 0x10");
}

#[test]
fn a_readable_probe_resets_the_count() {
    let mut t = ConnectionTracker::new();
    t.on_attached(1, 1);
    for _ in 0..5 {
        t.on_probe(false);
    }
    let (o, _) = t.on_probe(true);
    assert_eq!(o, ProbeOutcome::Alive);
    assert_eq!(t.disconnect_frames, 0);
}

fn texts(actions: &[SessionAction]) -> Vec<String> {
    actions
        .iter()
        .map(|a| match a {
            SessionAction::NewRound => "new_round".to_string(),
            SessionAction::Separator => "separator".to_string(),
            SessionAction::Quest(m) => format!("quest:{}", m),
            SessionAction::Info(m) => format!("info:{}", m),
            SessionAction::SaveRound { start, report } => format!("save:{}:{}", start, report),
            SessionAction::ResetMonsters => "reset".to_string(),
        })
        .collect()
}

#[test]
fn quest_start_and_success() {
    let mut s = QuestSession::new();
    let t = s.observe(2, 101, Some(61_000), 0, Some("古龙".to_string()));
    assert!(t.in_quest);
    assert_eq!(t.elapsed_ms, Some(61_000));
    assert_eq!(
        texts(&t.actions),
        vec!["new_round", "separator", "quest:[古龙] 任务开始(ID:101)，本轮第1次任务", "reset"]
    );
    let t = s.observe(2, 101, Some(62_000), 0, Some("古龙".to_string()));
    assert!(t.actions.is_empty());
    let t = s.observe(3, 101, None, 0, Some("古龙".to_string()));
    assert!(!t.in_quest);
    assert_eq!(t.elapsed_ms, Some(62_000));
    assert_eq!(
        texts(&t.actions),
        vec!["quest:任务成功！耗时 1'02'00", "separator", "info:", "save:1970-01-01_08-00-00:true"]
    );
    assert_eq!(s.prev_state, QuestState::Success);
    assert!(s.start_time.is_none());
    let t = s.observe(0, 0, None, 0, None);
    assert!(t.actions.is_empty());
    assert_eq!(t.elapsed_ms, None);
}

#[test]
fn quest_interrupted_and_unknown_name() {
    let mut s = QuestSession::new();
    let t = s.observe(2, 5, None, 1747376425, None);
    assert_eq!(t.elapsed_ms, None);
    assert_eq!(texts(&t.actions)[2], "quest:[未知] 任务开始(ID:5)，本轮第1次任务");
    let t = s.observe(0, 0, None, 0, None);
    assert_eq!(
        texts(&t.actions),
        vec!["quest:任务中断！耗时 ??", "separator", "info:", "save:2025-05-16_14-20-25:true"]
    );
    let t = s.observe(2, 6, Some(10), 0, None);
    assert_eq!(texts(&t.actions)[2], "quest:[未知] 任务开始(ID:6)，本轮第2次任务");
}

#[test]
fn connection_lost_during_a_quest() {
    let mut s = QuestSession::new();
    s.observe(2, 101, Some(1000), 0, None);
    let a = s.on_connection_lost();
    assert_eq!(
        texts(&a),
        vec!["quest:任务记录中断：游戏连接丢失", "separator", "save:1970-01-01_08-00-00:false"]
    );
    assert_eq!(s.prev_id, 0);
    assert!(s.on_connection_lost().is_empty());
}

#[test]
fn save_reports() {
    let (l, m) = save_report(&Ok("C:\\logs\\a.txt".to_string()));
    assert_eq!(l, LogLevel::Info);
    assert_eq!(m, "本轮日志已自动保存：C:\\logs\\a.txt");
    let (l, m) = save_report(&Err("denied".to_string()));
    assert_eq!(l, LogLevel::Error);
    assert_eq!(m, "本轮日志自动保存失败：denied");
}

#[test]
fn other_monster_moves() {
    let mut w = ActionWatch::new(5000);
    assert!(!w.observe_other(3));
    assert!(!w.observe_other(3));
    assert!(w.observe_other(4));
}

#[test]
fn target_moves_debounce_and_grouping() {
    let mut w = ActionWatch::new(5000);
    assert!(!w.observe_target(1, None, false, false, false, 5000));
    // id change is reported
    assert!(w.observe_target(2, Some("咆哮".to_string()), false, false, false, 5100));
    assert_eq!(w.last_action_change_ms, 5100);
    // a frame restart with the same id within the debounce window is held back
    assert!(!w.observe_target(2, Some("咆哮".to_string()), false, false, true, 6000));
    // after the window, a restart of the same named move inside the group window is grouped
    let mut g = ActionWatch::new(0);
    g.observe_target(1, None, false, false, false, 0);
    assert!(g.observe_target(2, Some("甩尾".to_string()), false, false, false, 10_000));
    assert!(g.observe_target(3, Some("甩尾".to_string()), false, false, false, 10_500) == false);
    assert!(g.observe_target(4, Some("甩尾".to_string()), false, false, false, 12_000));
}

#[test]
fn target_moves_with_decision_values() {
    let mut w = ActionWatch::new(0);
    assert!(w.observe_target(1, None, true, true, false, 0));
    assert!(!w.observe_target(1, None, true, false, false, 10));
    assert!(w.observe_target(1, Some("A".to_string()), true, false, false, 20));
    assert!(!w.observe_target(2, Some("A".to_string()), true, false, false, 30));
    assert!(w.observe_target(2, Some("B".to_string()), true, false, false, 40));
}

fn cand(id: i32, dli: i32) -> TargetCandidate {
    TargetCandidate { monster_id: id, double_list_index: dli }
}

#[test]
fn target_selection() {
    let mut sel = TargetSelector::new();
    let none = TargetContext { locked_on_index: -1 };
    assert_eq!(sel.select_target(&[], &none, &[], false), None);
    assert_eq!(sel.select_target(&[cand(1, 0)], &TargetContext { locked_on_index: 5 }, &[0], false), Some(0));
    let ms = [cand(10, 3), cand(11, 7), cand(12, 7)];
    // lock-on wins over the order, first match
    assert_eq!(sel.select_target(&ms, &TargetContext { locked_on_index: 7 }, &[0, 2, 1], false), Some(1));
    // no match: the order decides
    assert_eq!(sel.select_target(&ms, &TargetContext { locked_on_index: 9 }, &[2, 0, 1], false), Some(2));
    assert_eq!(sel.select_target(&ms, &none, &[1, 0, 2], false), Some(1));
    // a tie of the first two: even hash keeps the first, odd takes the second
    let even = [cand(10, 0), cand(11, 1)];
    assert_eq!(sel.select_target(&even, &none, &[0, 1], true), Some(0));
    let odd = [cand(11, 0), cand(10, 1)];
    assert_eq!(sel.select_target(&odd, &none, &[0, 1], true), Some(1));
    let negative = [cand(-1, 0), cand(2, 1)];
    assert_eq!(sel.select_target(&negative, &none, &[0, 1], true), Some(1));
}

#[test]
fn large_monsters() {
    let _scanner = MonsterScanner::new();
    assert!(is_large_monster("em\\em001_00"));
    assert!(!is_large_monster("em\\ems001_00"));
    assert!(!is_large_monster("em\\e"));
    assert!(!is_large_monster("ot\\em001"));
}

#[test]
fn pressure_value_mode() {
    assert!(!next_counterattack_scaled(false, 101, 5));
    assert!(next_counterattack_scaled(false, 101, 179));
    assert!(next_counterattack_scaled(true, 101, 5));
    assert!(!next_counterattack_scaled(true, 92, 179));
}
