use mhw_radar::clock::{clock_text, days_to_ymd, filename_stamp, format_datetime_utc8_for_filename, utc_stamp};
use mhw_radar::game_data::{lookup_action_name, ActionTable, NameTable};
use mhw_radar::log::{LogEntry, LogLevel, LogStorage};
use mhw_radar::reader::{approximate_high, format_quest_time, max_quest_timers, sanitize_action_string};
use mhw_radar::stats::parse_quest_elapsed;

#[test]
fn days_to_dates() {
    assert_eq!(days_to_ymd(0), (1970, 1, 1));
    assert_eq!(days_to_ymd(11016), (2000, 2, 29));
    assert_eq!(days_to_ymd(19000), (2022, 1, 8));
}

#[test]
fn days_to_ymd_walks_the_calendar() {
    assert_eq!(days_to_ymd(19782), (2024, 2, 29));
    assert_eq!(days_to_ymd(19783), (2024, 3, 1));
    assert_eq!(days_to_ymd(19416), (2023, 2, 28));
    assert_eq!(days_to_ymd(19417), (2023, 3, 1));
    assert_eq!(days_to_ymd(10956), (1999, 12, 31));
    assert_eq!(days_to_ymd(10957), (2000, 1, 1));
    assert_eq!(days_to_ymd(47540), (2100, 2, 28));
    assert_eq!(days_to_ymd(47541), (2100, 3, 1));
}

#[test]
fn clock_texts() {
    assert_eq!(clock_text(0), "08:00:00");
    assert_eq!(clock_text(1747376425), "14:20:25");
    assert_eq!(filename_stamp(0), "1970-01-01_08-00-00");
    assert_eq!(filename_stamp(1747376425), "2025-05-16_14-20-25");
    assert_eq!(filename_stamp(1700000000), "2023-11-15_06-13-20");
    assert_eq!(utc_stamp(0), "1970-01-01 00:00:00");
    assert_eq!(utc_stamp(1700000000), "2023-11-14 22:13:20");
    assert_eq!(utc_stamp(951782400), "2000-02-29 00:00:00");
}

#[test]
fn quest_time_format() {
    assert_eq!(format_quest_time(0), "0'00'00");
    assert_eq!(format_quest_time(123456), "2'03'45");
    assert_eq!(format_quest_time(3_000_000), "50'00'00");
    assert_eq!(format_quest_time(9), "0'00'00");
}

#[test]
fn quest_time_round_trip() {
    for ms in [0u64, 9, 10, 123456, 599_999, 3_000_000, 7_654_321] {
        assert_eq!(parse_quest_elapsed(&format_quest_time(ms)), ms / 10 * 10);
    }
    assert_eq!(parse_quest_elapsed("1'2"), 0);
    assert_eq!(parse_quest_elapsed("x'02'03"), 2030);
}

#[test]
fn action_strings() {
    assert_eq!(sanitize_action_string("em001:em001Action<int>"), Some("em001 Action".to_string()));
    assert_eq!(sanitize_action_string("Attack"), Some("Attack".to_string()));
    assert_eq!(sanitize_action_string("a:b:RoarBig"), Some("Roar Big".to_string()));
    assert_eq!(sanitize_action_string("x:<y>"), None);
    assert_eq!(sanitize_action_string(""), None);
}

#[test]
fn timer_limits() {
    let t = max_quest_timers();
    assert_eq!(t, vec![54000, 72000, 108000, 126000, 180000]);
    assert_eq!(approximate_high(60000, &t), 72000);
    assert_eq!(approximate_high(54000, &t), 54000);
    assert_eq!(approximate_high(200000, &t), 200000);
}

#[test]
fn name_tables() {
    let names = NameTable::from_pairs(vec![(101, "黑龙".to_string()), (7, "火龙".to_string()), (7, "雌火龙".to_string())]);
    assert_eq!(names.get(101), Some("黑龙".to_string()));
    assert_eq!(names.get(7), Some("雌火龙".to_string()));
    assert_eq!(names.get(1), None);
    let mut acts = ActionTable::new();
    acts.extend(92, vec![(1, "咆哮".to_string())]);
    acts.extend(101, vec![(1, "甩尾".to_string())]);
    assert_eq!(lookup_action_name(&acts, 92, 1), Some("咆哮".to_string()));
    assert_eq!(lookup_action_name(&acts, 101, 1), Some("甩尾".to_string()));
    assert_eq!(lookup_action_name(&acts, 101, 2), None);
}

fn quest(msg: &str) -> LogEntry {
    LogEntry::new_at(0, LogLevel::Quest, None, msg.to_string())
}

#[test]
fn quest_statistics() {
    let mut s = LogStorage::new();
    s.new_round();
    s.push(quest("[古龙] 任务开始(ID:101)，本轮第1次任务"));
    s.push(LogEntry::new_at(0, LogLevel::Info, None, "任务成功！耗时 9'00'00".to_string()));
    s.push(quest("任务成功！耗时 2'03'45"));
    s.new_round();
    s.push(quest("[古龙] 任务开始(ID:101)，本轮第2次任务"));
    s.push(quest("任务放弃！耗时 1'00'00"));
    s.push(quest("[火龙] 任务开始(ID:7)，本轮第3次任务"));
    s.push(quest("任务失败！耗时 0'30'00"));
    s.push(quest("[古龙] 任务开始(ID:101)，本轮第4次任务"));
    s.push(quest("任务中断！耗时 0'10'00"));
    s.push(quest("任务成功！耗时 0'10'00"));
    let stats = s.compute_quest_stats();
    assert_eq!(stats.len(), 3);
    let a = &stats[0];
    assert_eq!(a.quest_name, "古龙");
    assert_eq!(a.quest_id, 101);
    assert_eq!(a.total, 2);
    assert_eq!(a.success, 1);
    assert_eq!(a.fail, 0);
    assert_eq!(a.abandon, 1);
    assert_eq!(a.avg_abandon_ms, 60000);
    assert_eq!(a.avg_completion_ms, 123450);
    assert_eq!(a.fastest_ms, 123450);
    assert_eq!(a.slowest_ms, 123450);
    assert_eq!(a.recent_completions, vec![123450]);
    // a completion after an interruption counts under the unknown quest
    let u = &stats[1];
    assert_eq!(u.quest_name, "未知");
    assert_eq!(u.quest_id, 0);
    assert_eq!(u.total, 1);
    assert_eq!(u.success, 1);
    assert_eq!(u.recent_completions, vec![10000]);
    let b = &stats[2];
    assert_eq!(b.quest_name, "火龙");
    assert_eq!(b.quest_id, 7);
    assert_eq!(b.total, 1);
    assert_eq!(b.fail, 1);
    assert_eq!(b.avg_abandon_ms, 0);
    assert_eq!(b.avg_completion_ms, 0);
}

#[test]
fn completion_times_stats() {
    let mut s = LogStorage::new();
    s.new_round();
    for t in ["1'00'00", "3'00'00", "2'00'00"] {
        s.push(quest("[古龙] 任务开始(ID:101)，本轮第1次任务"));
        s.push(quest(&format!("任务成功！耗时 {}", t)));
    }
    let stats = s.compute_quest_stats();
    assert_eq!(stats.len(), 1);
    let a = &stats[0];
    assert_eq!(a.total, 3);
    assert_eq!(a.avg_completion_ms, 120000);
    assert_eq!(a.fastest_ms, 60000);
    assert_eq!(a.slowest_ms, 180000);
    assert_eq!(a.recent_completions, vec![60000, 180000, 120000]);
}

#[test]
fn action_statistics() {
    let mut s = LogStorage::new();
    s.new_round();
    let mut add = |mid: i32, aid: i32, name: Option<&str>| {
        let mut e = LogEntry::new_at(0, LogLevel::Info, None, "move".to_string());
        e.monster_id = Some(mid);
        e.action_id = Some(aid);
        e.action_name = name.map(|n| n.to_string());
        s.push(e);
    };
    add(101, 5, Some("A"));
    add(101, 6, None);
    add(92, 7, None);
    add(101, 5, Some("A"));
    let names = NameTable::from_pairs(vec![(101, "黑龙".to_string())]);
    let mut acts = ActionTable::new();
    acts.extend(101, vec![(6, "B".to_string())]);
    let stats = s.compute_action_stats(&names, &acts);
    assert_eq!(stats.len(), 2);
    assert_eq!(stats[0].monster_id, 101);
    assert_eq!(stats[0].monster_name, "黑龙");
    assert_eq!(stats[0].total_actions, 3);
    assert_eq!(stats[0].actions.len(), 2);
    assert_eq!(stats[0].actions[0].action_name, "A");
    assert_eq!(stats[0].actions[0].action_id, 5);
    assert_eq!(stats[0].actions[0].count, 2);
    assert_eq!(stats[0].actions[1].action_name, "B");
    assert_eq!(stats[0].actions[1].count, 1);
    assert_eq!(stats[1].monster_id, 92);
    assert_eq!(stats[1].monster_name, "未知");
    assert_eq!(stats[1].actions[0].action_name, "动作 #7");
    assert_eq!(stats[1].actions[0].count, 1);
}

#[test]
fn current_file_stamp_shape() {
    let s = format_datetime_utc8_for_filename();
    let b: Vec<char> = s.chars().collect();
    assert_eq!(b.len(), 19);
    for (i, c) in b.iter().enumerate() {
        match i {
            4 | 7 | 13 | 16 => assert_eq!(*c, '-'),
            10 => assert_eq!(*c, '_'),
            _ => assert!(c.is_ascii_digit()),
        }
    }
    let e = LogEntry::new(LogLevel::Info, None, "now".to_string());
    assert_eq!(e.timestamp.len(), 8);
    assert_eq!(&e.timestamp[2..3], ":");
}

#[test]
fn recent_completions_chronological() {
    let mut s = LogStorage::new();
    s.new_round();
    let start = "[A] 任务开始(ID:7)，本轮第1次任务";
    s.push(quest(start));
    s.push(quest("任务成功！耗时 1'00'00"));
    s.push(quest(start));
    s.push(quest("任务成功！耗时 2'00'50"));
    s.push(quest(start));
    s.push(quest("任务放弃！耗时 0'30'00"));
    let stats = s.compute_quest_stats();
    assert_eq!(stats.len(), 1);
    let a = &stats[0];
    assert_eq!(a.quest_name, "A");
    assert_eq!(a.quest_id, 7);
    assert_eq!(a.total, 3);
    assert_eq!(a.success, 2);
    assert_eq!(a.abandon, 1);
    assert_eq!(a.avg_abandon_ms, 30000);
    assert_eq!(a.avg_completion_ms, 90250);
    assert_eq!(a.fastest_ms, 60000);
    assert_eq!(a.slowest_ms, 120500);
    assert_eq!(a.recent_completions, vec![60000, 120500]);
}

#[test]
fn recent_completions_keep_last_twenty() {
    let mut s = LogStorage::new();
    s.new_round();
    for i in 0..25u64 {
        s.push(quest("[A] 任务开始(ID:7)，本轮第1次任务"));
        s.push(quest(&format!("任务成功！耗时 {}'00'00", i)));
    }
    let stats = s.compute_quest_stats();
    let expected: Vec<u64> = (5..25u64).map(|m| m * 60_000).collect();
    assert_eq!(stats[0].recent_completions, expected);
}

#[test]
fn quest_stat_ranges_hold() {
    let mut s = LogStorage::new();
    s.new_round();
    let runs = [
        ("[A] 任务开始(ID:7)，本轮第1次任务", "任务成功！耗时 4'10'20"),
        ("[A] 任务开始(ID:7)，本轮第2次任务", "任务失败！耗时 9'00'00"),
        ("[A] 任务开始(ID:7)，本轮第3次任务", "任务成功！耗时 2'05'00"),
        ("[A] 任务开始(ID:7)，本轮第4次任务", "任务退出！耗时 0'10'00"),
        ("[A] 任务开始(ID:7)，本轮第5次任务", "任务放弃！耗时 1'00'00"),
        ("[B] 任务开始(ID:8)，本轮第1次任务", "任务失败！耗时 3'00'00"),
    ];
    for (start, end) in runs {
        s.push(quest(start));
        s.push(LogEntry::new_at(0, LogLevel::Info, None, "noise".to_string()));
        s.push(quest(end));
    }
    for q in s.compute_quest_stats() {
        assert!(q.success + q.fail + q.abandon <= q.total);
        assert_eq!(q.recent_completions.len() as u32, q.success.min(20));
        assert!(q.fastest_ms <= q.avg_completion_ms && q.avg_completion_ms <= q.slowest_ms);
    }
    let a = &s.compute_quest_stats()[0];
    assert_eq!((a.total, a.success, a.fail, a.abandon), (5, 2, 1, 1));
    assert_eq!((a.fastest_ms, a.avg_completion_ms, a.slowest_ms), (125000, 187600, 250200));
}

#[test]
fn move_totals_count_every_move() {
    let mut s = LogStorage::new();
    s.new_round();
    let moves = [(101, 5), (101, 6), (92, 7), (101, 5), (92, 7), (7, 1)];
    for (mid, aid) in moves {
        let mut e = LogEntry::new_at(0, LogLevel::Info, None, "move".to_string());
        e.monster_id = Some(mid);
        e.action_id = Some(aid);
        s.push(e);
    }
    let mut half = LogEntry::new_at(0, LogLevel::Info, None, "monster only".to_string());
    half.monster_id = Some(101);
    s.push(half);
    s.push(LogEntry::new_at(0, LogLevel::Info, None, "plain".to_string()));
    let stats = s.compute_action_stats(&NameTable::from_pairs(vec![]), &ActionTable::new());
    let total: u32 = stats.iter().map(|m| m.total_actions).sum();
    assert_eq!(total, moves.len() as u32);
    for m in &stats {
        assert_eq!(m.total_actions, m.actions.iter().map(|a| a.count).sum::<u32>());
    }
}
