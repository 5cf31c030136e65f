use mhw_radar::log::{
    round_file_name, sanitize_filename_part, separator_line, ConnectionEventType, ConnectionLogEntry,
    ConnectionLogStorage, ConnectionLogger, LogEntry, LogLevel, LogStorage, Logger, QuestState, SaveError,
    MAX_CONNECTION_ENTRIES, MAX_LOG_ENTRIES, MAX_ROUNDS,
};

fn entry(level: LogLevel, msg: &str) -> LogEntry {
    LogEntry::new_at(0, level, None, msg.to_string())
}

#[test]
fn quest_state_from_raw_values() {
    assert_eq!(QuestState::from_raw(0), QuestState::NoQuest);
    assert_eq!(QuestState::from_raw(1), QuestState::Ready);
    assert_eq!(QuestState::from_raw(2), QuestState::InQuest);
    assert_eq!(QuestState::from_raw(3), QuestState::Success);
    assert_eq!(QuestState::from_raw(4), QuestState::Completed);
    assert_eq!(QuestState::from_raw(5), QuestState::Failed);
    assert_eq!(QuestState::from_raw(6), QuestState::Abandon);
    assert_eq!(QuestState::from_raw(7), QuestState::Quit);
    assert_eq!(QuestState::from_raw(8), QuestState::NoQuest);
    assert_eq!(QuestState::from_raw(-1), QuestState::NoQuest);
}

#[test]
fn quest_state_over_and_labels() {
    assert!(QuestState::Success.is_over());
    assert!(QuestState::Completed.is_over());
    assert!(QuestState::Failed.is_over());
    assert!(QuestState::Abandon.is_over());
    assert!(QuestState::Quit.is_over());
    assert!(!QuestState::InQuest.is_over());
    assert!(!QuestState::Ready.is_over());
    assert!(!QuestState::NoQuest.is_over());
    assert_eq!(QuestState::Success.label(), "成功");
    assert_eq!(QuestState::Completed.label(), "成功");
    assert_eq!(QuestState::Failed.label(), "失败");
    assert_eq!(QuestState::Abandon.label(), "放弃");
    assert_eq!(QuestState::Quit.label(), "退出");
    assert_eq!(QuestState::InQuest.label(), "结束");
}

#[test]
fn level_and_event_names() {
    assert_eq!(LogLevel::Quest.name(), "Quest");
    assert_eq!(LogLevel::Warning.name(), "Warning");
    assert_eq!(ConnectionEventType::ReadError.as_str(), "read_error");
    assert_eq!(ConnectionEventType::Reconnected.as_str(), "reconnected");
    assert_eq!(ConnectionEventType::Waiting.as_str(), "waiting");
}

#[test]
fn entry_stamp_is_utc8_time_of_day() {
    let e = LogEntry::new_at(0, LogLevel::Info, Some(3), "m".to_string());
    assert_eq!(e.timestamp, "08:00:00");
    assert_eq!(e.quest_id, Some(3));
    assert_eq!(e.monster_id, None);
    let e = LogEntry::new_at(86399, LogLevel::Info, None, "m".to_string());
    assert_eq!(e.timestamp, "07:59:59");
    let c = ConnectionLogEntry::new_at(3600, ConnectionEventType::Connected, "c".to_string(), Some(7), Some(9));
    assert_eq!(c.timestamp, "09:00:00");
    assert_eq!(c.pid, Some(7));
    assert_eq!(c.module_base, Some(9));
}

#[test]
fn new_round_reuses_an_empty_round() {
    let mut s = LogStorage::new();
    assert_eq!(s.new_round(), 0);
    assert_eq!(s.new_round(), 0);
    assert_eq!(s.round_count(), 1);
    s.push(entry(LogLevel::Info, "a"));
    assert_eq!(s.new_round(), 1);
    assert_eq!(s.new_round(), 1);
    assert_eq!(s.round_count(), 2);
}

#[test]
fn push_needs_a_round() {
    let mut s = LogStorage::new();
    s.push(entry(LogLevel::Info, "lost"));
    assert_eq!(s.round_count(), 0);
    assert!(s.all_entries().is_empty());
}

#[test]
fn pushed_entry_reads_back_last() {
    let mut s = LogStorage::new();
    s.new_round();
    s.push(entry(LogLevel::Info, "a"));
    s.new_round();
    s.push(entry(LogLevel::Quest, "b"));
    s.push(entry(LogLevel::Combat, "c"));
    let r1 = s.get_round(1).unwrap();
    assert_eq!(r1.len(), 2);
    assert_eq!(r1.back().unwrap().message, "c");
    assert_eq!(s.get_round(0).unwrap().len(), 1);
    assert!(s.get_round(2).is_none());
    let all: Vec<String> = s.all_entries().into_iter().map(|e| e.message).collect();
    assert_eq!(all, vec!["a".to_string(), "b".to_string(), "c".to_string()]);
}

#[test]
fn round_keeps_newest_entries() {
    let mut s = LogStorage::new();
    s.new_round();
    for i in 0..(MAX_LOG_ENTRIES + 1) {
        s.push(entry(LogLevel::Info, &i.to_string()));
    }
    let r = s.get_round(0).unwrap();
    assert_eq!(r.len(), MAX_LOG_ENTRIES);
    assert_eq!(r.front().unwrap().message, "1");
    assert_eq!(r.back().unwrap().message, MAX_LOG_ENTRIES.to_string());
}

#[test]
fn oldest_round_goes_past_the_limit() {
    let mut s = LogStorage::new();
    for i in 0..(MAX_ROUNDS + 1) {
        s.new_round();
        s.push(entry(LogLevel::Info, &i.to_string()));
    }
    assert_eq!(s.round_count(), MAX_ROUNDS);
    assert_eq!(s.get_round(0).unwrap()[0].message, "1");
    assert_eq!(s.get_round(MAX_ROUNDS - 1).unwrap()[0].message, MAX_ROUNDS.to_string());
}

#[test]
fn clear_removes_every_round() {
    let mut s = LogStorage::new();
    s.new_round();
    s.push(entry(LogLevel::Info, "a"));
    s.clear();
    assert_eq!(s.round_count(), 0);
    assert_eq!(s.new_round(), 0);
}

#[test]
fn connection_log_is_bounded() {
    let mut c = ConnectionLogStorage::new();
    for i in 0..(MAX_CONNECTION_ENTRIES + 1) {
        c.push(ConnectionLogEntry::new_at(0, ConnectionEventType::Info, i.to_string(), None, None));
    }
    let all = c.all_entries();
    assert_eq!(all.len(), MAX_CONNECTION_ENTRIES);
    assert_eq!(all[0].message, "1");
    assert_eq!(all[MAX_CONNECTION_ENTRIES - 1].message, MAX_CONNECTION_ENTRIES.to_string());
    c.clear();
    assert!(c.all_entries().is_empty());
}

#[test]
fn latest_round_text_and_errors() {
    let mut s = LogStorage::new();
    assert_eq!(s.latest_round_text(), Err(SaveError::NoRounds));
    s.new_round();
    assert_eq!(s.latest_round_text(), Err(SaveError::EmptyRound));
    s.push(entry(LogLevel::Info, "a"));
    s.push(entry(LogLevel::Quest, "任务成功！耗时 1'00'00"));
    assert_eq!(
        s.latest_round_text().unwrap(),
        "[08:00:00] [Info] a\r\n[08:00:00] [Quest] 任务成功！耗时 1'00'00\r\n"
    );
    assert_eq!(SaveError::NoRounds.message(), "no rounds");
    assert_eq!(SaveError::EmptyRound.message(), "round is empty");
}

#[test]
fn file_names_are_sanitized() {
    assert_eq!(sanitize_filename_part("2026-05-16_14-30-25"), "2026-05-16_14-30-25");
    assert_eq!(sanitize_filename_part("a<b>:c"), "a_b__c");
    assert_eq!(sanitize_filename_part("x/y\\z|?*\""), "x_y_z____");
    assert_eq!(sanitize_filename_part("  ..x.. "), "x");
    assert_eq!(sanitize_filename_part(" . a . "), " a ");
    assert_eq!(sanitize_filename_part("a\tb"), "a_b");
    assert_eq!(sanitize_filename_part(""), "untitled");
    assert_eq!(sanitize_filename_part("..."), "untitled");
    assert_eq!(round_file_name("14:30"), "14_30.txt");
}

#[test]
fn separator_is_fifty_dashes() {
    let s = separator_line();
    assert_eq!(s.chars().count(), 50);
    assert!(s.chars().all(|c| c == '─'));
}

#[test]
fn logger_writes_the_shared_log() {
    let (logger, shared) = Logger::new();
    assert_eq!(logger.new_round(), 0);
    logger.quest("q".to_string());
    logger.action_change("m".to_string(), 101, 5, Some("A".to_string()));
    logger.separator();
    let copy = logger.clone();
    copy.error("e".to_string());
    {
        let h = shared.acquire_read();
        let s = h.borrow();
        assert_eq!(s.round_count(), 1);
        let r = s.get_round(0).unwrap();
        assert_eq!(r.len(), 4);
        assert_eq!(r[0].level, LogLevel::Quest);
        assert_eq!(r[1].monster_id, Some(101));
        assert_eq!(r[1].action_id, Some(5));
        assert_eq!(r[1].action_name, Some("A".to_string()));
        assert_eq!(r[2].message, separator_line());
        assert_eq!(r[3].level, LogLevel::Error);
        h.release_read();
    }
    let text = logger.latest_round_text().unwrap();
    assert!(text.ends_with("] [Error] e\r\n"));
}

#[test]
fn connection_logger_writes_the_shared_log() {
    let (logger, shared) = ConnectionLogger::new();
    logger.log(ConnectionEventType::Waiting, "w".to_string());
    logger.log_with(ConnectionEventType::Connected, "c".to_string(), Some(12), Some(0x1000));
    let h = shared.acquire_read();
    let all = h.borrow().all_entries();
    h.release_read();
    assert_eq!(all.len(), 2);
    assert_eq!(all[0].event_type, ConnectionEventType::Waiting);
    assert_eq!(all[0].pid, None);
    assert_eq!(all[1].pid, Some(12));
    assert_eq!(all[1].module_base, Some(0x1000));
}

#[test]
fn entries_for_picks_a_round_or_everything() {
    let mut s = LogStorage::new();
    s.new_round();
    s.push(entry(LogLevel::Info, "a"));
    s.new_round();
    s.push(entry(LogLevel::Quest, "b"));
    s.push(entry(LogLevel::Combat, "c"));
    let (one, r) = s.entries_for(Some(1));
    assert_eq!(r, 1);
    let names: Vec<String> = one.into_iter().map(|e| e.message).collect();
    assert_eq!(names, vec!["b".to_string(), "c".to_string()]);
    let (past, r) = s.entries_for(Some(5));
    assert_eq!(r, 5);
    assert!(past.is_empty());
    let (all, r) = s.entries_for(None);
    assert_eq!(r, 0);
    let names: Vec<String> = all.into_iter().map(|e| e.message).collect();
    assert_eq!(names, vec!["a".to_string(), "b".to_string(), "c".to_string()]);
}
