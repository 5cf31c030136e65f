use mhw_radar::updater::{
    check_arg_paths, check_entry_count, check_total_copied, check_zip_entry, is_user_data_dir, listing_mentions_pid,
    lock_owner_pid, log_line, parse_args, require_file, run_dir_name, UpdaterArgs, MAX_SINGLE_FILE_BYTES,
    MAX_UNCOMPRESSED_BYTES,
};

fn args(v: &[&str]) -> Result<UpdaterArgs, String> {
    parse_args(&v.iter().map(|s| s.to_string()).collect())
}

fn err(v: &[&str]) -> String {
    match args(v) {
        Ok(_) => panic!("unexpected success"),
        Err(e) => e,
    }
}

#[test]
fn full_command_line() {
    let a = args(&[
        "updater", "--app-dir", "C:\\App", "--zip", "z.zip", "--parent-pid", "+42", "--restart",
        "MHW Radar.exe", "--log", "--self-temp-dir", "T",
    ])
    .unwrap();
    assert_eq!(a.app_dir, "C:\\App");
    assert_eq!(a.zip_path, "z.zip");
    assert_eq!(a.parent_pid, 42);
    assert_eq!(a.restart, "MHW Radar.exe");
    assert_eq!(a.self_temp_dir, Some("T".to_string()));
    let b = args(&["u", "--log", "x.log", "--restart", "r", "--parent-pid", "1", "--zip", "z", "--app-dir", "d", "--app-dir", "e"])
        .unwrap();
    assert_eq!(b.app_dir, "e");
    assert_eq!(b.self_temp_dir, None);
}

#[test]
fn command_line_errors() {
    assert_eq!(err(&[]), "缺少 --app-dir");
    assert_eq!(err(&["u"]), "缺少 --app-dir");
    assert_eq!(err(&["u", "--app-dir", "d"]), "缺少 --zip");
    assert_eq!(err(&["u", "--app-dir", "d", "--zip", "z"]), "缺少 --parent-pid");
    assert_eq!(err(&["u", "--app-dir", "d", "--zip", "z", "--parent-pid", "3"]), "缺少 --restart");
    assert_eq!(err(&["u", "--zip"]), "--zip 缺少值");
    assert_eq!(err(&["u", "--app-dir"]), "--app-dir 缺少值");
    assert_eq!(err(&["u", "--restart"]), "--restart 缺少值");
    assert_eq!(err(&["u", "--self-temp-dir"]), "--self-temp-dir 缺少值");
    assert_eq!(err(&["u", "--parent-pid"]), "--parent-pid 缺少值");
    assert_eq!(err(&["u", "--parent-pid", "abc"]), "parent-pid 不是有效整数: abc");
    assert_eq!(err(&["u", "--parent-pid", "4294967296"]), "parent-pid 不是有效整数: 4294967296");
    assert_eq!(err(&["u", "--verbose"]), "未知参数: --verbose");
}

#[test]
fn named_paths() {
    assert_eq!(check_arg_paths(true, "d", true, "z", true, false, "r", "d\\r"), Ok(()));
    assert_eq!(check_arg_paths(true, "d", true, "z", false, true, "r", "d\\r"), Ok(()));
    assert_eq!(check_arg_paths(false, "d", true, "z", true, true, "r", "x"), Err("--app-dir 不是有效目录: d".to_string()));
    assert_eq!(check_arg_paths(true, "d", false, "z", true, true, "r", "x"), Err("--zip 不是有效文件: z".to_string()));
    assert_eq!(
        check_arg_paths(true, "d", true, "z", false, false, "r", "d\\r"),
        Err("--restart 不存在: r (尝试: d\\r)".to_string())
    );
}

#[test]
fn archive_entries() {
    assert_eq!(check_zip_entry("a/b.txt", false, 10, 0), Ok(10));
    assert_eq!(check_zip_entry("a..b/c", false, 1, 5), Ok(6));
    assert_eq!(check_zip_entry("a/../b", false, 1, 0), Err("Zip Slip 攻击检测: a/../b".to_string()));
    assert_eq!(check_zip_entry("a\\..\\b", false, 1, 0), Err("Zip Slip 攻击检测: a\\..\\b".to_string()));
    assert_eq!(check_zip_entry("..", false, 1, 0), Err("Zip Slip 攻击检测: ..".to_string()));
    assert_eq!(check_zip_entry("/x", true, 1, 0), Err("拒绝绝对路径条目: /x".to_string()));
    assert_eq!(
        check_zip_entry("big.bin", false, MAX_SINGLE_FILE_BYTES + 1, 0),
        Err("单文件过大: big.bin (314572801 bytes > 314572800 上限)".to_string())
    );
    assert_eq!(
        check_zip_entry("f", false, 10, MAX_UNCOMPRESSED_BYTES - 5),
        Err("总解压大小 629145605 bytes 超过上限 629145600 bytes".to_string())
    );
    assert_eq!(check_zip_entry("f", false, 5, MAX_UNCOMPRESSED_BYTES - 5), Ok(MAX_UNCOMPRESSED_BYTES));
    assert_eq!(check_entry_count(2000), Ok(()));
    assert_eq!(check_entry_count(2001), Err("更新包条目数 2001 超过上限 2000".to_string()));
    assert_eq!(check_total_copied(MAX_UNCOMPRESSED_BYTES), Ok(()));
    assert_eq!(
        check_total_copied(MAX_UNCOMPRESSED_BYTES + 1),
        Err("实际解压 629145601 bytes 超过上限 629145600 bytes".to_string())
    );
}

#[test]
fn installing() {
    assert!(is_user_data_dir("Logs"));
    assert!(is_user_data_dir("LOG"));
    assert!(is_user_data_dir("exports"));
    assert!(is_user_data_dir("Screenshots"));
    assert!(!is_user_data_dir("resources"));
    assert!(!is_user_data_dir("logs2"));
    assert_eq!(require_file(true, "x"), Ok(()));
    assert_eq!(
        require_file(false, "resources/bin/mhw-radar.exe"),
        Err("更新包缺少必需文件: resources/bin/mhw-radar.exe".to_string())
    );
}

#[test]
fn lock_and_process_checks() {
    assert_eq!(lock_owner_pid(" 123\n"), Some(123));
    assert_eq!(lock_owner_pid(""), None);
    assert_eq!(lock_owner_pid("abc"), None);
    assert_eq!(lock_owner_pid("99999999999"), None);
    assert!(listing_mentions_pid("mhw.exe   1234 Console   1   10,000 K", 1234));
    assert!(!listing_mentions_pid("INFO: No tasks are running", 1234));
    assert_eq!(log_line("2024-01-01 00:00:00", "hi"), "[2024-01-01 00:00:00] hi\r\n");
    assert_eq!(run_dir_name("mhw-radar-update-staging-", 7), "mhw-radar-update-staging-7");
}
