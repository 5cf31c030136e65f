use mhw_radar::update::{
    attempt_message, check_app_dir, check_content_length, check_download_size, check_downloaded,
    check_installed, check_sha256, check_update_dest, check_update_zip_path, comparable_path_text,
    download_failure_message, empty_download_error, is_allowed_external_host, is_allowed_update_host,
    is_updater_run_dir, joined, normalize_external_url, safe_name, sha256_hex, updater_args,
    updater_run_dir_name, validate_checksum_url, validate_expected_sha256, validate_initial_update_url,
    validate_redirect_update_url, wide_null, DownloadAttempts, ResolvedParent, SizeCheck, UrlParts, MAX_UPDATE_ZIP_BYTES,
};

#[test]
fn external_hosts() {
    assert!(is_allowed_external_host("github.com"));
    assert!(is_allowed_external_host("www.mhdatalab.com"));
    assert!(!is_allowed_external_host("gist.github.com"));
    assert!(is_allowed_update_host("release-assets.githubusercontent.com"));
    assert!(!is_allowed_update_host("www.github.com"));
}

#[test]
fn external_links() {
    assert_eq!(normalize_external_url("  github.com/stellarling "), Ok("https://github.com/stellarling".to_string()));
    assert_eq!(normalize_external_url("//mhdatalab.com"), Ok("https://mhdatalab.com".to_string()));
    assert_eq!(normalize_external_url("https://GitHub.com/"), Ok("https://GitHub.com/".to_string()));
    assert_eq!(normalize_external_url("   "), Err("链接为空".to_string()));
    assert_eq!(normalize_external_url("http://github.com"), Err("只允许打开 HTTPS 链接".to_string()));
    assert_eq!(normalize_external_url("https://evil.com/x"), Err("不允许打开该外部链接: evil.com".to_string()));
    assert_eq!(normalize_external_url("https://"), Err("链接无效: empty host".to_string()));
}

const ASSET: &str = "https://github.com/stellarling/mhw-radar/releases/download/v1.2.0/MHW-Radar-v1.2.0.zip";

fn err_of(r: Result<UrlParts, String>) -> String {
    match r {
        Ok(u) => panic!("unexpected success: {}", u.href),
        Err(e) => e,
    }
}

#[test]
fn initial_update_urls() {
    let u = validate_initial_update_url(ASSET, Some("MHW-Radar-v1.2.0.zip")).unwrap();
    assert_eq!(u.scheme, "https");
    assert_eq!(u.host, Some("github.com".to_string()));
    assert_eq!(u.path, "/stellarling/mhw-radar/releases/download/v1.2.0/MHW-Radar-v1.2.0.zip");
    assert_eq!(u.href, ASSET);
    assert!(validate_initial_update_url(ASSET, None).is_ok());
    assert_eq!(
        err_of(validate_initial_update_url(ASSET, Some("other.zip"))),
        "更新包地址文件名不匹配: 期望 other.zip"
    );
    assert_eq!(
        err_of(validate_initial_update_url("http://github.com/stellarling/mhw-radar/releases/download/a.zip", None)),
        "更新包必须使用 HTTPS 地址"
    );
    assert_eq!(
        err_of(validate_initial_update_url("https://example.com/stellarling/mhw-radar/releases/download/a.zip", None)),
        "更新包初始下载地址必须是 github.com: example.com"
    );
    assert_eq!(
        err_of(validate_initial_update_url("https://github.com/other/repo/releases/download/a.zip", None)),
        "更新包地址不是 mhw-radar 的 Release 下载地址"
    );
    assert_eq!(
        err_of(validate_initial_update_url("not a url", None)),
        "更新包地址无效: relative URL without a base"
    );
}

fn parts(host: Option<&str>) -> UrlParts {
    UrlParts {
        scheme: "https".to_string(),
        host: host.map(|h| h.to_string()),
        path: "/".to_string(),
        href: "https://x/".to_string(),
    }
}

#[test]
fn redirect_urls() {
    assert_eq!(validate_redirect_update_url(&parts(Some("objects.githubusercontent.com"))), Ok(()));
    assert_eq!(validate_redirect_update_url(&parts(Some("evil.com"))), Err("跳转到非可信域名: evil.com".to_string()));
    assert_eq!(validate_redirect_update_url(&parts(None)), Err("跳转地址缺少域名".to_string()));
}

#[test]
fn checksum_urls() {
    assert!(validate_checksum_url("https://github.com/stellarling/mhw-radar/releases/download/v1/x.sha256").is_ok());
    assert_eq!(
        err_of(validate_checksum_url("https://objects.githubusercontent.com/x")),
        "校验文件地址不是 github.com: objects.githubusercontent.com"
    );
    assert_eq!(err_of(validate_checksum_url("ftp://github.com/x")), "校验文件必须使用 HTTPS 地址");
    assert_eq!(err_of(validate_checksum_url("::")), "校验文件地址无效: relative URL without a base");
}

const ABC: &str = "ba7816bf8f01cfea414140de5dae2223b00361a396177a9cb410ff61f20015ad";

#[test]
fn expected_checksums() {
    assert_eq!(
        validate_expected_sha256("  BA7816BF8F01CFEA414140DE5DAE2223B00361A396177A9CB410FF61F20015AD \n"),
        Ok(ABC.to_string())
    );
    let msg = Err("expected_sha256 必须是 64 位十六进制 SHA-256".to_string());
    assert_eq!(validate_expected_sha256(""), msg);
    assert_eq!(validate_expected_sha256(&ABC[1..]), msg);
    assert_eq!(validate_expected_sha256(&format!("g{}", &ABC[1..])), msg);
}

#[test]
fn checksums_of_bytes() {
    assert_eq!(sha256_hex(b"abc"), ABC);
    assert_eq!(sha256_hex(b""), "e3b0c44298fc1c149afbf4c8996fb92427ae41e4649b934ca495991b7852b855");
    assert_eq!(check_sha256(ABC, &sha256_hex(b"abc")), Ok(()));
    assert_eq!(check_sha256("aa", "bb"), Err("更新包校验失败: expected aa, got bb".to_string()));
}

#[test]
fn download_decisions() {
    assert_eq!(check_content_length(None), Ok(()));
    assert_eq!(check_content_length(Some(MAX_UPDATE_ZIP_BYTES)), Ok(()));
    assert_eq!(
        check_content_length(Some(MAX_UPDATE_ZIP_BYTES + 1)),
        Err("更新包过大: 314572801 bytes (上限 314572800 bytes)".to_string())
    );
    assert_eq!(check_downloaded(10), Ok(()));
    assert_eq!(
        check_downloaded(MAX_UPDATE_ZIP_BYTES + 1),
        Err("更新包过大: 已下载 314572801 bytes (上限 314572800 bytes)".to_string())
    );
    assert!(matches!(check_download_size(0, Some(5)), SizeCheck::Empty));
    match check_download_size(5, Some(6)) {
        SizeCheck::Incomplete(m) => assert_eq!(m, "下载不完整: 大小 5 bytes, 期望 6 bytes"),
        _ => panic!("expected a mismatch"),
    }
    assert!(matches!(check_download_size(5, Some(5)), SizeCheck::Complete));
    assert!(matches!(check_download_size(5, None), SizeCheck::Complete));
    assert_eq!(empty_download_error(), "下载失败：更新包为空文件");
    assert_eq!(download_failure_message(""), "下载失败，请检查网络连接或手动从 GitHub Releases 下载");
    assert_eq!(
        download_failure_message("GitHub 返回 HTTP 404"),
        "下载失败：GitHub 返回 HTTP 404。请检查网络连接，或手动从 GitHub Releases 下载 ZIP。"
    );
    assert_eq!(attempt_message(1), "正在下载更新包...");
    assert_eq!(attempt_message(3), "正在重试下载更新包...");
}

fn resolved(in_temp: bool, name: &str) -> Option<Result<ResolvedParent, String>> {
    Some(Ok(ResolvedParent { in_temp, name: name.to_string() }))
}

#[test]
fn package_locations() {
    let ok = resolved(true, "mhw-radar-update-123");
    assert_eq!(check_update_dest(&ok, Some("zip"), "C:\\Temp\\mhw-radar-update-123\\a.zip"), Ok(()));
    assert_eq!(check_update_dest(&None, Some("zip"), "a.zip"), Err("更新包目标路径无父目录".to_string()));
    assert_eq!(
        check_update_dest(&Some(Err("C:\\x".to_string())), Some("zip"), "C:\\x\\a.zip"),
        Err("更新包目标父目录不存在: C:\\x".to_string())
    );
    assert_eq!(
        check_update_dest(&resolved(false, "mhw-radar-update-1"), Some("zip"), "a.zip"),
        Err("更新包必须在临时目录下".to_string())
    );
    assert_eq!(
        check_update_dest(&resolved(true, "other"), Some("zip"), "a.zip"),
        Err("更新包父目录名必须以 mhw-radar-update- 开头".to_string())
    );
    assert_eq!(check_update_dest(&ok, Some("ZIP"), "a.ZIP"), Err("更新包必须为 .zip 文件".to_string()));
    assert_eq!(check_update_dest(&ok, None, "a"), Err("更新包必须为 .zip 文件".to_string()));
    assert_eq!(
        check_update_dest(&ok, Some("zip"), "C:\\Temp\\mhw-radar-update-1\\..\\a.zip"),
        Err("更新包路径不允许 ..".to_string())
    );
    assert_eq!(check_update_zip_path(&ok, Some("zip"), true, "a.zip", "a.zip"), Ok(()));
    assert_eq!(check_update_zip_path(&None, Some("zip"), true, "a.zip", "a.zip"), Err("更新包路径无父目录".to_string()));
    assert_eq!(
        check_update_zip_path(&Some(Err("D:\\y".to_string())), Some("zip"), true, "a", "a"),
        Err("更新包父目录不存在: D:\\y".to_string())
    );
    assert_eq!(
        check_update_zip_path(&ok, Some("zip"), false, "C:\\t\\a.zip", "C:\\t\\a.zip"),
        Err("更新包文件不存在: C:\\t\\a.zip".to_string())
    );
}

#[test]
fn handing_over_to_the_updater() {
    assert_eq!(safe_name("a\\b\\c"), "a/b/c");
    assert_eq!(joined("x", "y"), "xy");
    assert_eq!(comparable_path_text("C:\\Users\\ME\\App\\\\"), "c:/users/me/app");
    assert_eq!(comparable_path_text("/"), "");
    assert_eq!(check_app_dir("C:\\App", "c:/app/"), Ok(()));
    assert_eq!(check_app_dir("C:\\App", "D:\\App"), Err("app_dir 与当前程序目录不一致".to_string()));
    assert_eq!(check_installed(true, "a", true, "b"), Ok(()));
    assert_eq!(check_installed(false, "C:\\a.exe", true, "b"), Err("未找到主程序: C:\\a.exe".to_string()));
    assert_eq!(check_installed(true, "a", false, "C:\\u.exe"), Err("未找到更新器: C:\\u.exe".to_string()));
    assert_eq!(updater_run_dir_name(42, 1000), "mhw-radar-updater-run-42-1000");
    assert!(is_updater_run_dir("mhw-radar-updater-run-42-1000"));
    assert!(!is_updater_run_dir("mhw-radar-update-1"));
    assert_eq!(
        updater_args("C:\\App", "z.zip", 7, "C:\\App\\MHW Radar.exe", "T"),
        vec!["--app-dir", "C:\\App", "--zip", "z.zip", "--parent-pid", "7", "--restart", "C:\\App\\MHW Radar.exe", "--self-temp-dir", "T"]
    );
}

#[test]
fn wide_strings() {
    assert_eq!(wide_null("A"), vec![0x41, 0]);
    assert_eq!(wide_null("A😀"), vec![0x41, 0xD83D, 0xDE00, 0]);
    assert_eq!(wide_null("面板"), vec![0x9762, 0x677F, 0]);
    assert_eq!(wide_null(""), vec![0]);
}

#[test]
fn download_retries() {
    let mut a = DownloadAttempts::new();
    assert!(a.may_try());
    assert_eq!(a.message(), "正在下载更新包...");
    a.connect_failed("timed out");
    assert_eq!(a.last_err, "连接 GitHub 失败: timed out");
    assert_eq!(a.message(), "正在重试下载更新包...");
    a.came_out_empty();
    assert_eq!(a.last_err, "下载失败：更新包为空文件");
    assert!(a.may_try());
    a.status_failed("503 Service Unavailable");
    assert!(!a.may_try());
    assert_eq!(
        a.failure(),
        "下载失败：GitHub 返回 HTTP 503 Service Unavailable。请检查网络连接，或手动从 GitHub Releases 下载 ZIP。"
    );
    assert_eq!(DownloadAttempts::new().failure(), "下载失败，请检查网络连接或手动从 GitHub Releases 下载");
}
