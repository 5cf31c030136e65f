//! Decisions of the stand-alone updater: its command line, the checks on
//! each archive entry, which top-level directories hold user data, and the
//! text it logs. Waiting, extracting and copying stay with the caller.

use vstd::prelude::*;
use crate::ipc::append_chars;
use crate::text::{
    chars_of, dec, find, find_vec, parse_int, parse_u64, push_dec, seq_ascii_lower, seq_eq,
    starts_with, starts_with_vec, string_of, to_ascii_lower, trim, trim_vec,
};
use crate::update::{forward_slashes, joined, owned, safe_name};

verus! {

/// Largest number of entries an update archive may have.
pub const MAX_ZIP_ENTRIES: usize = 2000;

/// Largest total size of the extracted files, in bytes.
pub const MAX_UNCOMPRESSED_BYTES: u64 = 629145600;

/// Largest size of one extracted file, in bytes.
pub const MAX_SINGLE_FILE_BYTES: u64 = 314572800;

// ── Command line ─────────────────────────────────────────────────

/// The updater's arguments.
pub struct UpdaterArgs {
    pub app_dir: String,
    pub zip_path: String,
    pub parent_pid: u32,
    pub restart: String,
    pub self_temp_dir: Option<String>,
}

/// Options seen so far: app dir, zip, parent pid, restart, self temp dir.
pub type ArgsSeen = (Option<Seq<char>>, Option<Seq<char>>, Option<u32>, Option<Seq<char>>, Option<Seq<char>>);

pub open spec fn no_args() -> ArgsSeen {
    (None, None, None, None, None)
}

/// Reads the options from position `i` of the argument list on.
pub open spec fn args_from(raw: Seq<Seq<char>>, i: int, seen: ArgsSeen) -> Result<ArgsSeen, Seq<char>>
    decreases raw.len() - i,
{
    if i < 0 || i >= raw.len() {
        Ok(seen)
    } else {
        let a = raw[i];
        let has_value = i + 1 < raw.len();
        if a == "--app-dir"@ {
            if has_value {
                args_from(raw, i + 2, (Some(raw[i + 1]), seen.1, seen.2, seen.3, seen.4))
            } else {
                Err("--app-dir 缺少值"@)
            }
        } else if a == "--zip"@ {
            if has_value {
                args_from(raw, i + 2, (seen.0, Some(raw[i + 1]), seen.2, seen.3, seen.4))
            } else {
                Err("--zip 缺少值"@)
            }
        } else if a == "--parent-pid"@ {
            if has_value {
                match parse_int(raw[i + 1], false, 0, u32::MAX as int) {
                    Some(p) => args_from(raw, i + 2, (seen.0, seen.1, Some(p as u32), seen.3, seen.4)),
                    None => Err("parent-pid 不是有效整数: "@ + raw[i + 1]),
                }
            } else {
                Err("--parent-pid 缺少值"@)
            }
        } else if a == "--restart"@ {
            if has_value {
                args_from(raw, i + 2, (seen.0, seen.1, seen.2, Some(raw[i + 1]), seen.4))
            } else {
                Err("--restart 缺少值"@)
            }
        } else if a == "--self-temp-dir"@ {
            if has_value {
                args_from(raw, i + 2, (seen.0, seen.1, seen.2, seen.3, Some(raw[i + 1])))
            } else {
                Err("--self-temp-dir 缺少值"@)
            }
        } else if a == "--log"@ {
            if has_value && !starts_with(raw[i + 1], "--"@) {
                args_from(raw, i + 2, seen)
            } else {
                args_from(raw, i + 1, seen)
            }
        } else {
            Err("未知参数: "@ + a)
        }
    }
}

/// (app dir, zip, parent pid, restart, self temp dir) of a full command line
/// (program name first), or the error the updater stops with.
pub open spec fn parse_args_spec(raw: Seq<Seq<char>>) -> Result<
    (Seq<char>, Seq<char>, u32, Seq<char>, Option<Seq<char>>),
    Seq<char>,
> {
    match args_from(raw, 1, no_args()) {
        Err(e) => Err(e),
        Ok(s) => match s.0 {
            None => Err("缺少 --app-dir"@),
            Some(app_dir) => match s.1 {
                None => Err("缺少 --zip"@),
                Some(zip) => match s.2 {
                    None => Err("缺少 --parent-pid"@),
                    Some(pid) => match s.3 {
                        None => Err("缺少 --restart"@),
                        Some(restart) => Ok((app_dir, zip, pid, restart, s.4)),
                    },
                },
            },
        },
    }
}

pub open spec fn opt_view(o: Option<String>) -> Option<Seq<char>> {
    match o {
        Some(s) => Some(s@),
        None => None,
    }
}

pub open spec fn args_view(a: UpdaterArgs) -> (Seq<char>, Seq<char>, u32, Seq<char>, Option<Seq<char>>) {
    (a.app_dir@, a.zip_path@, a.parent_pid, a.restart@, opt_view(a.self_temp_dir))
}

fn copy_opt(o: &Option<String>) -> (r: Option<String>)
    ensures
        opt_view(r) == opt_view(*o),
{
    match o {
        Some(s) => Some(owned(s.as_str())),
        None => None,
    }
}

fn is_lit(v: &Vec<char>, lit: &str) -> (b: bool)
    ensures
        b == (v@ == lit@),
{
    let w = chars_of(lit);
    seq_eq(v, &w)
}

/// Reads the command line (program name first). Whether the named paths
/// exist is checked by the caller.
pub fn parse_args(raw: &Vec<String>) -> (r: Result<UpdaterArgs, String>)
    ensures
        match parse_args_spec(raw@.map_values(|s: String| s@)) {
            Ok(a) => r matches Ok(x) && args_view(x) == a,
            Err(e) => r matches Err(x) && x@ == e,
        },
{
    let ghost rv = raw@.map_values(|s: String| s@);
    let mut app_dir: Option<String> = None;
    let mut zip_path: Option<String> = None;
    let mut parent_pid: Option<u32> = None;
    let mut restart: Option<String> = None;
    let mut self_temp_dir: Option<String> = None;
    let n = raw.len();
    let mut i: usize = 1;
    while i < n
        invariant
            n == raw@.len(),
            rv == raw@.map_values(|s: String| s@),
            1 <= i,
            args_from(rv, 1, no_args()) == args_from(
                rv,
                i as int,
                (opt_view(app_dir), opt_view(zip_path), parent_pid, opt_view(restart), opt_view(self_temp_dir)),
            ),
        decreases n - i,
    {
        let a = chars_of(raw[i].as_str());
        assert(a@ == rv[i as int]);
        let has_value = i + 1 < n;
        if is_lit(&a, "--app-dir") {
            if !has_value {
                return Err(owned("--app-dir 缺少值"));
            }
            app_dir = Some(owned(raw[i + 1].as_str()));
            i += 2;
        } else if is_lit(&a, "--zip") {
            if !has_value {
                return Err(owned("--zip 缺少值"));
            }
            zip_path = Some(owned(raw[i + 1].as_str()));
            i += 2;
        } else if is_lit(&a, "--parent-pid") {
            if !has_value {
                return Err(owned("--parent-pid 缺少值"));
            }
            let s = chars_of(raw[i + 1].as_str());
            assert(s@ == rv[i + 1]);
            match parse_u64(&s) {
                Some(p) if p <= 0xFFFF_FFFF => {
                    parent_pid = Some(p as u32);
                },
                _ => {
                    return Err(joined("parent-pid 不是有效整数: ", raw[i + 1].as_str()));
                },
            }
            i += 2;
        } else if is_lit(&a, "--restart") {
            if !has_value {
                return Err(owned("--restart 缺少值"));
            }
            restart = Some(owned(raw[i + 1].as_str()));
            i += 2;
        } else if is_lit(&a, "--self-temp-dir") {
            if !has_value {
                return Err(owned("--self-temp-dir 缺少值"));
            }
            self_temp_dir = Some(owned(raw[i + 1].as_str()));
            i += 2;
        } else if is_lit(&a, "--log") {
            if has_value {
                let next = chars_of(raw[i + 1].as_str());
                assert(next@ == rv[i + 1]);
                let dashes = chars_of("--");
                if !starts_with_vec(&next, &dashes) {
                    i += 1;
                }
            }
            i += 1;
        } else {
            return Err(joined("未知参数: ", raw[i].as_str()));
        }
    }
    let app_dir = match app_dir {
        Some(v) => v,
        None => {
            return Err(owned("缺少 --app-dir"));
        },
    };
    let zip_path = match zip_path {
        Some(v) => v,
        None => {
            return Err(owned("缺少 --zip"));
        },
    };
    let parent_pid = match parent_pid {
        Some(v) => v,
        None => {
            return Err(owned("缺少 --parent-pid"));
        },
    };
    let restart = match restart {
        Some(v) => v,
        None => {
            return Err(owned("缺少 --restart"));
        },
    };
    Ok(UpdaterArgs { app_dir, zip_path, parent_pid, restart, self_temp_dir })
}

/// The checks on the named paths, in the order the updater makes them.
/// `resolved_is_file` tells whether the restart target exists once resolved
/// against the app directory (`resolved` is that path).
pub fn check_arg_paths(
    app_dir_is_dir: bool,
    app_dir: &str,
    zip_is_file: bool,
    zip: &str,
    restart_is_file: bool,
    resolved_is_file: bool,
    restart: &str,
    resolved: &str,
) -> (r: Result<(), String>)
    ensures
        !app_dir_is_dir ==> (r matches Err(e) && e@ == "--app-dir 不是有效目录: "@ + app_dir@),
        app_dir_is_dir && !zip_is_file ==> (r matches Err(e) && e@ == "--zip 不是有效文件: "@ + zip@),
        app_dir_is_dir && zip_is_file && !restart_is_file && !resolved_is_file ==> (r matches Err(e)
            && e@ == "--restart 不存在: "@ + restart@ + " (尝试: "@ + resolved@ + ")"@),
        app_dir_is_dir && zip_is_file && (restart_is_file || resolved_is_file) ==> r is Ok,
{
    if !app_dir_is_dir {
        return Err(joined("--app-dir 不是有效目录: ", app_dir));
    }
    if !zip_is_file {
        return Err(joined("--zip 不是有效文件: ", zip));
    }
    if !restart_is_file && !resolved_is_file {
        let mut v = chars_of("--restart 不存在: ");
        let a = chars_of(restart);
        append_chars(&mut v, &a);
        let b = chars_of(" (尝试: ");
        append_chars(&mut v, &b);
        let c = chars_of(resolved);
        append_chars(&mut v, &c);
        let d = chars_of(")");
        append_chars(&mut v, &d);
        return Err(string_of(&v));
    }
    Ok(())
}

// ── Archive entries ──────────────────────────────────────────────

/// Whether a `..` component of `s` starts at `k`.
pub open spec fn parent_component_at(s: Seq<char>, k: int) -> bool {
    0 <= k && k + 2 <= s.len() && s[k] == '.' && s[k + 1] == '.' && (k == 0 || s[k - 1] == '/') && (
    k + 2 == s.len() || s[k + 2] == '/')
}

/// Whether `..` is a whole `/`-separated component of `s`.
pub open spec fn has_parent_component(s: Seq<char>) -> bool {
    exists|k: int| #[trigger] parent_component_at(s, k)
}

fn find_parent_component(v: &Vec<char>) -> (b: bool)
    ensures
        b == has_parent_component(v@),
{
    let n = v.len();
    let mut k: usize = 0;
    while n >= 2 && k <= n - 2
        invariant
            n == v@.len(),
            forall|j: int| 0 <= j < k ==> !parent_component_at(v@, j),
        decreases n - k,
    {
        if v[k] == '.' && v[k + 1] == '.' && (k == 0 || v[k - 1] == '/') && (k + 2 == n || v[k + 2]
            == '/') {
            assert(parent_component_at(v@, k as int));
            return true;
        }
        assert(!parent_component_at(v@, k as int));
        k += 1;
    }
    assert forall|j: int| !parent_component_at(v@, j) by {
        if 0 <= j && j + 2 <= n && j >= k {
            assert(false);
        }
    }
    false
}

pub open spec fn zip_entry_verdict(raw_name: Seq<char>, absolute: bool, size: u64, total: u64) -> Result<
    u64,
    Seq<char>,
> {
    if has_parent_component(forward_slashes(raw_name)) {
        Err("Zip Slip 攻击检测: "@ + raw_name)
    } else if absolute {
        Err("拒绝绝对路径条目: "@ + raw_name)
    } else if size > MAX_SINGLE_FILE_BYTES {
        Err("单文件过大: "@ + raw_name + " ("@ + dec(size as nat) + " bytes > "@ + dec(
            MAX_SINGLE_FILE_BYTES as nat,
        ) + " 上限)"@)
    } else if total + size > MAX_UNCOMPRESSED_BYTES {
        Err("总解压大小 "@ + dec((total + size) as nat) + " bytes 超过上限 "@ + dec(
            MAX_UNCOMPRESSED_BYTES as nat,
        ) + " bytes"@)
    } else {
        Ok((total + size) as u64)
    }
}

/// Admits one archive entry: no `..` component and no absolute path (Zip
/// Slip), no file over the single-file limit, and the declared sizes so far
/// (`total` before it) within the total limit. Gives the new total.
pub fn check_zip_entry(raw_name: &str, absolute: bool, size: u64, total: u64) -> (r: Result<u64, String>)
    requires
        total <= MAX_UNCOMPRESSED_BYTES,
    ensures
        match zip_entry_verdict(raw_name@, absolute, size, total) {
            Ok(t) => r == Ok::<u64, String>(t),
            Err(e) => r matches Err(x) && x@ == e,
        },
        r matches Ok(t) ==> t <= MAX_UNCOMPRESSED_BYTES,
{
    let safe = safe_name(raw_name);
    let v = chars_of(safe.as_str());
    if find_parent_component(&v) {
        return Err(joined("Zip Slip 攻击检测: ", raw_name));
    }
    if absolute {
        return Err(joined("拒绝绝对路径条目: ", raw_name));
    }
    if size > MAX_SINGLE_FILE_BYTES {
        let mut m = chars_of("单文件过大: ");
        let a = chars_of(raw_name);
        append_chars(&mut m, &a);
        let b = chars_of(" (");
        append_chars(&mut m, &b);
        push_dec(&mut m, size);
        let c = chars_of(" bytes > ");
        append_chars(&mut m, &c);
        push_dec(&mut m, MAX_SINGLE_FILE_BYTES);
        let d = chars_of(" 上限)");
        append_chars(&mut m, &d);
        return Err(string_of(&m));
    }
    let t = total + size;
    if t > MAX_UNCOMPRESSED_BYTES {
        let mut m = chars_of("总解压大小 ");
        push_dec(&mut m, t);
        let a = chars_of(" bytes 超过上限 ");
        append_chars(&mut m, &a);
        push_dec(&mut m, MAX_UNCOMPRESSED_BYTES);
        let b = chars_of(" bytes");
        append_chars(&mut m, &b);
        return Err(string_of(&m));
    }
    Ok(t)
}

/// Refuses an archive with too many entries.
pub fn check_entry_count(n: usize) -> (r: Result<(), String>)
    ensures
        n > MAX_ZIP_ENTRIES ==> (r matches Err(e) && e@ == "更新包条目数 "@ + dec(n as nat) + " 超过上限 "@
            + dec(MAX_ZIP_ENTRIES as nat)),
        n <= MAX_ZIP_ENTRIES ==> r is Ok,
{
    if n > MAX_ZIP_ENTRIES {
        let mut m = chars_of("更新包条目数 ");
        push_dec(&mut m, n as u64);
        let a = chars_of(" 超过上限 ");
        append_chars(&mut m, &a);
        push_dec(&mut m, MAX_ZIP_ENTRIES as u64);
        return Err(string_of(&m));
    }
    Ok(())
}

/// Refuses an extraction whose written bytes exceed the total limit.
pub fn check_total_copied(total: u64) -> (r: Result<(), String>)
    ensures
        total > MAX_UNCOMPRESSED_BYTES ==> (r matches Err(e) && e@ == "实际解压 "@ + dec(total as nat)
            + " bytes 超过上限 "@ + dec(MAX_UNCOMPRESSED_BYTES as nat) + " bytes"@),
        total <= MAX_UNCOMPRESSED_BYTES ==> r is Ok,
{
    if total > MAX_UNCOMPRESSED_BYTES {
        let mut m = chars_of("实际解压 ");
        push_dec(&mut m, total);
        let a = chars_of(" bytes 超过上限 ");
        append_chars(&mut m, &a);
        push_dec(&mut m, MAX_UNCOMPRESSED_BYTES);
        let b = chars_of(" bytes");
        append_chars(&mut m, &b);
        return Err(string_of(&m));
    }
    Ok(())
}

// ── Installing ───────────────────────────────────────────────────

pub open spec fn user_data_dir(name: Seq<char>) -> bool {
    let l = seq_ascii_lower(name);
    l == "logs"@ || l == "log"@ || l == "exports"@ || l == "screenshots"@
}

/// Top-level directories of a package that are never copied over the
/// installation, because they hold the user's files (compared ignoring
/// ASCII case).
pub fn is_user_data_dir(name: &str) -> (b: bool)
    ensures
        b == user_data_dir(name@),
{
    let v = chars_of(name);
    let mut l: Vec<char> = Vec::new();
    let n = v.len();
    for i in 0..n
        invariant
            n == v@.len(),
            l@ == seq_ascii_lower(v@.subrange(0, i as int)),
    {
        l.push(to_ascii_lower(v[i]));
        assert(seq_ascii_lower(v@.subrange(0, i + 1)) =~= seq_ascii_lower(v@.subrange(0, i as int)).push(
            crate::text::ascii_lower(v@[i as int]),
        ));
    }
    assert(v@.subrange(0, n as int) =~= v@);
    is_lit(&l, "logs") || is_lit(&l, "log") || is_lit(&l, "exports") || is_lit(&l, "screenshots")
}

/// A file the package must contain.
pub fn require_file(is_file: bool, label: &str) -> (r: Result<(), String>)
    ensures
        is_file ==> r is Ok,
        !is_file ==> (r matches Err(e) && e@ == "更新包缺少必需文件: "@ + label@),
{
    if is_file {
        Ok(())
    } else {
        Err(joined("更新包缺少必需文件: ", label))
    }
}

/// The process id written in an install lock, if the file holds one.
pub fn lock_owner_pid(content: &str) -> (r: Option<u32>)
    ensures
        match parse_int(trim(content@), false, 0, u32::MAX as int) {
            Some(p) => r == Some(p as u32),
            None => r is None,
        },
{
    let v = chars_of(content);
    let t = trim_vec(&v);
    match parse_u64(&t) {
        Some(p) => {
            if p <= 0xFFFF_FFFF {
                Some(p as u32)
            } else {
                None
            }
        },
        None => None,
    }
}

/// Whether a process listing mentions the process id (how the updater
/// tells that a process still runs).
pub fn listing_mentions_pid(listing: &str, pid: u32) -> (b: bool)
    ensures
        b == (find(listing@, dec(pid as nat)) is Some),
{
    let v = chars_of(listing);
    let mut p: Vec<char> = Vec::new();
    push_dec(&mut p, pid as u64);
    find_vec(&v, &p).is_some()
}

/// One line of the updater's log: `[stamp] message` and CR LF.
pub fn log_line(stamp: &str, msg: &str) -> (r: String)
    ensures
        r@ == seq!['['] + stamp@ + seq![']', ' '] + msg@ + seq!['\r', '\n'],
{
    let mut v: Vec<char> = Vec::new();
    v.push('[');
    let a = chars_of(stamp);
    append_chars(&mut v, &a);
    v.push(']');
    v.push(' ');
    let b = chars_of(msg);
    append_chars(&mut v, &b);
    v.push('\r');
    v.push('\n');
    string_of(&v)
}

/// Name of a temporary directory of this updater run: `prefix` and the pid.
pub fn run_dir_name(prefix: &str, pid: u32) -> (r: String)
    ensures
        r@ == prefix@ + dec(pid as nat),
{
    let mut v = chars_of(prefix);
    push_dec(&mut v, pid as u64);
    string_of(&v)
}

} // verus!
