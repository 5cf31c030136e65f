//! The panel's update and link checks: which URLs may be opened or
//! downloaded from, where an update package may live, how its checksum is
//! checked, and what the download loop decides. The network, the file
//! system and the process launch stay with the caller.

use vstd::prelude::*;
use sha2::Digest;
use crate::ipc::{append_chars, lower_hex_digit};
use crate::text::{
    chars_of, dec, ends_with, ends_with_vec, find, is_hex_digit, push_dec,
    seq_ascii_lower, starts_with, starts_with_vec, string_of, to_ascii_lower, trim, trim_end,
    trim_start, trim_vec, seq_eq,
};

verus! {

// ── Text helpers ─────────────────────────────────────────────────

/// `prefix` followed by `x`.
pub fn joined(prefix: &str, x: &str) -> (r: String)
    ensures
        r@ == prefix@ + x@,
{
    let mut v = chars_of(prefix);
    let w = chars_of(x);
    append_chars(&mut v, &w);
    string_of(&v)
}

/// Owned copy of a string slice.
pub fn owned(s: &str) -> (r: String)
    ensures
        r@ == s@,
{
    let v = chars_of(s);
    string_of(&v)
}

pub open spec fn res_view(r: Result<String, String>) -> Result<Seq<char>, Seq<char>> {
    match r {
        Ok(s) => Ok(s@),
        Err(e) => Err(e@),
    }
}

pub open spec fn unit_res_view(r: Result<(), String>) -> Result<(), Seq<char>> {
    match r {
        Ok(()) => Ok(()),
        Err(e) => Err(e@),
    }
}

// ── URL parsing ──────────────────────────────────────────────────

/// The parts of a parsed URL that the checks read.
pub struct UrlParts {
    pub scheme: String,
    pub host: Option<String>,
    pub path: String,
    /// The URL as the parser serialises it.
    pub href: String,
}

/// (scheme, host, path, serialisation) of a parsed URL.
pub type UrlView = (Seq<char>, Option<Seq<char>>, Seq<char>, Seq<char>);

pub open spec fn opt_str_view(o: Option<String>) -> Option<Seq<char>> {
    match o {
        Some(s) => Some(s@),
        None => None,
    }
}

pub open spec fn parts_view(p: UrlParts) -> UrlView {
    (p.scheme@, opt_str_view(p.host), p.path@, p.href@)
}

pub open spec fn parsed_view(r: Result<UrlParts, String>) -> Result<UrlView, Seq<char>> {
    match r {
        Ok(p) => Ok(parts_view(p)),
        Err(e) => Err(e@),
    }
}

/// What the WHATWG URL parser makes of `input`: the parts of the URL, or the
/// text of the parse error.
pub uninterp spec fn url_parse(input: Seq<char>) -> Result<UrlView, Seq<char>>;

/// `reqwest::Url::parse` (the `url` crate's parser). On success the URL's
/// `scheme()`, `host_str()`, `path()` and `as_str()` are read out; on failure
/// the error's display text is kept. The contract ties both to `url_parse`
/// of the input and claims nothing else.
#[verifier::external_body]
fn parse_url(input: &str) -> (r: Result<UrlParts, String>)
    ensures
        parsed_view(r) == url_parse(input@),
{
    match reqwest::Url::parse(input) {
        Ok(u) => Ok(
            UrlParts {
                scheme: u.scheme().to_string(),
                host: u.host_str().map(|h| h.to_string()),
                path: u.path().to_string(),
                href: u.as_str().to_string(),
            },
        ),
        Err(e) => Err(e.to_string()),
    }
}

fn host_or_empty(host: &Option<String>) -> (r: String)
    ensures
        r@ == match opt_str_view(*host) {
            Some(h) => h,
            None => Seq::empty(),
        },
{
    match host {
        Some(h) => owned(h.as_str()),
        None => String::new(),
    }
}

fn copy_parts(p: &UrlParts) -> (r: UrlParts)
    ensures
        parts_view(r) == parts_view(*p),
{
    UrlParts {
        scheme: owned(p.scheme.as_str()),
        host: match &p.host {
            Some(h) => Some(owned(h.as_str())),
            None => None,
        },
        path: owned(p.path.as_str()),
        href: owned(p.href.as_str()),
    }
}

fn str_is(s: &str, lit: &str) -> (b: bool)
    ensures
        b == (s@ == lit@),
{
    let a = chars_of(s);
    let b = chars_of(lit);
    seq_eq(&a, &b)
}

// ── External links ───────────────────────────────────────────────

pub open spec fn allowed_external_host(host: Seq<char>) -> bool {
    host == "github.com"@ || host == "www.github.com"@ || host == "mhdatalab.com"@ || host
        == "www.mhdatalab.com"@
}

/// Hosts whose pages the panel opens in the browser.
pub fn is_allowed_external_host(host: &str) -> (b: bool)
    ensures
        b == allowed_external_host(host@),
{
    str_is(host, "github.com") || str_is(host, "www.github.com") || str_is(host, "mhdatalab.com")
        || str_is(host, "www.mhdatalab.com")
}

/// `s` without its leading `/` characters.
pub open spec fn skip_slashes(s: Seq<char>) -> Seq<char>
    decreases s.len(),
{
    if s.len() > 0 && s[0] == '/' {
        skip_slashes(s.drop_first())
    } else {
        s
    }
}

/// The link as it is handed to the parser: trimmed, and given `https://`
/// when it names no `http(s)` scheme.
pub open spec fn normalized_url_text(url: Seq<char>) -> Seq<char> {
    let t = trim(url);
    if starts_with(t, "https://"@) || starts_with(t, "http://"@) {
        t
    } else {
        "https://"@ + skip_slashes(t)
    }
}

pub open spec fn external_url_verdict(normalized: Seq<char>, parsed: Result<UrlView, Seq<char>>) -> Result<
    Seq<char>,
    Seq<char>,
> {
    match parsed {
        Err(e) => Err("链接无效: "@ + e),
        Ok(u) => if u.0 != "https"@ {
            Err("只允许打开 HTTPS 链接"@)
        } else {
            let host = match u.1 {
                Some(h) => h,
                None => Seq::empty(),
            };
            if !allowed_external_host(host) {
                Err("不允许打开该外部链接: "@ + host)
            } else {
                Ok(normalized)
            }
        },
    }
}

fn skip_slashes_vec(v: &Vec<char>) -> (r: Vec<char>)
    ensures
        r@ == skip_slashes(v@),
{
    let mut i: usize = 0;
    assert(v@.subrange(0, v.len() as int) =~= v@);
    while i < v.len() && v[i] == '/'
        invariant
            i <= v.len(),
            skip_slashes(v@) == skip_slashes(v@.subrange(i as int, v.len() as int)),
        decreases v.len() - i,
    {
        assert(v@.subrange(i as int, v.len() as int).drop_first() =~= v@.subrange(
            i + 1,
            v.len() as int,
        ));
        i += 1;
    }
    let mut r: Vec<char> = Vec::new();
    let mut k: usize = i;
    while k < v.len()
        invariant
            i <= k <= v.len(),
            r@ == v@.subrange(i as int, k as int),
        decreases v.len() - k,
    {
        r.push(v[k]);
        assert(v@.subrange(i as int, k + 1) =~= v@.subrange(i as int, k as int).push(v@[k as int]));
        k += 1;
    }
    r
}

/// Decision on an external link after parsing its normalised text.
pub fn check_external_url(normalized: &str, parsed: &Result<UrlParts, String>) -> (r: Result<
    String,
    String,
>)
    ensures
        res_view(r) == external_url_verdict(normalized@, parsed_view(*parsed)),
{
    match parsed {
        Err(e) => Err(joined("链接无效: ", e.as_str())),
        Ok(u) => {
            if !str_is(u.scheme.as_str(), "https") {
                return Err(owned("只允许打开 HTTPS 链接"));
            }
            let host = host_or_empty(&u.host);
            if !is_allowed_external_host(host.as_str()) {
                return Err(joined("不允许打开该外部链接: ", host.as_str()));
            }
            Ok(owned(normalized))
        },
    }
}

/// The link to open in the system browser, or why it may not be opened.
pub fn normalize_external_url(url: &str) -> (r: Result<String, String>)
    ensures
        trim(url@).len() == 0 ==> res_view(r) == Err::<Seq<char>, Seq<char>>("链接为空"@),
        trim(url@).len() > 0 ==> res_view(r) == external_url_verdict(
            normalized_url_text(url@),
            url_parse(normalized_url_text(url@)),
        ),
{
    let v = chars_of(url);
    let t = trim_vec(&v);
    if t.len() == 0 {
        return Err(owned("链接为空"));
    }
    let https = chars_of("https://");
    let http = chars_of("http://");
    let n = if starts_with_vec(&t, &https) || starts_with_vec(&t, &http) {
        t
    } else {
        let mut p = chars_of("https://");
        let rest = skip_slashes_vec(&t);
        append_chars(&mut p, &rest);
        p
    };
    let normalized = string_of(&n);
    let parsed = parse_url(normalized.as_str());
    check_external_url(normalized.as_str(), &parsed)
}

// ── Update downloads ─────────────────────────────────────────────

/// Largest update package the panel downloads, in bytes.
pub const MAX_UPDATE_ZIP_BYTES: u64 = 314572800;

pub open spec fn allowed_update_host(host: Seq<char>) -> bool {
    host == "github.com"@ || host == "objects.githubusercontent.com"@ || host
        == "github-releases.githubusercontent.com"@ || host
        == "release-assets.githubusercontent.com"@
}

/// Hosts an update download may be served from (GitHub and its CDNs).
pub fn is_allowed_update_host(host: &str) -> (b: bool)
    ensures
        b == allowed_update_host(host@),
{
    str_is(host, "github.com") || str_is(host, "objects.githubusercontent.com") || str_is(
        host,
        "github-releases.githubusercontent.com",
    ) || str_is(host, "release-assets.githubusercontent.com")
}

pub open spec fn initial_update_verdict(parsed: Result<UrlView, Seq<char>>, expected_asset: Option<
    Seq<char>,
>) -> Result<UrlView, Seq<char>> {
    match parsed {
        Err(e) => Err("更新包地址无效: "@ + e),
        Ok(u) => if u.0 != "https"@ {
            Err("更新包必须使用 HTTPS 地址"@)
        } else {
            match u.1 {
                None => Err("更新包地址缺少域名"@),
                Some(h) => if h != "github.com"@ {
                    Err("更新包初始下载地址必须是 github.com: "@ + h)
                } else if !starts_with(u.2, "/stellarling/mhw-radar/releases/download/"@) {
                    Err("更新包地址不是 mhw-radar 的 Release 下载地址"@)
                } else {
                    match expected_asset {
                        Some(n) => if !ends_with(u.2, n) {
                            Err("更新包地址文件名不匹配: 期望 "@ + n)
                        } else {
                            Ok(u)
                        },
                        None => Ok(u),
                    }
                },
            }
        },
    }
}

/// Decision on the first download URL of an update after parsing it.
pub fn check_initial_update_url(parsed: &Result<UrlParts, String>, expected_asset_name: Option<&str>) -> (r:
    Result<UrlParts, String>)
    ensures
        parsed_view(r) == initial_update_verdict(
            parsed_view(*parsed),
            match expected_asset_name {
                Some(n) => Some(n@),
                None => None,
            },
        ),
{
    match parsed {
        Err(e) => Err(joined("更新包地址无效: ", e.as_str())),
        Ok(u) => {
            if !str_is(u.scheme.as_str(), "https") {
                return Err(owned("更新包必须使用 HTTPS 地址"));
            }
            match &u.host {
                None => Err(owned("更新包地址缺少域名")),
                Some(h) => {
                    if !str_is(h.as_str(), "github.com") {
                        return Err(joined("更新包初始下载地址必须是 github.com: ", h.as_str()));
                    }
                    let path = chars_of(u.path.as_str());
                    let prefix = chars_of("/stellarling/mhw-radar/releases/download/");
                    if !starts_with_vec(&path, &prefix) {
                        return Err(owned("更新包地址不是 mhw-radar 的 Release 下载地址"));
                    }
                    match expected_asset_name {
                        Some(n) => {
                            let nv = chars_of(n);
                            if !ends_with_vec(&path, &nv) {
                                return Err(joined("更新包地址文件名不匹配: 期望 ", n));
                            }
                            Ok(copy_parts(u))
                        },
                        None => Ok(copy_parts(u)),
                    }
                },
            }
        },
    }
}

/// The first download URL of an update: an HTTPS release asset of the
/// project on github.com, named as expected when a name is given.
pub fn validate_initial_update_url(url: &str, expected_asset_name: Option<&str>) -> (r: Result<
    UrlParts,
    String,
>)
    ensures
        parsed_view(r) == initial_update_verdict(
            url_parse(url@),
            match expected_asset_name {
                Some(n) => Some(n@),
                None => None,
            },
        ),
{
    let parsed = parse_url(url);
    check_initial_update_url(&parsed, expected_asset_name)
}

pub open spec fn redirect_verdict(u: UrlView) -> Result<(), Seq<char>> {
    match u.1 {
        None => Err("跳转地址缺少域名"@),
        Some(h) => if !allowed_update_host(h) {
            Err("跳转到非可信域名: "@ + h)
        } else {
            Ok(())
        },
    }
}

/// The URL a download was redirected to must be on GitHub or its CDNs.
pub fn validate_redirect_update_url(url: &UrlParts) -> (r: Result<(), String>)
    ensures
        unit_res_view(r) == redirect_verdict(parts_view(*url)),
{
    match &url.host {
        None => Err(owned("跳转地址缺少域名")),
        Some(h) => {
            if !is_allowed_update_host(h.as_str()) {
                Err(joined("跳转到非可信域名: ", h.as_str()))
            } else {
                Ok(())
            }
        },
    }
}

pub open spec fn checksum_url_verdict(parsed: Result<UrlView, Seq<char>>) -> Result<UrlView, Seq<char>> {
    match parsed {
        Err(e) => Err("校验文件地址无效: "@ + e),
        Ok(u) => if u.0 != "https"@ {
            Err("校验文件必须使用 HTTPS 地址"@)
        } else {
            let host = match u.1 {
                Some(h) => h,
                None => Seq::empty(),
            };
            if host != "github.com"@ {
                Err("校验文件地址不是 github.com: "@ + host)
            } else {
                Ok(u)
            }
        },
    }
}

/// Decision on the URL of a checksum file after parsing it.
pub fn check_checksum_url(parsed: &Result<UrlParts, String>) -> (r: Result<UrlParts, String>)
    ensures
        parsed_view(r) == checksum_url_verdict(parsed_view(*parsed)),
{
    match parsed {
        Err(e) => Err(joined("校验文件地址无效: ", e.as_str())),
        Ok(u) => {
            if !str_is(u.scheme.as_str(), "https") {
                return Err(owned("校验文件必须使用 HTTPS 地址"));
            }
            let host = host_or_empty(&u.host);
            if !str_is(host.as_str(), "github.com") {
                return Err(joined("校验文件地址不是 github.com: ", host.as_str()));
            }
            Ok(copy_parts(u))
        },
    }
}

/// The URL of a checksum file: HTTPS on github.com.
pub fn validate_checksum_url(url: &str) -> (r: Result<UrlParts, String>)
    ensures
        parsed_view(r) == checksum_url_verdict(url_parse(url@)),
{
    let parsed = parse_url(url);
    check_checksum_url(&parsed)
}

/// Whether a string is a SHA-256 in hexadecimal (after trimming and
/// lower-casing): 64 hex digits.
pub open spec fn sha256_text_ok(v: Seq<char>) -> bool {
    v.len() == 64 && forall|i: int| 0 <= i < v.len() ==> is_hex_digit(#[trigger] v[i])
}

pub open spec fn expected_sha256_verdict(value: Seq<char>) -> Result<Seq<char>, Seq<char>> {
    let v = seq_ascii_lower(trim(value));
    if sha256_text_ok(v) {
        Ok(v)
    } else {
        Err("expected_sha256 必须是 64 位十六进制 SHA-256"@)
    }
}

fn lower_vec(v: &Vec<char>) -> (r: Vec<char>)
    ensures
        r@ == seq_ascii_lower(v@),
{
    let mut r: Vec<char> = Vec::new();
    let n = v.len();
    for i in 0..n
        invariant
            n == v@.len(),
            r@ == seq_ascii_lower(v@.subrange(0, i as int)),
    {
        r.push(to_ascii_lower(v[i]));
        assert(seq_ascii_lower(v@.subrange(0, i + 1)) =~= seq_ascii_lower(v@.subrange(0, i as int)).push(
            crate::text::ascii_lower(v@[i as int]),
        ));
    }
    assert(v@.subrange(0, n as int) =~= v@);
    r
}

/// The expected checksum of an update, normalised; an empty or malformed
/// value is refused.
pub fn validate_expected_sha256(value: &str) -> (r: Result<String, String>)
    ensures
        res_view(r) == expected_sha256_verdict(value@),
{
    let v = chars_of(value);
    let t = trim_vec(&v);
    let low = lower_vec(&t);
    if low.len() != 64 {
        return Err(owned("expected_sha256 必须是 64 位十六进制 SHA-256"));
    }
    let mut i: usize = 0;
    while i < low.len()
        invariant
            i <= low.len(),
            low@.len() == 64,
            low@ == seq_ascii_lower(trim(value@)),
            forall|j: int| 0 <= j < i ==> is_hex_digit(#[trigger] low@[j]),
        decreases low.len() - i,
    {
        let c = low[i];
        if !(('0' <= c && c <= '9') || ('a' <= c && c <= 'f') || ('A' <= c && c <= 'F')) {
            assert(!is_hex_digit(low@[i as int]));
            return Err(owned("expected_sha256 必须是 64 位十六进制 SHA-256"));
        }
        i += 1;
    }
    Ok(string_of(&low))
}

/// SHA-256 of a byte string.
pub uninterp spec fn sha256_of(data: Seq<u8>) -> Seq<u8>;

/// `sha2::Sha256::digest`: the 32-byte SHA-256 of `data`, named by `sha256_of`.
#[verifier::external_body]
fn sha256_digest(data: &[u8]) -> (r: Vec<u8>)
    ensures
        r@ == sha256_of(data@),
        r@.len() == 32,
{
    sha2::Sha256::digest(data).to_vec()
}

/// Lower-case hexadecimal text of bytes, two digits per byte.
pub open spec fn hex_lower(b: Seq<u8>) -> Seq<char>
    decreases b.len(),
{
    if b.len() == 0 {
        Seq::empty()
    } else {
        hex_lower(b.drop_last()) + seq![
            lower_hex_digit((b.last() / 16) as nat),
            lower_hex_digit((b.last() % 16) as nat),
        ]
    }
}

/// `hex::encode`: lower-case hexadecimal, two digits per byte.
#[verifier::external_body]
fn hex_encode(data: &[u8]) -> (r: String)
    ensures
        r@ == hex_lower(data@),
{
    hex::encode(data)
}

/// Hexadecimal SHA-256 of a byte string, as the update check compares it.
pub fn sha256_hex(data: &[u8]) -> (r: String)
    ensures
        r@ == hex_lower(sha256_of(data@)),
{
    let d = sha256_digest(data);
    hex_encode(d.as_slice())
}

pub open spec fn checksum_verdict(expected: Seq<char>, actual: Seq<char>) -> Result<(), Seq<char>> {
    if actual != expected {
        Err("更新包校验失败: expected "@ + expected + ", got "@ + actual)
    } else {
        Ok(())
    }
}

/// Compares the package's checksum with the expected one.
pub fn check_sha256(expected: &str, actual: &str) -> (r: Result<(), String>)
    ensures
        unit_res_view(r) == checksum_verdict(expected@, actual@),
{
    if !str_is(actual, expected) {
        let mut v = chars_of("更新包校验失败: expected ");
        let e = chars_of(expected);
        append_chars(&mut v, &e);
        let g = chars_of(", got ");
        append_chars(&mut v, &g);
        let a = chars_of(actual);
        append_chars(&mut v, &a);
        Err(string_of(&v))
    } else {
        Ok(())
    }
}

/// `prefix`, `a`, `middle`, `b` and `suffix` in a row, the numbers in decimal.
fn two_num_msg(prefix: &str, a: u64, middle: &str, b: u64, suffix: &str) -> (r: String)
    ensures
        r@ == prefix@ + dec(a as nat) + middle@ + dec(b as nat) + suffix@,
{
    let mut v = chars_of(prefix);
    push_dec(&mut v, a);
    let m = chars_of(middle);
    append_chars(&mut v, &m);
    push_dec(&mut v, b);
    let s = chars_of(suffix);
    append_chars(&mut v, &s);
    string_of(&v)
}

pub open spec fn too_large_declared_msg(len: u64) -> Seq<char> {
    "更新包过大: "@ + dec(len as nat) + " bytes (上限 "@ + dec(MAX_UPDATE_ZIP_BYTES as nat) + " bytes)"@
}

/// Refuses a download whose declared length is over the limit.
pub fn check_content_length(content_length: Option<u64>) -> (r: Result<(), String>)
    ensures
        match content_length {
            Some(n) => if n > MAX_UPDATE_ZIP_BYTES {
                r matches Err(e) && e@ == too_large_declared_msg(n)
            } else {
                r is Ok
            },
            None => r is Ok,
        },
{
    match content_length {
        Some(n) => {
            if n > MAX_UPDATE_ZIP_BYTES {
                return Err(two_num_msg("更新包过大: ", n, " bytes (上限 ", MAX_UPDATE_ZIP_BYTES, " bytes)"));
            }
            Ok(())
        },
        None => Ok(()),
    }
}

pub open spec fn too_large_downloaded_msg(downloaded: u64) -> Seq<char> {
    "更新包过大: 已下载 "@ + dec(downloaded as nat) + " bytes (上限 "@ + dec(MAX_UPDATE_ZIP_BYTES as nat)
        + " bytes)"@
}

/// Stops a download that has grown past the limit.
pub fn check_downloaded(downloaded: u64) -> (r: Result<(), String>)
    ensures
        downloaded > MAX_UPDATE_ZIP_BYTES ==> (r matches Err(e) && e@ == too_large_downloaded_msg(
            downloaded,
        )),
        downloaded <= MAX_UPDATE_ZIP_BYTES ==> r is Ok,
{
    if downloaded > MAX_UPDATE_ZIP_BYTES {
        return Err(
            two_num_msg("更新包过大: 已下载 ", downloaded, " bytes (上限 ", MAX_UPDATE_ZIP_BYTES, " bytes)"),
        );
    }
    Ok(())
}

/// What the size of a finished download says.
pub enum SizeCheck {
    /// Nothing was written: try again.
    Empty,
    /// The size differs from the declared length: give up with this message.
    Incomplete(String),
    /// The whole package arrived.
    Complete,
}

/// Error kept for the retry after an empty download.
pub open spec fn empty_download_msg() -> Seq<char> {
    "下载失败：更新包为空文件"@
}

pub fn empty_download_error() -> (r: String)
    ensures
        r@ == empty_download_msg(),
{
    owned("下载失败：更新包为空文件")
}

pub open spec fn incomplete_download_msg(size: u64, expected: u64) -> Seq<char> {
    "下载不完整: 大小 "@ + dec(size as nat) + " bytes, 期望 "@ + dec(expected as nat) + " bytes"@
}

/// Checks the size of a downloaded package against its declared length.
pub fn check_download_size(size: u64, content_length: Option<u64>) -> (r: SizeCheck)
    ensures
        size == 0 ==> r is Empty,
        size != 0 ==> match content_length {
            Some(n) => if size != n {
                r matches SizeCheck::Incomplete(m) && m@ == incomplete_download_msg(size, n)
            } else {
                r is Complete
            },
            None => r is Complete,
        },
{
    if size == 0 {
        return SizeCheck::Empty;
    }
    match content_length {
        Some(n) => {
            if size != n {
                SizeCheck::Incomplete(two_num_msg("下载不完整: 大小 ", size, " bytes, 期望 ", n, " bytes"))
            } else {
                SizeCheck::Complete
            }
        },
        None => SizeCheck::Complete,
    }
}

pub open spec fn download_failure_msg(last_err: Seq<char>) -> Seq<char> {
    if last_err.len() == 0 {
        "下载失败，请检查网络连接或手动从 GitHub Releases 下载"@
    } else {
        "下载失败："@ + last_err + "。请检查网络连接，或手动从 GitHub Releases 下载 ZIP。"@
    }
}

/// The error reported when every attempt failed.
pub fn download_failure_message(last_err: &str) -> (r: String)
    ensures
        r@ == download_failure_msg(last_err@),
{
    let e = chars_of(last_err);
    if e.len() == 0 {
        return owned("下载失败，请检查网络连接或手动从 GitHub Releases 下载");
    }
    let mut v = chars_of("下载失败：");
    append_chars(&mut v, &e);
    let t = chars_of("。请检查网络连接，或手动从 GitHub Releases 下载 ZIP。");
    append_chars(&mut v, &t);
    string_of(&v)
}

/// Progress message at the start of an attempt (attempts count from 1).
pub fn attempt_message(attempt: u32) -> (r: &'static str)
    ensures
        attempt == 1 ==> r@ == "正在下载更新包..."@,
        attempt != 1 ==> r@ == "正在重试下载更新包..."@,
{
    if attempt == 1 {
        "正在下载更新包..."
    } else {
        "正在重试下载更新包..."
    }
}

/// Attempts a download makes before giving up.
pub const DOWNLOAD_ATTEMPTS: u32 = 3;

/// The retry bookkeeping of a download: which attempt runs, and the error of
/// the last failed one that is worth retrying.
pub struct DownloadAttempts {
    pub attempt: u32,
    pub last_err: String,
}

impl DownloadAttempts {
    pub fn new() -> (d: DownloadAttempts)
        ensures
            d.attempt == 1,
            d.last_err@.len() == 0,
    {
        DownloadAttempts { attempt: 1, last_err: String::new() }
    }

    /// Whether another attempt may start.
    pub fn may_try(&self) -> (b: bool)
        ensures
            b == (self.attempt <= DOWNLOAD_ATTEMPTS),
    {
        self.attempt <= DOWNLOAD_ATTEMPTS
    }

    /// The message of the running attempt.
    pub fn message(&self) -> (r: &'static str)
        ensures
            self.attempt == 1 ==> r@ == "正在下载更新包..."@,
            self.attempt != 1 ==> r@ == "正在重试下载更新包..."@,
    {
        attempt_message(self.attempt)
    }

    /// The connection failed: remember why and move to the next attempt.
    pub fn connect_failed(&mut self, error: &str)
        requires
            old(self).attempt <= DOWNLOAD_ATTEMPTS,
        ensures
            final(self).attempt == old(self).attempt + 1,
            final(self).last_err@ == "连接 GitHub 失败: "@ + error@,
    {
        self.last_err = joined("连接 GitHub 失败: ", error);
        self.attempt = self.attempt + 1;
    }

    /// The server answered with an unsuccessful status (given as text).
    pub fn status_failed(&mut self, status: &str)
        requires
            old(self).attempt <= DOWNLOAD_ATTEMPTS,
        ensures
            final(self).attempt == old(self).attempt + 1,
            final(self).last_err@ == "GitHub 返回 HTTP "@ + status@,
    {
        self.last_err = joined("GitHub 返回 HTTP ", status);
        self.attempt = self.attempt + 1;
    }

    /// The download came out empty.
    pub fn came_out_empty(&mut self)
        requires
            old(self).attempt <= DOWNLOAD_ATTEMPTS,
        ensures
            final(self).attempt == old(self).attempt + 1,
            final(self).last_err@ == empty_download_msg(),
    {
        self.last_err = empty_download_error();
        self.attempt = self.attempt + 1;
    }

    /// The error once every attempt failed.
    pub fn failure(&self) -> (r: String)
        ensures
            r@ == download_failure_msg(self.last_err@),
    {
        download_failure_message(self.last_err.as_str())
    }
}

// ── Where an update package may live ─────────────────────────────

/// The parent directory of a package path, as the file system resolved it.
pub struct ResolvedParent {
    /// Whether it lies inside the system's temporary directory.
    pub in_temp: bool,
    /// Its last component (empty when it has none).
    pub name: String,
}

/// `\` turned into `/`, as paths are compared and searched.
pub open spec fn forward_slashes(s: Seq<char>) -> Seq<char> {
    Seq::new(s.len(), |i: int| if s[i] == '\\' { '/' } else { s[i] })
}

/// Path text with forward slashes (`\` replaced by `/`).
pub fn safe_name(path_text: &str) -> (r: String)
    ensures
        r@ == forward_slashes(path_text@),
{
    let v = chars_of(path_text);
    let mut r: Vec<char> = Vec::new();
    let n = v.len();
    for i in 0..n
        invariant
            n == v@.len(),
            r@.len() == i,
            forall|j: int| 0 <= j < i ==> r@[j] == (if v@[j] == '\\' { '/' } else { v@[j] }),
    {
        if v[i] == '\\' {
            r.push('/');
        } else {
            r.push(v[i]);
        }
    }
    assert(r@ =~= forward_slashes(path_text@));
    string_of(&r)
}

pub open spec fn contains(s: Seq<char>, pat: Seq<char>) -> bool {
    find(s, pat) is Some
}

/// Checks shared by both package locations once the parent is resolved.
pub open spec fn location_verdict(
    parent: ResolvedParent,
    extension: Option<Seq<char>>,
) -> Result<(), Seq<char>> {
    if !parent.in_temp {
        Err("更新包必须在临时目录下"@)
    } else if !starts_with(parent.name@, "mhw-radar-update-"@) {
        Err("更新包父目录名必须以 mhw-radar-update- 开头"@)
    } else if extension != Some("zip"@) {
        Err("更新包必须为 .zip 文件"@)
    } else {
        Ok(())
    }
}

fn check_location(parent: &ResolvedParent, extension: Option<&str>) -> (r: Result<(), String>)
    ensures
        unit_res_view(r) == location_verdict(
            *parent,
            match extension {
                Some(e) => Some(e@),
                None => None,
            },
        ),
{
    if !parent.in_temp {
        return Err(owned("更新包必须在临时目录下"));
    }
    let name = chars_of(parent.name.as_str());
    let prefix = chars_of("mhw-radar-update-");
    if !starts_with_vec(&name, &prefix) {
        return Err(owned("更新包父目录名必须以 mhw-radar-update- 开头"));
    }
    match extension {
        Some(e) => {
            if !str_is(e, "zip") {
                return Err(owned("更新包必须为 .zip 文件"));
            }
        },
        None => {
            return Err(owned("更新包必须为 .zip 文件"));
        },
    }
    Ok(())
}

fn has_dotdot(path_text: &str) -> (b: bool)
    ensures
        b == contains(forward_slashes(path_text@), ".."@),
{
    let s = safe_name(path_text);
    let v = chars_of(s.as_str());
    let d = chars_of("..");
    crate::text::find_vec(&v, &d).is_some()
}

pub open spec fn opt_ext(extension: Option<&str>) -> Option<Seq<char>> {
    match extension {
        Some(e) => Some(e@),
        None => None,
    }
}

pub open spec fn update_dest_verdict(
    parent: Option<Result<ResolvedParent, String>>,
    extension: Option<Seq<char>>,
    path_text: Seq<char>,
) -> Result<(), Seq<char>> {
    match parent {
        None => Err("更新包目标路径无父目录"@),
        Some(Err(shown)) => Err("更新包目标父目录不存在: "@ + shown@),
        Some(Ok(p)) => match location_verdict(p, extension) {
            Err(e) => Err(e),
            Ok(()) => if contains(forward_slashes(path_text), ".."@) {
                Err("更新包路径不允许 .."@)
            } else {
                Ok(())
            },
        },
    }
}

/// Where a package may be downloaded to: a `.zip` in a
/// `mhw-radar-update-*` directory inside the temporary directory, with no
/// `..` in its path. `parent` is `None` when the path has no parent, and
/// holds the parent's displayed path when it could not be resolved.
pub fn check_update_dest(
    parent: &Option<Result<ResolvedParent, String>>,
    extension: Option<&str>,
    path_text: &str,
) -> (r: Result<(), String>)
    ensures
        unit_res_view(r) == update_dest_verdict(*parent, opt_ext(extension), path_text@),
{
    match parent {
        None => Err(owned("更新包目标路径无父目录")),
        Some(Err(shown)) => Err(joined("更新包目标父目录不存在: ", shown.as_str())),
        Some(Ok(p)) => {
            match check_location(p, extension) {
                Err(e) => Err(e),
                Ok(()) => {
                    if has_dotdot(path_text) {
                        Err(owned("更新包路径不允许 .."))
                    } else {
                        Ok(())
                    }
                },
            }
        },
    }
}

pub open spec fn update_zip_verdict(
    parent: Option<Result<ResolvedParent, String>>,
    extension: Option<Seq<char>>,
    is_file: bool,
    shown: Seq<char>,
    path_text: Seq<char>,
) -> Result<(), Seq<char>> {
    match parent {
        None => Err("更新包路径无父目录"@),
        Some(Err(p)) => Err("更新包父目录不存在: "@ + p@),
        Some(Ok(p)) => match location_verdict(p, extension) {
            Err(e) => Err(e),
            Ok(()) => if !is_file {
                Err("更新包文件不存在: "@ + shown)
            } else if contains(forward_slashes(path_text), ".."@) {
                Err("更新包路径不允许 .."@)
            } else {
                Ok(())
            },
        },
    }
}

/// Where the package handed to the updater may be: as for a download, and it
/// must be an existing file (`shown` is its displayed path).
pub fn check_update_zip_path(
    parent: &Option<Result<ResolvedParent, String>>,
    extension: Option<&str>,
    is_file: bool,
    shown: &str,
    path_text: &str,
) -> (r: Result<(), String>)
    ensures
        unit_res_view(r) == update_zip_verdict(*parent, opt_ext(extension), is_file, shown@, path_text@),
{
    match parent {
        None => Err(owned("更新包路径无父目录")),
        Some(Err(p)) => Err(joined("更新包父目录不存在: ", p.as_str())),
        Some(Ok(p)) => {
            match check_location(p, extension) {
                Err(e) => Err(e),
                Ok(()) => {
                    if !is_file {
                        Err(joined("更新包文件不存在: ", shown))
                    } else if has_dotdot(path_text) {
                        Err(owned("更新包路径不允许 .."))
                    } else {
                        Ok(())
                    }
                },
            }
        },
    }
}

// ── Handing over to the updater ──────────────────────────────────

/// Unicode lower-case mapping of a string (`str::to_lowercase`).
pub uninterp spec fn str_lower(s: Seq<char>) -> Seq<char>;

/// `str::to_lowercase` (full Unicode case mapping), named by `str_lower`.
#[verifier::external_body]
fn to_lowercase(s: &str) -> (r: String)
    ensures
        r@ == str_lower(s@),
{
    s.to_lowercase()
}

/// `s` without its trailing `/` characters.
pub open spec fn trim_end_slashes(s: Seq<char>) -> Seq<char>
    decreases s.len(),
{
    if s.len() > 0 && s.last() == '/' {
        trim_end_slashes(s.drop_last())
    } else {
        s
    }
}

/// How a resolved path is compared: forward slashes, no trailing `/`,
/// lower case.
pub open spec fn comparable_path(path_text: Seq<char>) -> Seq<char> {
    str_lower(trim_end_slashes(forward_slashes(path_text)))
}

pub fn comparable_path_text(path_text: &str) -> (r: String)
    ensures
        r@ == comparable_path(path_text@),
{
    let s = safe_name(path_text);
    let v = chars_of(s.as_str());
    let mut k: usize = v.len();
    assert(v@.subrange(0, k as int) =~= v@);
    while k > 0 && v[k - 1] == '/'
        invariant
            k <= v.len(),
            trim_end_slashes(v@) == trim_end_slashes(v@.subrange(0, k as int)),
        decreases k,
    {
        assert(v@.subrange(0, k as int).drop_last() =~= v@.subrange(0, k - 1));
        k -= 1;
    }
    let t = crate::text::slice_vec(&v, 0, k);
    let ts = string_of(&t);
    to_lowercase(ts.as_str())
}

/// The directory the panel was asked to update must be its own (both given
/// as resolved path text).
pub fn check_app_dir(requested: &str, actual: &str) -> (r: Result<(), String>)
    ensures
        comparable_path(requested@) != comparable_path(actual@) ==> (r matches Err(e) && e@
            == "app_dir 与当前程序目录不一致"@),
        comparable_path(requested@) == comparable_path(actual@) ==> r is Ok,
{
    let a = comparable_path_text(requested);
    let b = comparable_path_text(actual);
    if !str_is(a.as_str(), b.as_str()) {
        return Err(owned("app_dir 与当前程序目录不一致"));
    }
    Ok(())
}

/// Both programs an update relaunches must be present.
pub fn check_installed(
    app_exe_is_file: bool,
    app_exe: &str,
    updater_is_file: bool,
    updater: &str,
) -> (r: Result<(), String>)
    ensures
        !app_exe_is_file ==> (r matches Err(e) && e@ == "未找到主程序: "@ + app_exe@),
        app_exe_is_file && !updater_is_file ==> (r matches Err(e) && e@ == "未找到更新器: "@
            + updater@),
        app_exe_is_file && updater_is_file ==> r is Ok,
{
    if !app_exe_is_file {
        return Err(joined("未找到主程序: ", app_exe));
    }
    if !updater_is_file {
        return Err(joined("未找到更新器: ", updater));
    }
    Ok(())
}

/// Name of the temporary directory the updater is copied to and run from.
pub open spec fn updater_run_dir_spec(pid: u32, millis: u64) -> Seq<char> {
    "mhw-radar-updater-run-"@ + dec(pid as nat) + seq!['-'] + dec(millis as nat)
}

pub fn updater_run_dir_name(pid: u32, millis: u64) -> (r: String)
    ensures
        r@ == updater_run_dir_spec(pid, millis),
{
    let mut v = chars_of("mhw-radar-updater-run-");
    push_dec(&mut v, pid as u64);
    v.push('-');
    push_dec(&mut v, millis);
    string_of(&v)
}

/// Whether a temporary directory is left over from an earlier updater run.
pub fn is_updater_run_dir(name: &str) -> (b: bool)
    ensures
        b == starts_with(name@, "mhw-radar-updater-run-"@),
{
    let v = chars_of(name);
    let p = chars_of("mhw-radar-updater-run-");
    starts_with_vec(&v, &p)
}

pub open spec fn updater_args_spec(
    app_dir: Seq<char>,
    zip: Seq<char>,
    parent_pid: u32,
    restart: Seq<char>,
    run_dir: Seq<char>,
) -> Seq<Seq<char>> {
    seq![
        "--app-dir"@,
        app_dir,
        "--zip"@,
        zip,
        "--parent-pid"@,
        dec(parent_pid as nat),
        "--restart"@,
        restart,
        "--self-temp-dir"@,
        run_dir,
    ]
}

/// Command line the panel starts the updater with.
pub fn updater_args(app_dir: &str, zip: &str, parent_pid: u32, restart: &str, run_dir: &str) -> (r: Vec<
    String,
>)
    ensures
        r@.map_values(|s: String| s@) == updater_args_spec(app_dir@, zip@, parent_pid, restart@, run_dir@),
{
    let mut r: Vec<String> = Vec::new();
    r.push(owned("--app-dir"));
    r.push(owned(app_dir));
    r.push(owned("--zip"));
    r.push(owned(zip));
    r.push(owned("--parent-pid"));
    let mut p: Vec<char> = Vec::new();
    push_dec(&mut p, parent_pid as u64);
    assert(p@ =~= dec(parent_pid as nat));
    r.push(string_of(&p));
    r.push(owned("--restart"));
    r.push(owned(restart));
    r.push(owned("--self-temp-dir"));
    r.push(owned(run_dir));
    assert(r@.map_values(|s: String| s@) =~= updater_args_spec(app_dir@, zip@, parent_pid, restart@, run_dir@));
    r
}

// ── UTF-16 for the Windows API ───────────────────────────────────

/// UTF-16 code units of one character.
pub open spec fn utf16_of(c: char) -> Seq<u16> {
    let u = c as u32;
    if u < 0x10000 {
        seq![u as u16]
    } else {
        let w = (u - 0x10000) as u32;
        seq![(0xD800 + w / 0x400) as u16, (0xDC00 + w % 0x400) as u16]
    }
}

pub open spec fn utf16(s: Seq<char>) -> Seq<u16>
    decreases s.len(),
{
    if s.len() == 0 {
        Seq::empty()
    } else {
        utf16(s.drop_last()) + utf16_of(s.last())
    }
}

/// UTF-16 of `value` followed by a 0 unit, as wide Windows API calls take it.
pub fn wide_null(value: &str) -> (r: Vec<u16>)
    ensures
        r@ == utf16(value@).push(0u16),
{
    let v = chars_of(value);
    let mut r: Vec<u16> = Vec::new();
    let n = v.len();
    for i in 0..n
        invariant
            n == v@.len(),
            r@ == utf16(v@.subrange(0, i as int)),
    {
        let c = v[i];
        let u = c as u32;
        if u < 0x10000 {
            r.push(u as u16);
        } else {
            let w = u - 0x10000;
            r.push((0xD800 + w / 0x400) as u16);
            r.push((0xDC00 + w % 0x400) as u16);
        }
        assert(v@.subrange(0, i + 1).drop_last() =~= v@.subrange(0, i as int));
    }
    assert(v@.subrange(0, n as int) =~= v@);
    r.push(0);
    r
}

// ── Laws ─────────────────────────────────────────────────────────

/// Every URL accepted as the first download URL of an update also passes
/// the redirect check: the download may start on it without a redirect.
pub proof fn law_initial_url_passes_redirect_check(
    parsed: Result<UrlView, Seq<char>>,
    expected_asset: Option<Seq<char>>,
)
    requires
        initial_update_verdict(parsed, expected_asset) is Ok,
    ensures
        redirect_verdict(initial_update_verdict(parsed, expected_asset)->Ok_0) is Ok,
{
}

/// A normalised checksum is accepted again unchanged: checking is idempotent.
pub proof fn law_expected_sha256_idempotent(value: Seq<char>)
    requires
        expected_sha256_verdict(value) is Ok,
    ensures
        expected_sha256_verdict(expected_sha256_verdict(value)->Ok_0) == expected_sha256_verdict(value),
{
    let w = expected_sha256_verdict(value)->Ok_0;
    assert(is_hex_digit(w[0]));
    assert(is_hex_digit(w[w.len() - 1]));
    assert(trim_start(w) == w);
    assert(trim_end(w) == w);
    assert(trim(w) == w);
    assert forall|i: int| 0 <= i < w.len() implies #[trigger] seq_ascii_lower(w)[i] == w[i] by {
        assert(w[i] == crate::text::ascii_lower(trim(value)[i]));
    }
    assert(seq_ascii_lower(w) =~= w);
}

/// The link handed to the browser always names an `http(s)` scheme: a bare
/// host gets `https://`.
pub proof fn law_normalized_link_has_scheme(url: Seq<char>)
    ensures
        starts_with(normalized_url_text(url), "https://"@) || starts_with(
            normalized_url_text(url),
            "http://"@,
        ),
{
    let t = trim(url);
    if !(starts_with(t, "https://"@) || starts_with(t, "http://"@)) {
        let n = "https://"@ + skip_slashes(t);
        assert(n.subrange(0, "https://"@.len() as int) =~= "https://"@);
    }
}

// ── Law of the external link hosts ─────────────────────────────────

/// Only four hosts are opened: a parsed `https` link is handed to the browser,
/// unchanged from its normalised text, exactly when its host is `github.com`,
/// `www.github.com`, `mhdatalab.com` or `www.mhdatalab.com`; any other host
/// (or none) is refused with a message that names it.
pub proof fn law_external_link_hosts(normalized: Seq<char>, host: Option<Seq<char>>, path: Seq<char>, href: Seq<char>)
    ensures
        ({
            let h = match host {
                Some(h) => h,
                None => Seq::empty(),
            };
            let allowed = h == "github.com"@ || h == "www.github.com"@ || h == "mhdatalab.com"@ || h
                == "www.mhdatalab.com"@;
            let v = external_url_verdict(normalized, Ok(("https"@, host, path, href)));
            &&& allowed ==> v == Ok::<Seq<char>, Seq<char>>(normalized)
            &&& !allowed ==> v == Err::<Seq<char>, Seq<char>>("不允许打开该外部链接: "@ + h)
        }),
{
}

} // verus!
