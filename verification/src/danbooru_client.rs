//! Rules of the Danbooru client: error classification, download filename
//! templates, media extensions and MIME types, `Content-Range` checks and
//! the configuration's redacted debug text.  The HTTP transport and the
//! file writes run around these rules.
use std::path::PathBuf;
use std::time::Duration;
use url::Url;
use vstd::prelude::*;

use crate::text::{
    append_chars, ascii_lower, ascii_upper, chars_equal, chars_equal_str, chars_of, contains_run,
    contains_run_exec, decimal, find_char_from, first_index_of, i64_to_chars, join_with,
    lemma_first_index_of, lemma_split_when_nonempty, leading_count, leading_in, lower_ascii_chars,
    one_of, owned, parse_u64, parse_u64_spec, replace_all, replace_chars, signed_decimal,
    slice_chars, split_on, split_when, starts_with, starts_with_at, string_from_chars, trailing_count,
    trailing_in, trim_bounds, trim_spec, u64_to_chars, upper_ascii_chars,
};

verus! {

/// The public Danbooru instance.
pub const DEFAULT_BASE_URL: &'static str = "https://danbooru.donmai.us";

/// Requests per second allowed by default.
pub const DEFAULT_REQUESTS_PER_SECOND: u32 = 8;

/// Largest page size the API accepts.
pub const MAX_POSTS_PER_PAGE: u16 = 200;

/// Largest media file that is downloaded (16 GiB).
pub const MAX_MEDIA_DOWNLOAD_BYTES: u64 = 17179869184;

/// Filename template used when none is configured.
pub const DEFAULT_FILENAME_TEMPLATE: &'static str = "{id}_score_{score}.{ext}";

/// What went wrong, as the callers tell errors apart.
#[derive(Debug, Clone, Copy, PartialEq, Eq, Structural)]
pub enum DanbooruErrorKind {
    InvalidRequest,
    InvalidQuery,
    InvalidCredentials,
    Forbidden,
    NotFound,
    PageLimit,
    TagLimit,
    RateLimited,
    UpstreamUnavailable,
    Network,
    InvalidResponse,
    UnsafeMediaUrl,
    UnsupportedMedia,
    InvalidTemplate,
    Integrity,
    Io,
}

/// An error of the Danbooru client.
#[derive(Debug, Clone, PartialEq, Eq)]
pub struct DanbooruError {
    pub kind: DanbooruErrorKind,
    pub message: String,
    pub retryable: bool,
    pub status: Option<u16>,
    pub retry_after: Option<Duration>,
}

/// `e` is an error of `kind` with `message`, no HTTP status and no delay.
pub open spec fn error_is(
    e: DanbooruError,
    kind: DanbooruErrorKind,
    message: Seq<char>,
    retryable: bool,
) -> bool {
    &&& e.kind == kind
    &&& e.message@ == message
    &&& e.retryable == retryable
    &&& e.status is None
    &&& e.retry_after is None
}

/// A result that either carries `Ok(v)` with `v@ == text` where the spec
/// gives `Ok(text)`, or an error of the kind and message the spec gives.
pub open spec fn text_outcome(
    result: Result<String, DanbooruError>,
    expected: Result<Seq<char>, (DanbooruErrorKind, Seq<char>)>,
) -> bool {
    match (result, expected) {
        (Ok(v), Ok(text)) => v@ == text,
        (Err(e), Err((kind, message))) => error_is(e, kind, message, false),
        _ => false,
    }
}

/// A unit result that agrees with a spec giving the error message of the
/// first failed rule, if any.
pub open spec fn check_outcome(
    result: Result<(), DanbooruError>,
    kind: DanbooruErrorKind,
    problem: Option<Seq<char>>,
) -> bool {
    match (result, problem) {
        (Ok(()), None) => true,
        (Err(e), Some(message)) => error_is(e, kind, message, false),
        _ => false,
    }
}

impl DanbooruError {
    /// An error without HTTP status or retry delay.
    pub fn new(kind: DanbooruErrorKind, message: String, retryable: bool) -> (error: DanbooruError)
        ensures
            error_is(error, kind, message@, retryable),
    {
        DanbooruError { kind, message, retryable, status: None, retry_after: None }
    }

    /// The same error, tagged with the HTTP status that caused it.
    pub fn with_status(self, status: u16) -> (error: DanbooruError)
        ensures
            error == (DanbooruError { status: Some(status), ..self }),
    {
        DanbooruError { status: Some(status), ..self }
    }

    /// The same error, carrying the delay the server asked for.
    pub fn with_retry_after(self, retry_after: Option<Duration>) -> (error: DanbooruError)
        ensures
            error == (DanbooruError { retry_after, ..self }),
    {
        DanbooruError { retry_after, ..self }
    }
}

fn plain_error(kind: DanbooruErrorKind, message: &str, retryable: bool) -> (error: DanbooruError)
    ensures
        error_is(error, kind, message@, retryable),
{
    DanbooruError::new(kind, owned(message), retryable)
}

fn error_with_detail(kind: DanbooruErrorKind, prefix: &str, detail: &Vec<char>, retryable: bool) -> (error: DanbooruError)
    ensures
        error_is(error, kind, prefix@ + detail@, retryable),
{
    let mut text = chars_of(prefix);
    append_chars(&mut text, detail);
    DanbooruError::new(kind, string_from_chars(&text), retryable)
}

/// The error for a failed file operation: `context: detail`, where `detail`
/// is the operating system's description; it may be retried only when the
/// operation was interrupted.
pub fn io_error(context: &str, detail: &str, interrupted: bool) -> (error: DanbooruError)
    ensures
        error_is(error, DanbooruErrorKind::Io, context@ + ": "@ + detail@, interrupted),
{
    let mut text = chars_of(context);
    append_chars(&mut text, &chars_of(": "));
    append_chars(&mut text, &chars_of(detail));
    DanbooruError::new(DanbooruErrorKind::Io, string_from_chars(&text), interrupted)
}

/// The error for a request that failed in transport; `detail` describes the
/// failure.  Such a request may be retried.
pub fn network_error(detail: &str) -> (error: DanbooruError)
    ensures
        error_is(error, DanbooruErrorKind::Network, "Danbooru 网络请求失败: "@ + detail@, true),
{
    error_with_detail(DanbooruErrorKind::Network, "Danbooru 网络请求失败: ", &chars_of(detail), true)
}

// ---------------------------------------------------------------------
// Requests
// ---------------------------------------------------------------------

/// The text of a list of query parameters.
pub open spec fn param_views(params: Seq<(String, String)>) -> Seq<(Seq<char>, Seq<char>)> {
    params.map_values(|p: (String, String)| (p.0@, p.1@))
}

fn param(name: &str, value: String) -> (pair: (String, String))
    ensures
        pair.0@ == name@,
        pair.1@ == value@,
{
    (owned(name), value)
}

/// Checks the request rate: 1 to 1000 requests per second.
pub fn check_requests_per_second(requests_per_second: u32) -> (result: Result<(), DanbooruError>)
    ensures
        match result {
            Ok(()) => 1 <= requests_per_second <= 1000,
            Err(e) => !(1 <= requests_per_second <= 1000) && error_is(
                e,
                DanbooruErrorKind::InvalidRequest,
                "requests_per_second 必须在 1..=1000 之间"@,
                false,
            ),
        },
{
    if requests_per_second == 0 || requests_per_second > 1000 {
        return Err(plain_error(DanbooruErrorKind::InvalidRequest, "requests_per_second 必须在 1..=1000 之间", false));
    }
    Ok(())
}

/// The proxy to use: the configured one, unless it is blank.
pub fn configured_proxy(proxy_url: Option<&str>) -> (proxy: Option<&str>)
    ensures
        proxy == (match proxy_url {
            Some(url) => if trim_spec(url@).len() > 0 {
                Some(url)
            } else {
                None
            },
            None => None,
        }),
{
    match proxy_url {
        Some(url) => {
            let chars = chars_of(url);
            let (start, end) = trim_bounds(&chars, 0, chars.len());
            assert(chars@.subrange(0, chars@.len() as int) =~= chars@);
            if start == end {
                None
            } else {
                Some(url)
            }
        },
        None => None,
    }
}

/// The error for a proxy setting the HTTP client refuses.
pub fn proxy_error(detail: &str) -> (error: DanbooruError)
    ensures
        error_is(error, DanbooruErrorKind::InvalidRequest, "代理配置无效: "@ + detail@, false),
{
    error_with_detail(DanbooruErrorKind::InvalidRequest, "代理配置无效: ", &chars_of(detail), false)
}

/// The error for an HTTP client that could not be set up.
pub fn client_build_error(detail: &str) -> (error: DanbooruError)
    ensures
        error_is(error, DanbooruErrorKind::InvalidRequest, "HTTP 客户端初始化失败: "@ + detail@, false),
{
    error_with_detail(DanbooruErrorKind::InvalidRequest, "HTTP 客户端初始化失败: ", &chars_of(detail), false)
}

/// The query of a `/posts.json` page: a limit of 1 to 200 posts and a page
/// token of 1 to 64 bytes, sent as `tags`, `page` and `limit`.
pub fn posts_request(query: &PostQuery) -> (result: Result<Vec<(String, String)>, DanbooruError>)
    ensures
        match result {
            Ok(params) => 1 <= query.limit <= MAX_POSTS_PER_PAGE && 0 < utf8_len(query.page@) <= 64
                && param_views(params@) == seq![
                    ("tags"@, query.tags@),
                    ("page"@, query.page@),
                    ("limit"@, decimal(query.limit as nat)),
                ],
            Err(e) => if !(1 <= query.limit <= MAX_POSTS_PER_PAGE) {
                error_is(e, DanbooruErrorKind::InvalidRequest, "limit 必须在 1..=200 之间"@, false)
            } else {
                !(0 < utf8_len(query.page@) <= 64) && error_is(
                    e,
                    DanbooruErrorKind::InvalidRequest,
                    "page 参数无效"@,
                    false,
                )
            },
        },
{
    if query.limit == 0 || query.limit > MAX_POSTS_PER_PAGE {
        return Err(plain_error(DanbooruErrorKind::InvalidRequest, "limit 必须在 1..=200 之间", false));
    }
    let page = chars_of(query.page.as_str());
    proof {
        lemma_utf8_len_positive(page@);
    }
    if page.len() == 0 || utf8_len_exceeds(&page, 64) {
        return Err(plain_error(DanbooruErrorKind::InvalidRequest, "page 参数无效", false));
    }
    let mut params: Vec<(String, String)> = Vec::new();
    params.push(param("tags", crate::text::copy_string(&query.tags)));
    params.push(param("page", crate::text::copy_string(&query.page)));
    params.push(param("limit", string_from_chars(&u64_to_chars(query.limit as u64))));
    assert(param_views(params@) =~= seq![
        ("tags"@, query.tags@),
        ("page"@, query.page@),
        ("limit"@, decimal(query.limit as nat)),
    ]);
    Ok(params)
}

/// A string has a positive UTF-8 length exactly when it is not empty.
proof fn lemma_utf8_len_positive(s: Seq<char>)
    ensures
        (utf8_len(s) > 0) == (s.len() > 0),
    decreases s.len(),
{
    if s.len() > 0 {
        lemma_utf8_len_positive(s.drop_last());
    }
}

/// The API path of one post; post ids start at 1.
pub fn post_path(id: u64) -> (result: Result<String, DanbooruError>)
    ensures
        match result {
            Ok(path) => id > 0 && path@ == "posts/"@ + decimal(id as nat) + ".json"@,
            Err(e) => id == 0 && error_is(e, DanbooruErrorKind::InvalidRequest, "post id 必须大于 0"@, false),
        },
{
    if id == 0 {
        return Err(plain_error(DanbooruErrorKind::InvalidRequest, "post id 必须大于 0", false));
    }
    let mut text = chars_of("posts/");
    append_chars(&mut text, &u64_to_chars(id));
    append_chars(&mut text, &chars_of(".json"));
    Ok(string_from_chars(&text))
}

/// The query of a tag autocompletion: a non-blank query of at most 256
/// bytes and a limit of 1 to 20.
pub fn autocomplete_request(query: &str, limit: u16) -> (result: Result<Vec<(String, String)>, DanbooruError>)
    ensures
        match result {
            Ok(params) => trim_spec(query@).len() > 0 && utf8_len(query@) <= 256 && 1 <= limit <= 20
                && param_views(params@) == seq![
                    ("search[query]"@, query@),
                    ("search[type]"@, "tag_query"@),
                    ("limit"@, decimal(limit as nat)),
                ],
            Err(e) => !(trim_spec(query@).len() > 0 && utf8_len(query@) <= 256 && 1 <= limit <= 20)
                && error_is(e, DanbooruErrorKind::InvalidRequest, "自动补全参数无效"@, false),
        },
{
    let chars = chars_of(query);
    let (start, end) = trim_bounds(&chars, 0, chars.len());
    assert(chars@.subrange(0, chars@.len() as int) =~= chars@);
    if start == end || utf8_len_exceeds(&chars, 256) || limit == 0 || limit > 20 {
        return Err(plain_error(DanbooruErrorKind::InvalidRequest, "自动补全参数无效", false));
    }
    let mut params: Vec<(String, String)> = Vec::new();
    params.push(param("search[query]", owned(query)));
    params.push(param("search[type]", owned("tag_query")));
    params.push(param("limit", string_from_chars(&u64_to_chars(limit as u64))));
    assert(param_views(params@) =~= seq![
        ("search[query]"@, query@),
        ("search[type]"@, "tag_query"@),
        ("limit"@, decimal(limit as nat)),
    ]);
    Ok(params)
}

/// The query of a tag category lookup: the trimmed name, 1 to 256 bytes,
/// and a limit of one result.
pub fn tag_category_request(tag: &str) -> (result: Result<Vec<(String, String)>, DanbooruError>)
    ensures
        match result {
            Ok(params) => 0 < utf8_len(trim_spec(tag@)) <= 256 && param_views(params@) == seq![
                ("search[name]"@, trim_spec(tag@)),
                ("limit"@, "1"@),
            ],
            Err(e) => !(0 < utf8_len(trim_spec(tag@)) <= 256) && error_is(
                e,
                DanbooruErrorKind::InvalidRequest,
                "标签名称长度必须在 1..=256 字节之间"@,
                false,
            ),
        },
{
    let chars = chars_of(tag);
    let (start, end) = trim_bounds(&chars, 0, chars.len());
    assert(chars@.subrange(0, chars@.len() as int) =~= chars@);
    let trimmed = slice_chars(&chars, start, end);
    proof {
        lemma_utf8_len_positive(trimmed@);
    }
    if trimmed.len() == 0 || utf8_len_exceeds(&trimmed, 256) {
        return Err(plain_error(DanbooruErrorKind::InvalidRequest, "标签名称长度必须在 1..=256 字节之间", false));
    }
    let mut params: Vec<(String, String)> = Vec::new();
    params.push(param("search[name]", string_from_chars(&trimmed)));
    params.push(param("limit", owned("1")));
    assert(param_views(params@) =~= seq![("search[name]"@, trim_spec(tag@)), ("limit"@, "1"@)]);
    Ok(params)
}

/// The post count of a `/counts/posts.json` answer: `counts.posts`, else
/// a top-level `count`.
pub fn post_count(counts_posts: Option<u64>, count: Option<u64>) -> (result: Result<u64, DanbooruError>)
    ensures
        match (counts_posts, count) {
            (Some(n), _) => result == Ok::<u64, DanbooruError>(n),
            (None, Some(n)) => result == Ok::<u64, DanbooruError>(n),
            (None, None) => result matches Err(e) && error_is(
                e,
                DanbooruErrorKind::InvalidResponse,
                "Danbooru 计数响应缺少 counts.posts"@,
                false,
            ),
        },
{
    match (counts_posts, count) {
        (Some(n), _) => Ok(n),
        (None, Some(n)) => Ok(n),
        (None, None) => Err(plain_error(DanbooruErrorKind::InvalidResponse, "Danbooru 计数响应缺少 counts.posts", false)),
    }
}

// ---------------------------------------------------------------------
// HTTP status classification
// ---------------------------------------------------------------------

/// Kind, message and retryability of the error an HTTP status maps to.
pub open spec fn status_error(status: u16) -> (DanbooruErrorKind, Seq<char>, bool) {
    if status == 400 || status == 424 {
        (DanbooruErrorKind::InvalidQuery, "Danbooru 查询语法无效"@, false)
    } else if status == 401 {
        (DanbooruErrorKind::InvalidCredentials, "Danbooru 凭据无效"@, false)
    } else if status == 403 {
        (DanbooruErrorKind::Forbidden, "没有权限访问该 Danbooru 资源"@, false)
    } else if status == 404 {
        (DanbooruErrorKind::NotFound, "Danbooru 资源不存在"@, false)
    } else if status == 410 {
        (DanbooruErrorKind::PageLimit, "Danbooru 页码超出账户权限"@, false)
    } else if status == 422 {
        (DanbooruErrorKind::TagLimit, "查询标签数量超出账户权限"@, false)
    } else if status == 429 {
        (DanbooruErrorKind::RateLimited, "Danbooru 请求速率受限"@, true)
    } else if 502 <= status <= 504 {
        (DanbooruErrorKind::UpstreamUnavailable, "Danbooru 服务暂时不可用"@, true)
    } else if 500 <= status <= 599 {
        (DanbooruErrorKind::UpstreamUnavailable, "Danbooru 服务返回服务器错误"@, true)
    } else {
        (DanbooruErrorKind::InvalidResponse, "Danbooru 返回未预期的 HTTP 状态"@, false)
    }
}

/// The error for an unsuccessful HTTP status, with the status and the
/// server's retry delay attached.
pub fn map_status(status: u16, retry_after: Option<Duration>) -> (error: DanbooruError)
    ensures
        error.kind == status_error(status).0,
        error.message@ == status_error(status).1,
        error.retryable == status_error(status).2,
        error.status == Some(status),
        error.retry_after == retry_after,
{
    let base = if status == 400 || status == 424 {
        plain_error(DanbooruErrorKind::InvalidQuery, "Danbooru 查询语法无效", false)
    } else if status == 401 {
        plain_error(DanbooruErrorKind::InvalidCredentials, "Danbooru 凭据无效", false)
    } else if status == 403 {
        plain_error(DanbooruErrorKind::Forbidden, "没有权限访问该 Danbooru 资源", false)
    } else if status == 404 {
        plain_error(DanbooruErrorKind::NotFound, "Danbooru 资源不存在", false)
    } else if status == 410 {
        plain_error(DanbooruErrorKind::PageLimit, "Danbooru 页码超出账户权限", false)
    } else if status == 422 {
        plain_error(DanbooruErrorKind::TagLimit, "查询标签数量超出账户权限", false)
    } else if status == 429 {
        plain_error(DanbooruErrorKind::RateLimited, "Danbooru 请求速率受限", true)
    } else if 502 <= status && status <= 504 {
        plain_error(DanbooruErrorKind::UpstreamUnavailable, "Danbooru 服务暂时不可用", true)
    } else if 500 <= status && status <= 599 {
        plain_error(DanbooruErrorKind::UpstreamUnavailable, "Danbooru 服务返回服务器错误", true)
    } else {
        plain_error(DanbooruErrorKind::InvalidResponse, "Danbooru 返回未预期的 HTTP 状态", false)
    };
    base.with_status(status).with_retry_after(retry_after)
}

// ---------------------------------------------------------------------
// Media extensions
// ---------------------------------------------------------------------

/// Extensions of the media formats that are downloaded.
pub open spec fn is_supported_media_extension(e: Seq<char>) -> bool {
    ||| e == "jpg"@
    ||| e == "png"@
    ||| e == "webp"@
    ||| e == "gif"@
    ||| e == "avif"@
    ||| e == "mp4"@
    ||| e == "webm"@
}

/// Extensions of still images.
pub open spec fn is_static_image_extension_spec(e: Seq<char>) -> bool {
    ||| e == "jpg"@
    ||| e == "png"@
    ||| e == "webp"@
    ||| e == "gif"@
    ||| e == "avif"@
}

/// An extension with its leading dots removed, lower-cased, `jpeg` read as
/// `jpg`.
pub open spec fn extension_text(e: Seq<char>) -> Seq<char> {
    let lowered = ascii_lower(e.subrange(leading_count(e, one_of(seq!['.'])) as int, e.len() as int));
    if lowered == "jpeg"@ {
        "jpg"@
    } else {
        lowered
    }
}

/// The normalised extension, or the message of the error that rejects it.
pub open spec fn extension_result(e: Seq<char>) -> Result<Seq<char>, Seq<char>> {
    let text = extension_text(e);
    if text == "swf"@ {
        Err("SWF 不会被下载或执行"@)
    } else if !is_supported_media_extension(text) && text != "zip"@ {
        Err("不支持的媒体格式: "@ + text)
    } else {
        Ok(text)
    }
}

/// The characters of an optional string, empty when absent.
pub open spec fn optional_text(value: Option<&str>) -> Seq<char> {
    match value {
        Some(text) => text@,
        None => Seq::empty(),
    }
}

/// Whether `e` is the extension of a supported media format.
pub fn is_supported_media_extension_exec(e: &Vec<char>) -> (supported: bool)
    ensures
        supported == is_supported_media_extension(e@),
{
    chars_equal_str(e, "jpg") || chars_equal_str(e, "png") || chars_equal_str(e, "webp")
        || chars_equal_str(e, "gif") || chars_equal_str(e, "avif") || chars_equal_str(e, "mp4")
        || chars_equal_str(e, "webm")
}

/// Whether `extension` names a still image format.
pub fn is_static_image_extension(extension: &str) -> (still: bool)
    ensures
        still == is_static_image_extension_spec(extension@),
{
    let e = chars_of(extension);
    chars_equal_str(&e, "jpg") || chars_equal_str(&e, "png") || chars_equal_str(&e, "webp")
        || chars_equal_str(&e, "gif") || chars_equal_str(&e, "avif")
}

fn extension_text_exec(extension: Option<&str>) -> (text: Vec<char>)
    ensures
        text@ == extension_text(optional_text(extension)),
{
    let raw = match extension {
        Some(value) => chars_of(value),
        None => Vec::new(),
    };
    let dot = vec!['.'];
    assert(dot@ =~= seq!['.']);
    let skip = leading_in(&raw, &dot);
    proof {
        crate::text::lemma_leading_count_bound(raw@, one_of(dot@));
    }
    let trimmed = slice_chars(&raw, skip, raw.len());
    let lowered = lower_ascii_chars(&trimmed);
    if chars_equal_str(&lowered, "jpeg") {
        chars_of("jpg")
    } else {
        lowered
    }
}

/// Normalises a media extension (leading dots dropped, lower case, `jpeg`
/// as `jpg`) and rejects SWF and unsupported formats.
pub fn normalized_extension(extension: Option<&str>) -> (result: Result<String, DanbooruError>)
    ensures
        text_outcome(
            result,
            match extension_result(optional_text(extension)) {
                Ok(text) => Ok(text),
                Err(message) => Err((DanbooruErrorKind::UnsupportedMedia, message)),
            },
        ),
{
    let text = extension_text_exec(extension);
    if chars_equal_str(&text, "swf") {
        return Err(plain_error(DanbooruErrorKind::UnsupportedMedia, "SWF 不会被下载或执行", false));
    }
    if !is_supported_media_extension_exec(&text) && !chars_equal_str(&text, "zip") {
        return Err(error_with_detail(DanbooruErrorKind::UnsupportedMedia, "不支持的媒体格式: ", &text, false));
    }
    Ok(string_from_chars(&text))
}

// ---------------------------------------------------------------------
// Filename templates
// ---------------------------------------------------------------------

/// Unicode general category `Cc` (`char::is_control`).
pub open spec fn is_control_char(c: char) -> bool {
    c <= '\u{1f}' || ('\u{7f}' <= c && c <= '\u{9f}')
}

/// Characters a filename template may not contain.
pub open spec fn is_forbidden_template_char(c: char) -> bool {
    ||| c == '/'
    ||| c == '\\'
    ||| is_control_char(c)
    ||| c == '<'
    ||| c == '>'
    ||| c == ':'
    ||| c == '"'
    ||| c == '|'
    ||| c == '?'
    ||| c == '*'
}

/// Bytes of `c` in UTF-8.
pub open spec fn utf8_width(c: char) -> nat {
    if (c as u32) < 0x80 {
        1
    } else if (c as u32) < 0x800 {
        2
    } else if (c as u32) < 0x10000 {
        3
    } else {
        4
    }
}

/// Bytes of `s` in UTF-8 (`str::len`).
pub open spec fn utf8_len(s: Seq<char>) -> nat
    decreases s.len(),
{
    if s.len() == 0 {
        0
    } else {
        utf8_len(s.drop_last()) + utf8_width(s.last())
    }
}

proof fn lemma_utf8_len_prefix(s: Seq<char>, i: int)
    requires
        0 <= i <= s.len(),
    ensures
        utf8_len(s.take(i)) <= utf8_len(s),
    decreases s.len() - i,
{
    if i < s.len() {
        lemma_utf8_len_prefix(s, i + 1);
        assert(s.take(i + 1).drop_last() =~= s.take(i));
    } else {
        assert(s.take(i) =~= s);
    }
}

/// Whether `s` has more than `limit` UTF-8 bytes.
pub fn utf8_len_exceeds(chars: &Vec<char>, limit: usize) -> (exceeds: bool)
    ensures
        exceeds == (utf8_len(chars@) > limit),
{
    let mut total: usize = 0;
    let mut index: usize = 0;
    while index < chars.len()
        invariant
            index <= chars.len(),
            total == utf8_len(chars@.take(index as int)),
            total <= limit,
        decreases chars.len() - index,
    {
        let code = chars[index] as u32;
        let width: usize = if code < 0x80 {
            1
        } else if code < 0x800 {
            2
        } else if code < 0x10000 {
            3
        } else {
            4
        };
        proof {
            let next = chars@.take(index + 1);
            assert(next.drop_last() =~= chars@.take(index as int));
            assert(next.last() == chars@[index as int]);
        }
        if width > limit - total {
            proof {
                lemma_utf8_len_prefix(chars@, index + 1);
            }
            return true;
        }
        total = total + width;
        index += 1;
    }
    assert(chars@.take(chars.len() as int) =~= chars@);
    false
}

/// The placeholders a template may use.
pub open spec fn is_known_placeholder(token: Seq<char>) -> bool {
    token == "{id}"@ || token == "{score}"@ || token == "{rating}"@ || token == "{ext}"@
}

/// Scans the placeholders of a template from the left: the message of the
/// first malformed or unknown placeholder, or of a stray `}`.
pub open spec fn placeholder_problem(s: Seq<char>) -> Option<Seq<char>>
    decreases s.len(),
{
    match first_index_of(s, '{') {
        None => if s.contains('}') {
            Some("文件名模板包含多余的右花括号"@)
        } else {
            None
        },
        Some(open) => {
            let after = s.skip(open);
            match first_index_of(after, '}') {
                None => Some("文件名模板包含未闭合的占位符"@),
                Some(close) => {
                    let token = after.take(close + 1);
                    if !is_known_placeholder(token) {
                        Some("不支持的文件名占位符: "@ + token)
                    } else {
                        proof {
                            lemma_first_index_of(s, '{');
                            lemma_first_index_of(after, '}');
                        }
                        placeholder_problem(after.skip(close + 1))
                    }
                },
            }
        },
    }
}

/// The message of the first rule a filename template breaks, if any.
pub open spec fn template_problem(t: Seq<char>) -> Option<Seq<char>> {
    if t.len() == 0 || utf8_len(t) > 240 || (exists|i: int|
        0 <= i < t.len() && is_forbidden_template_char(#[trigger] t[i])) {
        Some("文件名模板包含不允许的字符"@)
    } else if !contains_run(t, "{id}"@) || !contains_run(t, "{ext}"@) {
        Some("文件名模板必须包含 {id} 和 {ext}"@)
    } else {
        placeholder_problem(t)
    }
}

fn has_forbidden_template_char(chars: &Vec<char>) -> (found: bool)
    ensures
        found == exists|i: int| 0 <= i < chars@.len() && is_forbidden_template_char(#[trigger] chars@[i]),
{
    let mut index: usize = 0;
    while index < chars.len()
        invariant
            index <= chars.len(),
            forall|i: int| 0 <= i < index ==> !is_forbidden_template_char(#[trigger] chars@[i]),
        decreases chars.len() - index,
    {
        let c = chars[index];
        if c == '/' || c == '\\' || c <= '\u{1f}' || ('\u{7f}' <= c && c <= '\u{9f}') || c == '<'
            || c == '>' || c == ':' || c == '"' || c == '|' || c == '?' || c == '*' {
            assert(is_forbidden_template_char(chars@[index as int]));
            return true;
        }
        index += 1;
    }
    false
}

fn is_known_placeholder_exec(token: &Vec<char>) -> (known: bool)
    ensures
        known == is_known_placeholder(token@),
{
    chars_equal_str(token, "{id}") || chars_equal_str(token, "{score}") || chars_equal_str(
        token,
        "{rating}",
    ) || chars_equal_str(token, "{ext}")
}

/// Checks a download filename template: non-empty, at most 240 bytes, no
/// path separators, control or reserved characters, both `{id}` and
/// `{ext}` present, and only the placeholders `{id}`, `{score}`,
/// `{rating}` and `{ext}`, each closed, with no stray `}`.
pub fn validate_filename_template(template: &str) -> (result: Result<(), DanbooruError>)
    ensures
        check_outcome(result, DanbooruErrorKind::InvalidTemplate, template_problem(template@)),
{
    let chars = chars_of(template);
    if chars.len() == 0 || utf8_len_exceeds(&chars, 240) || has_forbidden_template_char(&chars) {
        return Err(plain_error(DanbooruErrorKind::InvalidTemplate, "文件名模板包含不允许的字符", false));
    }
    let id_token = chars_of("{id}");
    let ext_token = chars_of("{ext}");
    if !contains_run_exec(&chars, &id_token) || !contains_run_exec(&chars, &ext_token) {
        return Err(
            plain_error(DanbooruErrorKind::InvalidTemplate, "文件名模板必须包含 {id} 和 {ext}", false),
        );
    }
    let len = chars.len();
    let mut pos: usize = 0;
    assert(template_problem(template@) == placeholder_problem(chars@));
    assert(chars@.subrange(0, len as int) =~= chars@);
    loop
        invariant
            pos <= len,
            len == chars.len(),
            chars@ == template@,
            template_problem(template@) == placeholder_problem(chars@),
            placeholder_problem(chars@.subrange(pos as int, len as int)) == placeholder_problem(chars@),
        decreases len - pos,
    {
        let ghost rest = chars@.subrange(pos as int, len as int);
        match find_char_from(&chars, pos, '{') {
            None => {
                let stray = find_char_from(&chars, pos, '}');
                proof {
                    lemma_first_index_of(rest, '}');
                }
                match stray {
                    Some(_) => {
                        return Err(
                            plain_error(
                                DanbooruErrorKind::InvalidTemplate,
                                "文件名模板包含多余的右花括号",
                                false,
                            ),
                        );
                    },
                    None => {
                        return Ok(());
                    },
                }
            },
            Some(open) => {
                proof {
                    lemma_first_index_of(rest, '{');
                    assert(rest.skip(open - pos) =~= chars@.subrange(open as int, len as int));
                }
                match find_char_from(&chars, open, '}') {
                    None => {
                        return Err(
                            plain_error(
                                DanbooruErrorKind::InvalidTemplate,
                                "文件名模板包含未闭合的占位符",
                                false,
                            ),
                        );
                    },
                    Some(close) => {
                        let ghost after = chars@.subrange(open as int, len as int);
                        proof {
                            lemma_first_index_of(after, '}');
                        }
                        let token = slice_chars(&chars, open, close + 1);
                        assert(after.take(close - open + 1) =~= token@);
                        if !is_known_placeholder_exec(&token) {
                            return Err(
                                error_with_detail(
                                    DanbooruErrorKind::InvalidTemplate,
                                    "不支持的文件名占位符: ",
                                    &token,
                                    false,
                                ),
                            );
                        }
                        assert(after.skip(close - open + 1) =~= chars@.subrange(
                            close + 1,
                            len as int,
                        ));
                        pos = close + 1;
                    },
                }
            },
        }
    }
}

// ---------------------------------------------------------------------
// Rendered filenames
// ---------------------------------------------------------------------

/// The path reads as exactly one normal component on a Unix system: its
/// first `/`-separated piece is a name other than `.` and `..`, and every
/// later piece is empty or `.` (which path parsing skips).
pub open spec fn is_single_normal_component(s: Seq<char>) -> bool {
    let pieces = split_when(s, one_of(seq!['/']));
    &&& pieces[0].len() > 0
    &&& pieces[0] != "."@
    &&& pieces[0] != ".."@
    &&& forall|i: int| 1 <= i < pieces.len() ==> (#[trigger] pieces[i]).len() == 0 || pieces[i] == "."@
}

/// The part of a filename before its first `.`, trailing spaces and dots
/// removed, upper-cased.
pub open spec fn windows_basename(s: Seq<char>) -> Seq<char> {
    let first = split_when(s, one_of(seq!['.']))[0];
    ascii_upper(first.subrange(0, first.len() - trailing_count(first, one_of(seq![' ', '.']))))
}

/// Names Windows reserves for devices, whatever the extension.
pub open spec fn is_windows_reserved(s: Seq<char>) -> bool {
    let base = windows_basename(s);
    ||| base == "CON"@
    ||| base == "PRN"@
    ||| base == "AUX"@
    ||| base == "NUL"@
    ||| (base.len() == 4 && (base.take(3) == "COM"@ || base.take(3) == "LPT"@) && '1' <= base[3]
        && base[3] <= '9')
}

/// The message of the first rule a rendered filename breaks, if any.
pub open spec fn rendered_problem(s: Seq<char>) -> Option<Seq<char>> {
    if !is_single_normal_component(s) {
        Some("渲染后的文件名必须是单个普通路径组件"@)
    } else if s.len() > 0 && (s.last() == '.' || s.last() == ' ') {
        Some("渲染后的文件名不能以点或空格结尾"@)
    } else if is_windows_reserved(s) {
        Some("渲染后的文件名使用了 Windows 保留设备名"@)
    } else {
        None
    }
}

fn is_single_normal_component_exec(chars: &Vec<char>) -> (single: bool)
    ensures
        single == is_single_normal_component(chars@),
{
    let slash = vec!['/'];
    assert(slash@ =~= seq!['/']);
    let pieces = split_on(chars, &slash);
    proof {
        lemma_split_when_nonempty(chars@, one_of(slash@));
    }
    let ghost views = split_when(chars@, one_of(seq!['/']));
    assert(pieces@[0]@ == views[0]);
    let first = &pieces[0];
    if first.len() == 0 || chars_equal_str(first, ".") || chars_equal_str(first, "..") {
        return false;
    }
    let mut index: usize = 1;
    while index < pieces.len()
        invariant
            1 <= index <= pieces.len(),
            views == split_when(chars@, one_of(seq!['/'])),
            crate::text::char_views(pieces@) == views,
            forall|i: int| 1 <= i < index ==> (#[trigger] views[i]).len() == 0 || views[i] == "."@,
        decreases pieces.len() - index,
    {
        let piece = &pieces[index];
        assert(piece@ == views[index as int]);
        if piece.len() != 0 && !chars_equal_str(piece, ".") {
            return false;
        }
        index += 1;
    }
    true
}

/// Whether a filename uses a device name Windows reserves (`CON`, `PRN`,
/// `AUX`, `NUL`, `COM1`–`COM9`, `LPT1`–`LPT9`), with or without extension.
pub fn is_windows_reserved_filename(filename: &str) -> (reserved: bool)
    ensures
        reserved == is_windows_reserved(filename@),
{
    let chars = chars_of(filename);
    let dot = vec!['.'];
    assert(dot@ =~= seq!['.']);
    let pieces = split_on(&chars, &dot);
    proof {
        lemma_split_when_nonempty(chars@, one_of(dot@));
    }
    let first = &pieces[0];
    assert(first@ == split_when(chars@, one_of(seq!['.']))[0]);
    let space_or_dot = vec![' ', '.'];
    assert(space_or_dot@ =~= seq![' ', '.']);
    let trailing = trailing_in(first, &space_or_dot);
    proof {
        crate::text::lemma_trailing_count_bound(first@, one_of(space_or_dot@));
    }
    let kept = slice_chars(first, 0, first.len() - trailing);
    let base = upper_ascii_chars(&kept);
    if chars_equal_str(&base, "CON") || chars_equal_str(&base, "PRN") || chars_equal_str(&base, "AUX")
        || chars_equal_str(&base, "NUL") {
        return true;
    }
    if base.len() == 4 {
        let head = slice_chars(&base, 0, 3);
        assert(head@ =~= base@.take(3));
        let last = base[3];
        return (chars_equal_str(&head, "COM") || chars_equal_str(&head, "LPT")) && '1' <= last && last
            <= '9';
    }
    false
}

/// Checks that a rendered filename is one plain path component that
/// Windows accepts too: no trailing dot or space, no reserved device name.
pub fn validate_rendered_filename(filename: &str) -> (result: Result<(), DanbooruError>)
    ensures
        check_outcome(result, DanbooruErrorKind::InvalidTemplate, rendered_problem(filename@)),
{
    let chars = chars_of(filename);
    if !is_single_normal_component_exec(&chars) {
        return Err(
            plain_error(DanbooruErrorKind::InvalidTemplate, "渲染后的文件名必须是单个普通路径组件", false),
        );
    }
    if chars.len() > 0 && (chars[chars.len() - 1] == '.' || chars[chars.len() - 1] == ' ') {
        return Err(
            plain_error(DanbooruErrorKind::InvalidTemplate, "渲染后的文件名不能以点或空格结尾", false),
        );
    }
    if is_windows_reserved_filename(filename) {
        return Err(
            plain_error(
                DanbooruErrorKind::InvalidTemplate,
                "渲染后的文件名使用了 Windows 保留设备名",
                false,
            ),
        );
    }
    Ok(())
}

/// What a download filename is made from.
#[derive(Debug, Clone, Copy)]
pub struct FilenameContext<'a> {
    pub id: u64,
    pub score: i64,
    pub rating: &'a str,
    pub extension: &'a str,
}

/// Danbooru's four ratings.
pub open spec fn is_rating(r: Seq<char>) -> bool {
    r == "g"@ || r == "s"@ || r == "q"@ || r == "e"@
}

/// The template with every placeholder replaced, in the order `{id}`,
/// `{score}`, `{rating}`, `{ext}`.
pub open spec fn filled_template(
    t: Seq<char>,
    id: u64,
    score: i64,
    rating: Seq<char>,
    extension: Seq<char>,
) -> Seq<char> {
    replace_all(
        replace_all(
            replace_all(replace_all(t, "{id}"@, decimal(id as nat)), "{score}"@, signed_decimal(score as int)),
            "{rating}"@,
            rating,
        ),
        "{ext}"@,
        extension,
    )
}

/// The filename a template renders to, or the kind and message of the
/// first rule that rejects it.
pub open spec fn rendered_filename(
    t: Seq<char>,
    id: u64,
    score: i64,
    rating: Seq<char>,
    extension: Seq<char>,
) -> Result<Seq<char>, (DanbooruErrorKind, Seq<char>)> {
    if let Some(message) = template_problem(t) {
        Err((DanbooruErrorKind::InvalidTemplate, message))
    } else if !is_rating(rating) {
        Err((DanbooruErrorKind::InvalidTemplate, "rating 必须是 g、s、q 或 e"@))
    } else {
        match extension_result(extension) {
            Err(message) => Err((DanbooruErrorKind::UnsupportedMedia, message)),
            Ok(ext) => if ext == "zip"@ && extension != "zip"@ {
                Err((DanbooruErrorKind::InvalidTemplate, "文件扩展名无效"@))
            } else {
                let name = filled_template(t, id, score, rating, ext);
                if let Some(message) = rendered_problem(name) {
                    Err((DanbooruErrorKind::InvalidTemplate, message))
                } else if name == "."@ || name == ".."@ || (name.len() > 0 && name[0] == '.') {
                    Err((DanbooruErrorKind::InvalidTemplate, "文件名模板不能生成隐藏或相对路径文件"@))
                } else {
                    Ok(name)
                }
            },
        }
    }
}

/// Renders a download filename from a template (see [`rendered_filename`]).
pub fn render_filename(template: &str, context: FilenameContext) -> (result: Result<String, DanbooruError>)
    ensures
        text_outcome(
            result,
            rendered_filename(template@, context.id, context.score, context.rating@, context.extension@),
        ),
{
    match validate_filename_template(template) {
        Err(error) => {
            return Err(error);
        },
        Ok(()) => {},
    }
    let rating = chars_of(context.rating);
    if !(chars_equal_str(&rating, "g") || chars_equal_str(&rating, "s") || chars_equal_str(&rating, "q")
        || chars_equal_str(&rating, "e")) {
        return Err(plain_error(DanbooruErrorKind::InvalidTemplate, "rating 必须是 g、s、q 或 e", false));
    }
    let extension = match normalized_extension(Some(context.extension)) {
        Err(error) => {
            return Err(error);
        },
        Ok(extension) => extension,
    };
    let ext = chars_of(extension.as_str());
    let given = chars_of(context.extension);
    if chars_equal_str(&ext, "zip") && !chars_equal_str(&given, "zip") {
        return Err(plain_error(DanbooruErrorKind::InvalidTemplate, "文件扩展名无效", false));
    }
    let template_chars = chars_of(template);
    let id_text = u64_to_chars(context.id);
    let score_text = i64_to_chars(context.score);
    proof {
        reveal_strlit("{id}");
        reveal_strlit("{score}");
        reveal_strlit("{rating}");
        reveal_strlit("{ext}");
    }
    let id_token = chars_of("{id}");
    let score_token = chars_of("{score}");
    let rating_token = chars_of("{rating}");
    let ext_token = chars_of("{ext}");
    let step = replace_chars(&template_chars, &id_token, &id_text);
    let step = replace_chars(&step, &score_token, &score_text);
    let step = replace_chars(&step, &rating_token, &rating);
    let name = replace_chars(&step, &ext_token, &ext);
    let filename = string_from_chars(&name);
    match validate_rendered_filename(filename.as_str()) {
        Err(error) => {
            return Err(error);
        },
        Ok(()) => {},
    }
    if chars_equal_str(&name, ".") || chars_equal_str(&name, "..") || (name.len() > 0 && name[0] == '.') {
        return Err(
            plain_error(DanbooruErrorKind::InvalidTemplate, "文件名模板不能生成隐藏或相对路径文件", false),
        );
    }
    Ok(filename)
}

// ---------------------------------------------------------------------
// Media responses
// ---------------------------------------------------------------------

/// The media type of a `Content-Type` value: the part before the first
/// `;`, trimmed.
pub open spec fn media_type(value: Seq<char>) -> Seq<char> {
    trim_spec(split_when(value, one_of(seq![';']))[0])
}

/// Whether `content_type` is the MIME type of files with `extension`.
pub open spec fn mime_matches(extension: Seq<char>, content_type: Seq<char>) -> bool {
    ||| (extension == "jpg"@ && content_type == "image/jpeg"@)
    ||| (extension == "png"@ && content_type == "image/png"@)
    ||| (extension == "webp"@ && content_type == "image/webp"@)
    ||| (extension == "gif"@ && content_type == "image/gif"@)
    ||| (extension == "avif"@ && content_type == "image/avif"@)
    ||| (extension == "mp4"@ && content_type == "video/mp4"@)
    ||| (extension == "webm"@ && content_type == "video/webm"@)
    ||| (extension == "zip"@ && (content_type == "application/zip"@ || content_type
        == "application/x-zip-compressed"@))
}

/// The message of the error for a media response's `Content-Type`, if any.
pub open spec fn content_type_problem(extension: Seq<char>, value: Option<Seq<char>>) -> Option<
    Seq<char>,
> {
    match value {
        None => Some("媒体响应缺少有效的 Content-Type"@),
        Some(v) => if mime_matches(extension, media_type(v)) {
            None
        } else {
            Some("媒体 MIME 与扩展名不匹配: "@ + media_type(v) + " / "@ + extension)
        },
    }
}

/// The view of an optional string.
pub open spec fn optional_view(value: Option<&str>) -> Option<Seq<char>> {
    match value {
        Some(text) => Some(text@),
        None => None,
    }
}

fn mime_matches_exec(extension: &Vec<char>, content_type: &Vec<char>) -> (matches: bool)
    ensures
        matches == mime_matches(extension@, content_type@),
{
    (chars_equal_str(extension, "jpg") && chars_equal_str(content_type, "image/jpeg")) || (
    chars_equal_str(extension, "png") && chars_equal_str(content_type, "image/png")) || (
    chars_equal_str(extension, "webp") && chars_equal_str(content_type, "image/webp")) || (
    chars_equal_str(extension, "gif") && chars_equal_str(content_type, "image/gif")) || (
    chars_equal_str(extension, "avif") && chars_equal_str(content_type, "image/avif")) || (
    chars_equal_str(extension, "mp4") && chars_equal_str(content_type, "video/mp4")) || (
    chars_equal_str(extension, "webm") && chars_equal_str(content_type, "video/webm")) || (
    chars_equal_str(extension, "zip") && (chars_equal_str(content_type, "application/zip")
        || chars_equal_str(content_type, "application/x-zip-compressed")))
}

/// Checks a media response's `Content-Type` (absent when the header is
/// missing or not visible ASCII) against the expected file extension.
pub fn validate_content_type(extension: &str, value: Option<&str>) -> (result: Result<(), DanbooruError>)
    ensures
        check_outcome(
            result,
            DanbooruErrorKind::InvalidResponse,
            content_type_problem(extension@, optional_view(value)),
        ),
{
    let raw = match value {
        None => {
            return Err(
                plain_error(DanbooruErrorKind::InvalidResponse, "媒体响应缺少有效的 Content-Type", false),
            );
        },
        Some(raw) => chars_of(raw),
    };
    let semicolon = vec![';'];
    assert(semicolon@ =~= seq![';']);
    let pieces = split_on(&raw, &semicolon);
    proof {
        lemma_split_when_nonempty(raw@, one_of(semicolon@));
    }
    let first = &pieces[0];
    assert(first@ == split_when(raw@, one_of(seq![';']))[0]);
    let (start, end) = trim_bounds(first, 0, first.len());
    assert(first@.subrange(0, first@.len() as int) =~= first@);
    let content_type = slice_chars(first, start, end);
    let ext = chars_of(extension);
    if !mime_matches_exec(&ext, &content_type) {
        let mut detail = copy_and_append(&content_type, " / ");
        append_chars(&mut detail, &ext);
        assert("媒体 MIME 与扩展名不匹配: "@ + detail@ =~= "媒体 MIME 与扩展名不匹配: "@ + content_type@ + " / "@
            + ext@);
        return Err(
            error_with_detail(DanbooruErrorKind::InvalidResponse, "媒体 MIME 与扩展名不匹配: ", &detail, false),
        );
    }
    Ok(())
}

fn copy_and_append(chars: &Vec<char>, tail: &str) -> (joined: Vec<char>)
    ensures
        joined@ == chars@ + tail@,
{
    let mut joined = crate::text::copy_chars(chars);
    let extra = chars_of(tail);
    append_chars(&mut joined, &extra);
    joined
}

/// A parsed `Content-Range: bytes start-end/total` header.
#[derive(Debug, Clone, Copy, PartialEq, Eq, Structural)]
pub struct ParsedContentRange {
    pub start: u64,
    pub end: u64,
    pub total: u64,
}

/// The range a `Content-Range` value states, when it is well formed and
/// describes a non-empty segment of a file of at most 16 GiB.
pub open spec fn content_range_spec(value: Option<Seq<char>>) -> Option<ParsedContentRange> {
    match value {
        None => None,
        Some(v) => if !starts_with(v, "bytes "@) {
            None
        } else {
            let rest = v.skip("bytes "@.len() as int);
            match first_index_of(rest, '/') {
                None => None,
                Some(slash) => {
                    let span = rest.take(slash);
                    let total_text = rest.skip(slash + 1);
                    match first_index_of(span, '-') {
                        None => None,
                        Some(dash) => match (
                            parse_u64_spec(span.take(dash)),
                            parse_u64_spec(span.skip(dash + 1)),
                            parse_u64_spec(total_text),
                        ) {
                            (Some(start), Some(end), Some(total)) => if start <= end && end < total
                                && total <= MAX_MEDIA_DOWNLOAD_BYTES {
                                Some(ParsedContentRange { start, end, total })
                            } else {
                                None
                            },
                            _ => None,
                        },
                    }
                },
            }
        },
    }
}

/// Parses a `Content-Range` value (see [`content_range_spec`]).
pub fn parse_content_range(value: Option<&str>) -> (result: Result<ParsedContentRange, DanbooruError>)
    ensures
        match (result, content_range_spec(optional_view(value))) {
            (Ok(range), Some(expected)) => range == expected,
            (Err(e), None) => error_is(
                e,
                DanbooruErrorKind::InvalidResponse,
                "Range 响应缺少有效的 Content-Range"@,
                false,
            ),
            _ => false,
        },
{
    let parsed = parse_content_range_text(value);
    match parsed {
        Some(range) => Ok(range),
        None => Err(
            plain_error(DanbooruErrorKind::InvalidResponse, "Range 响应缺少有效的 Content-Range", false),
        ),
    }
}

fn parse_content_range_text(value: Option<&str>) -> (range: Option<ParsedContentRange>)
    ensures
        range == content_range_spec(optional_view(value)),
{
    let chars = match value {
        None => {
            return None;
        },
        Some(text) => chars_of(text),
    };
    let prefix = chars_of("bytes ");
    let ghost v = chars@;
    if !starts_with_at(&chars, 0, &prefix) {
        assert(chars@.subrange(0, chars.len() as int) =~= v);
        return None;
    }
    assert(chars@.subrange(0, chars.len() as int) =~= v);
    let skip = prefix.len();
    let ghost rest = v.skip(skip as int);
    assert(rest =~= chars@.subrange(skip as int, chars.len() as int));
    let slash = match find_char_from(&chars, skip, '/') {
        None => {
            return None;
        },
        Some(slash) => slash,
    };
    proof {
        lemma_first_index_of(rest, '/');
    }
    let span = slice_chars(&chars, skip, slash);
    let total_text = slice_chars(&chars, slash + 1, chars.len());
    assert(span@ =~= rest.take(slash - skip));
    assert(total_text@ =~= rest.skip(slash - skip + 1));
    let dash = match find_char_from(&span, 0, '-') {
        None => {
            assert(span@.subrange(0, span.len() as int) =~= span@);
            return None;
        },
        Some(dash) => dash,
    };
    assert(span@.subrange(0, span.len() as int) =~= span@);
    proof {
        lemma_first_index_of(span@, '-');
    }
    let start_text = slice_chars(&span, 0, dash);
    let end_text = slice_chars(&span, dash + 1, span.len());
    assert(start_text@ =~= span@.take(dash as int));
    assert(end_text@ =~= span@.skip(dash + 1));
    let start = parse_u64(&start_text);
    let end = parse_u64(&end_text);
    let total = parse_u64(&total_text);
    match (start, end, total) {
        (Some(start), Some(end), Some(total)) => {
            if start <= end && end < total && total <= MAX_MEDIA_DOWNLOAD_BYTES {
                Some(ParsedContentRange { start, end, total })
            } else {
                None
            }
        },
        _ => None,
    }
}

/// The error for a resumed response whose range does not continue the
/// partial file, if any: the start must equal the bytes already written
/// and, where the post states a size, the total must equal it.
pub open spec fn content_range_problem(
    range: ParsedContentRange,
    expected_start: u64,
    expected_total: Option<u64>,
) -> Option<Seq<char>> {
    if range.start != expected_start {
        Some("Range 响应起点与临时文件长度不一致"@)
    } else if expected_total is Some && expected_total != Some(range.total) {
        Some("Range 响应总长度与帖子元数据不一致"@)
    } else {
        None
    }
}

/// Checks the `Content-Range` of a resumed download.
pub fn validate_content_range(
    value: Option<&str>,
    expected_start: u64,
    expected_total: Option<u64>,
) -> (result: Result<(), DanbooruError>)
    ensures
        match content_range_spec(optional_view(value)) {
            None => result matches Err(e) && error_is(
                e,
                DanbooruErrorKind::InvalidResponse,
                "Range 响应缺少有效的 Content-Range"@,
                false,
            ),
            Some(range) => match content_range_problem(range, expected_start, expected_total) {
                None => result is Ok,
                Some(message) => result matches Err(e) && error_is(
                    e,
                    DanbooruErrorKind::Integrity,
                    message,
                    true,
                ),
            },
        },
{
    let range = match parse_content_range(value) {
        Err(error) => {
            return Err(error);
        },
        Ok(range) => range,
    };
    if range.start != expected_start {
        return Err(plain_error(DanbooruErrorKind::Integrity, "Range 响应起点与临时文件长度不一致", true));
    }
    match expected_total {
        Some(expected) => {
            if expected != range.total {
                return Err(
                    plain_error(DanbooruErrorKind::Integrity, "Range 响应总长度与帖子元数据不一致", true),
                );
            }
        },
        None => {},
    }
    Ok(())
}

// ---------------------------------------------------------------------
// Client configuration
// ---------------------------------------------------------------------

/// Debug text of a string (`<str as Debug>::fmt`: quoted, with escapes).
pub uninterp spec fn str_debug_text(s: Seq<char>) -> Seq<char>;

/// The debug text of a string slice.
///
/// Trusted: wraps `<str as Debug>::fmt`; the contract names its result,
/// which depends on the characters alone.
#[verifier::external_body]
fn debug_str(text: &str) -> (quoted: String)
    ensures
        quoted@ == str_debug_text(text@),
{
    format!("{:?}", text)
}

/// The debug text of a duration.
///
/// Trusted: wraps `<Duration as Debug>::fmt`; nothing is stated of the text.
#[verifier::external_body]
fn debug_duration(duration: &Duration) -> (text: String) {
    format!("{:?}", duration)
}

/// A duration of whole seconds.
///
/// Trusted: wraps `Duration::from_secs`; the value is opaque here.
#[verifier::external_body]
fn seconds(secs: u64) -> (duration: Duration) {
    Duration::from_secs(secs)
}

/// Cloning a duration.
///
/// Trusted: `Duration` is `Copy`, and its `Clone` gives the same value.
pub assume_specification[<Duration as Clone>::clone](duration: &Duration) -> (copy: Duration)
    ensures
        copy == *duration,
;

/// How the client reaches Danbooru.
#[derive(Clone)]
pub struct DanbooruClientConfig {
    pub base_url: String,
    pub username: String,
    pub api_key: String,
    pub proxy_url: Option<String>,
    pub requests_per_second: u32,
    pub trusted_media_hosts: Vec<String>,
    pub timeout: Duration,
}

/// The views of a list of strings.
pub open spec fn string_views(items: Seq<String>) -> Seq<Seq<char>> {
    items.map_values(|item: String| item@)
}

/// The debug text of a configuration up to the timeout's value: the
/// API key appears only as `<redacted>` (or `<unset>` when empty) and a
/// proxy only as `<configured>`.
pub open spec fn config_debug_head(
    base_url: Seq<char>,
    username: Seq<char>,
    api_key_set: bool,
    proxy_set: bool,
    requests_per_second: u32,
    hosts: Seq<Seq<char>>,
) -> Seq<char> {
    "DanbooruClientConfig { base_url: "@ + str_debug_text(base_url) + ", username: "@
        + str_debug_text(username) + ", api_key: "@ + str_debug_text(
        if api_key_set {
            "<redacted>"@
        } else {
            "<unset>"@
        },
    ) + ", proxy_url: "@ + (if proxy_set {
        "Some("@ + str_debug_text("<configured>"@) + ")"@
    } else {
        "None"@
    }) + ", requests_per_second: "@ + decimal(requests_per_second as nat)
        + ", trusted_media_hosts: ["@ + join_with(
        hosts.map_values(|host: Seq<char>| str_debug_text(host)),
        ", "@,
    ) + "], timeout: "@
}

/// The full debug text, given the timeout's own debug text.
pub open spec fn with_timeout_text(head: Seq<char>, timeout_text: Seq<char>) -> Seq<char> {
    head + timeout_text + " }"@
}

impl DanbooruClientConfig {
    /// The debug head of this configuration (see [`config_debug_head`]).
    pub open spec fn debug_head(&self) -> Seq<char> {
        config_debug_head(
            self.base_url@,
            self.username@,
            self.api_key@.len() > 0,
            self.proxy_url is Some,
            self.requests_per_second,
            string_views(self.trusted_media_hosts@),
        )
    }

    /// The debug text of the configuration, with the API key redacted.
    pub fn debug_text(&self) -> (text: String)
        ensures
            exists|timeout_text: Seq<char>| #[trigger] with_timeout_text(self.debug_head(), timeout_text) == text@,
    {
        let mut out = chars_of("DanbooruClientConfig { base_url: ");
        append_str(&mut out, debug_str(self.base_url.as_str()));
        append_literal(&mut out, ", username: ");
        append_str(&mut out, debug_str(self.username.as_str()));
        append_literal(&mut out, ", api_key: ");
        let api_key_set = self.api_key.as_str().unicode_len() > 0;
        let marker = if api_key_set {
            "<redacted>"
        } else {
            "<unset>"
        };
        append_str(&mut out, debug_str(marker));
        append_literal(&mut out, ", proxy_url: ");
        match &self.proxy_url {
            Some(_) => {
                append_literal(&mut out, "Some(");
                append_str(&mut out, debug_str("<configured>"));
                append_literal(&mut out, ")");
            },
            None => {
                append_literal(&mut out, "None");
            },
        }
        append_literal(&mut out, ", requests_per_second: ");
        let rate = u64_to_chars(self.requests_per_second as u64);
        append_chars(&mut out, &rate);
        append_literal(&mut out, ", trusted_media_hosts: [");
        let mut quoted: Vec<Vec<char>> = Vec::new();
        let mut index: usize = 0;
        let ghost hosts = string_views(self.trusted_media_hosts@);
        while index < self.trusted_media_hosts.len()
            invariant
                index <= self.trusted_media_hosts.len(),
                hosts == string_views(self.trusted_media_hosts@),
                crate::text::char_views(quoted@) == hosts.take(index as int).map_values(
                    |host: Seq<char>| str_debug_text(host),
                ),
            decreases self.trusted_media_hosts.len() - index,
        {
            let text = debug_str(self.trusted_media_hosts[index].as_str());
            let ghost before = crate::text::char_views(quoted@);
            assert(hosts[index as int] == self.trusted_media_hosts@[index as int]@);
            assert(hosts.take(index + 1) =~= hosts.take(index as int).push(hosts[index as int]));
            quoted.push(chars_of(text.as_str()));
            assert(crate::text::char_views(quoted@) =~= before.push(str_debug_text(hosts[index as int])));
            assert(crate::text::char_views(quoted@) =~= hosts.take(index + 1).map_values(
                |host: Seq<char>| str_debug_text(host),
            ));
            index += 1;
        }
        assert(hosts.take(hosts.len() as int) =~= hosts);
        let comma = chars_of(", ");
        let joined = crate::text::join_chars(&quoted, &comma);
        append_chars(&mut out, &joined);
        append_literal(&mut out, "], timeout: ");
        let ghost head = out@;
        let timeout_text = chars_of(debug_duration(&self.timeout).as_str());
        append_chars(&mut out, &timeout_text);
        append_literal(&mut out, " }");
        assert(head =~= self.debug_head());
        assert(with_timeout_text(self.debug_head(), timeout_text@) == out@);
        string_from_chars(&out)
    }
}

fn append_str(target: &mut Vec<char>, text: String)
    ensures
        final(target)@ == old(target)@ + text@,
{
    let chars = chars_of(text.as_str());
    append_chars(target, &chars);
}

fn append_literal(target: &mut Vec<char>, text: &str)
    ensures
        final(target)@ == old(target)@ + text@,
{
    let chars = chars_of(text);
    append_chars(target, &chars);
}

impl Default for DanbooruClientConfig {
    /// The public instance, no credentials or proxy, 8 requests per second,
    /// the two Danbooru media hosts, a 90 second timeout.
    fn default() -> (config: Self)
        ensures
            config.base_url@ == DEFAULT_BASE_URL@,
            config.username@ == Seq::<char>::empty(),
            config.api_key@ == Seq::<char>::empty(),
            config.proxy_url is None,
            config.requests_per_second == DEFAULT_REQUESTS_PER_SECOND,
            string_views(config.trusted_media_hosts@) == seq!["danbooru.donmai.us"@, "cdn.donmai.us"@],
    {
        let mut hosts: Vec<String> = Vec::new();
        hosts.push(owned("danbooru.donmai.us"));
        hosts.push(owned("cdn.donmai.us"));
        assert(string_views(hosts@) =~= seq!["danbooru.donmai.us"@, "cdn.donmai.us"@]);
        DanbooruClientConfig {
            base_url: owned(DEFAULT_BASE_URL),
            username: String::new(),
            api_key: String::new(),
            proxy_url: None,
            requests_per_second: DEFAULT_REQUESTS_PER_SECOND,
            trusted_media_hosts: hosts,
            timeout: seconds(90),
        }
    }
}

/// The configuration's debug text never depends on the API key beyond
/// whether one is set: two configurations that differ only in their
/// (non-empty) API keys print the same text up to the timeout.
pub proof fn law_debug_text_hides_api_key(a: DanbooruClientConfig, b: DanbooruClientConfig)
    requires
        a.base_url@ == b.base_url@,
        a.username@ == b.username@,
        a.proxy_url is Some == b.proxy_url is Some,
        a.requests_per_second == b.requests_per_second,
        string_views(a.trusted_media_hosts@) == string_views(b.trusted_media_hosts@),
        a.api_key@.len() > 0,
        b.api_key@.len() > 0,
    ensures
        a.debug_head() == b.debug_head(),
{
}

// ---------------------------------------------------------------------
// API records
// ---------------------------------------------------------------------

/// A page request for `/posts.json`.
#[derive(Debug, Clone, PartialEq, Eq)]
pub struct PostQuery {
    pub tags: String,
    pub page: String,
    pub limit: u16,
}

impl Default for PostQuery {
    /// No tags, the first page, 40 posts.
    fn default() -> (query: Self)
        ensures
            query.tags@ == Seq::<char>::empty(),
            query.page@ == "1"@,
            query.limit == 40,
    {
        PostQuery { tags: String::new(), page: owned("1"), limit: 40 }
    }
}

/// A rendition of a post's media (`media_asset.variants`).
#[derive(Debug, Clone, Default)]
pub struct MediaAssetVariant {
    pub variant_type: String,
    pub url: Option<String>,
    pub file_ext: Option<String>,
    pub file_size: Option<u64>,
    pub md5: Option<String>,
    pub width: Option<u32>,
    pub height: Option<u32>,
}

/// The media record of a post.
#[derive(Debug, Clone, Default)]
pub struct MediaAsset {
    pub id: Option<u64>,
    pub variants: Vec<MediaAssetVariant>,
}

/// A tag suggestion from `/autocomplete.json`.
#[derive(Debug, Clone, Default)]
pub struct AutocompleteItem {
    pub value: String,
    pub label: String,
    pub category: Option<u8>,
    pub post_count: Option<u64>,
}

/// Which rendition of a post to fetch.
#[derive(Debug, Clone, Copy, PartialEq, Eq, Structural)]
pub enum MediaVariant {
    Preview,
    Sample,
    Large,
    Original,
    UgoiraWebm,
    UgoiraZip,
}

// ---------------------------------------------------------------------
// Downloads
// ---------------------------------------------------------------------

#[verifier::external_type_specification]
#[verifier::external_body]
pub struct ExPathBuf(PathBuf);

/// Cloning a path.
///
/// Trusted: `<PathBuf as Clone>::clone` copies the path, so the copy is the
/// same path.
pub assume_specification[<PathBuf as Clone>::clone](path: &PathBuf) -> (copy: PathBuf)
    ensures
        copy == *path,
;

/// A finished download.
#[derive(Debug)]
pub struct DownloadOutcome {
    pub path: PathBuf,
    pub bytes_written: u64,
    pub resumed: bool,
    pub already_present: bool,
}

/// What the caller of a controlled download asks after each step.
#[derive(Debug, Clone, Copy, PartialEq, Eq, Structural)]
pub enum DownloadControl {
    Continue,
    Stop,
}

/// Bytes on disk so far, and the size the post states.
#[derive(Debug, Clone, Copy, PartialEq, Eq, Structural)]
pub struct DownloadProgress {
    pub bytes_written: u64,
    pub total_bytes: Option<u64>,
}

/// A download that finished, or stopped with its part file kept.
#[derive(Debug)]
pub enum ControlledDownloadOutcome {
    Completed(DownloadOutcome),
    Stopped { part_path: PathBuf, bytes_written: u64 },
}

/// The most bytes a download may write: the size the post states, capped
/// at 16 GiB.
pub open spec fn download_limit(expected_size: Option<u64>) -> u64 {
    match expected_size {
        Some(size) => if size < MAX_MEDIA_DOWNLOAD_BYTES {
            size
        } else {
            MAX_MEDIA_DOWNLOAD_BYTES
        },
        None => MAX_MEDIA_DOWNLOAD_BYTES,
    }
}

/// See [`download_limit`].
pub fn download_size_limit(expected_size: Option<u64>) -> (limit: u64)
    ensures
        limit == download_limit(expected_size),
        limit <= MAX_MEDIA_DOWNLOAD_BYTES,
{
    match expected_size {
        Some(size) => if size < MAX_MEDIA_DOWNLOAD_BYTES {
            size
        } else {
            MAX_MEDIA_DOWNLOAD_BYTES
        },
        None => MAX_MEDIA_DOWNLOAD_BYTES,
    }
}

/// Refuses a download whose stated size is over 16 GiB.
pub fn check_declared_size(expected_size: Option<u64>) -> (result: Result<(), DanbooruError>)
    ensures
        check_outcome(
            result,
            DanbooruErrorKind::InvalidResponse,
            if expected_size matches Some(size) && size > MAX_MEDIA_DOWNLOAD_BYTES {
                Some("媒体文件超过 16 GiB 大小上限"@)
            } else {
                None
            },
        ),
{
    match expected_size {
        Some(size) => if size > MAX_MEDIA_DOWNLOAD_BYTES {
            return Err(plain_error(DanbooruErrorKind::InvalidResponse, "媒体文件超过 16 GiB 大小上限", false));
        },
        None => {},
    }
    Ok(())
}

/// `e` is the error [`map_status`] gives for `status` and `retry_after`.
pub open spec fn is_status_error(e: DanbooruError, status: u16, retry_after: Option<Duration>) -> bool {
    &&& e.kind == status_error(status).0
    &&& e.message@ == status_error(status).1
    &&& e.retryable == status_error(status).2
    &&& e.status == Some(status)
    &&& e.retry_after == retry_after
}

/// The error for a media file larger than its trusted bound.
pub open spec fn oversize_message() -> Seq<char> {
    "媒体文件超过可信大小上限"@
}

/// The error for a media file that would grow past its trusted bound.
pub fn oversize_error() -> (error: DanbooruError)
    ensures
        error_is(error, DanbooruErrorKind::InvalidResponse, oversize_message(), false),
{
    plain_error(DanbooruErrorKind::InvalidResponse, "媒体文件超过可信大小上限", false)
}

/// Counts a chunk of a streamed media body: the bytes received so far, or
/// an error once they pass `max_body` (the sum saturates at `u64::MAX`).
pub fn count_media_chunk(received: u64, chunk_len: u64, max_body: u64) -> (result: Result<u64, DanbooruError>)
    ensures
        match result {
            Ok(next) => next == received.saturating_add(chunk_len) && next <= max_body,
            Err(e) => received.saturating_add(chunk_len) > max_body && error_is(
                e,
                DanbooruErrorKind::InvalidResponse,
                "媒体响应超过可信大小上限"@,
                false,
            ),
        },
{
    let next = received.saturating_add(chunk_len);
    if next > max_body {
        return Err(plain_error(DanbooruErrorKind::InvalidResponse, "媒体响应超过可信大小上限", false));
    }
    Ok(next)
}

/// Checks a finished media body against the length it was expected to
/// have, where one is known.
pub fn check_media_body_end(expected: Option<u64>, received: u64) -> (result: Result<(), DanbooruError>)
    ensures
        match result {
            Ok(()) => !(expected matches Some(length) && length != received),
            Err(e) => expected matches Some(length) && length != received && error_is(
                e,
                DanbooruErrorKind::Integrity,
                "媒体响应长度与可信预期大小不一致"@,
                true,
            ),
        },
{
    match expected {
        Some(length) => if length != received {
            return Err(plain_error(DanbooruErrorKind::Integrity, "媒体响应长度与可信预期大小不一致", true));
        },
        None => {},
    }
    Ok(())
}

/// Largest JSON answer read from the API (8 MiB).
pub const MAX_API_JSON_BYTES: u64 = 8388608;

/// Refuses a JSON answer of more than 8 MiB.
pub fn check_api_json_size(length: u64) -> (result: Result<(), DanbooruError>)
    ensures
        match result {
            Ok(()) => length <= MAX_API_JSON_BYTES,
            Err(e) => length > MAX_API_JSON_BYTES && error_is(
                e,
                DanbooruErrorKind::InvalidResponse,
                "Danbooru JSON 响应过大"@,
                false,
            ),
        },
{
    if length > MAX_API_JSON_BYTES {
        return Err(plain_error(DanbooruErrorKind::InvalidResponse, "Danbooru JSON 响应过大", false));
    }
    Ok(())
}

/// The error for an API answer that redirects.
pub fn unexpected_redirect_error(status: u16) -> (error: DanbooruError)
    ensures
        error.kind == DanbooruErrorKind::InvalidResponse,
        error.message@ == "Danbooru API 返回了未预期的重定向"@,
        !error.retryable,
        error.status == Some(status),
        error.retry_after is None,
{
    plain_error(DanbooruErrorKind::InvalidResponse, "Danbooru API 返回了未预期的重定向", false).with_status(status)
}

/// The error for an API path that does not join onto the base URL.
pub fn api_path_error(detail: &str) -> (error: DanbooruError)
    ensures
        error_is(error, DanbooruErrorKind::InvalidRequest, "API 路径无效: "@ + detail@, false),
{
    error_with_detail(DanbooruErrorKind::InvalidRequest, "API 路径无效: ", &chars_of(detail), false)
}

/// The error for a JSON answer that could not be read to the end.
pub fn json_read_error(detail: &str) -> (error: DanbooruError)
    ensures
        error_is(error, DanbooruErrorKind::Network, "Danbooru JSON 响应读取失败: "@ + detail@, true),
{
    error_with_detail(DanbooruErrorKind::Network, "Danbooru JSON 响应读取失败: ", &chars_of(detail), true)
}

/// The error for a JSON answer that does not decode.
pub fn invalid_json_error(detail: &str) -> (error: DanbooruError)
    ensures
        error_is(error, DanbooruErrorKind::InvalidResponse, "Danbooru JSON 响应无效: "@ + detail@, false),
{
    error_with_detail(DanbooruErrorKind::InvalidResponse, "Danbooru JSON 响应无效: ", &chars_of(detail), false)
}

/// The error for a media body that could not be read to the end.
pub fn media_read_error(detail: &str) -> (error: DanbooruError)
    ensures
        error_is(error, DanbooruErrorKind::Network, "媒体响应读取失败: "@ + detail@, true),
{
    error_with_detail(DanbooruErrorKind::Network, "媒体响应读取失败: ", &chars_of(detail), true)
}

/// Redirects a media request may follow.
pub const MAX_MEDIA_REDIRECTS: usize = 5;

/// Checks a media redirect: at most five are followed, and each must name
/// its target.
pub fn check_media_redirect(redirect_count: usize, has_location: bool) -> (result: Result<(), DanbooruError>)
    ensures
        match result {
            Ok(()) => redirect_count != MAX_MEDIA_REDIRECTS && has_location,
            Err(e) => if redirect_count == MAX_MEDIA_REDIRECTS {
                error_is(e, DanbooruErrorKind::InvalidResponse, "媒体重定向次数过多"@, false)
            } else {
                !has_location && error_is(e, DanbooruErrorKind::InvalidResponse, "媒体重定向缺少 Location"@, false)
            },
        },
{
    if redirect_count == MAX_MEDIA_REDIRECTS {
        return Err(plain_error(DanbooruErrorKind::InvalidResponse, "媒体重定向次数过多", false));
    }
    if !has_location {
        return Err(plain_error(DanbooruErrorKind::InvalidResponse, "媒体重定向缺少 Location", false));
    }
    Ok(())
}

/// The error for a redirect target that is not a valid URL.
pub fn invalid_redirect_error() -> (error: DanbooruError)
    ensures
        error_is(error, DanbooruErrorKind::UnsafeMediaUrl, "媒体重定向地址无效"@, false),
{
    plain_error(DanbooruErrorKind::UnsafeMediaUrl, "媒体重定向地址无效", false)
}

/// The instant an HTTP date names (`httpdate::parse_http_date`), in whole
/// seconds since the Unix epoch, or `None` where the text is no HTTP date.
pub uninterp spec fn http_date_secs(text: Seq<char>) -> Option<u64>;

/// Reads an HTTP date.
///
/// Trusted: wraps `httpdate::parse_http_date` and reads the instant as
/// seconds since the Unix epoch (its dates are whole seconds from 1970 on);
/// the contract names the result, which depends on the text alone.
#[verifier::external_body]
fn parse_http_date_secs(text: &str) -> (at: Option<u64>)
    ensures
        at == http_date_secs(text@),
{
    httpdate::parse_http_date(text)
        .ok()
        .and_then(|time| time.duration_since(std::time::UNIX_EPOCH).ok())
        .map(|since| since.as_secs())
}

/// The delay a `Retry-After` value asks for, as whole seconds and
/// nanoseconds, when the clock reads `now_secs` seconds and `now_nanos`
/// nanoseconds after the Unix epoch: the trimmed value as a whole number
/// of seconds, or else the time until the HTTP date it names (zero once
/// that date has passed); `None` for any other text.
pub open spec fn retry_after_spec(value: Seq<char>, now_secs: u64, now_nanos: u32) -> Option<(u64, u32)> {
    let text = trim_spec(value);
    match parse_u64_spec(text) {
        Some(seconds) => Some((seconds, 0u32)),
        None => match http_date_secs(text) {
            None => None,
            Some(at) => if at <= now_secs {
                Some((0u64, 0u32))
            } else if now_nanos == 0 {
                Some(((at - now_secs) as u64, 0u32))
            } else {
                Some(((at - now_secs - 1) as u64, (1000000000 - now_nanos) as u32))
            },
        },
    }
}

/// See [`retry_after_spec`].
pub fn retry_after_delay(value: &str, now_secs: u64, now_nanos: u32) -> (delay: Option<(u64, u32)>)
    requires
        now_nanos < 1000000000,
    ensures
        delay == retry_after_spec(value@, now_secs, now_nanos),
{
    let chars = chars_of(value);
    let (start, end) = trim_bounds(&chars, 0, chars.len());
    assert(chars@.subrange(0, chars@.len() as int) =~= chars@);
    let trimmed = slice_chars(&chars, start, end);
    match parse_u64(&trimmed) {
        Some(seconds) => Some((seconds, 0)),
        None => {
            let text = string_from_chars(&trimmed);
            match parse_http_date_secs(text.as_str()) {
                None => None,
                Some(at) => if at <= now_secs {
                    Some((0, 0))
                } else if now_nanos == 0 {
                    Some((at - now_secs, 0))
                } else {
                    Some((at - now_secs - 1, 1000000000 - now_nanos))
                },
            }
        },
    }
}

/// Whether to wait and repeat a rate-limited (429) request: only once, and
/// only when the delay asked for (`delay_secs` seconds and `delay_nanos`
/// nanoseconds, one second when none is given) is at most a minute.
pub fn should_wait_for_rate_limit(status: u16, retried: bool, delay_secs: u64, delay_nanos: u32) -> (wait: bool)
    ensures
        wait == (status == 429 && !retried && (delay_secs < 60 || (delay_secs == 60 && delay_nanos == 0))),
{
    status == 429 && !retried && (delay_secs < 60 || (delay_secs == 60 && delay_nanos == 0))
}

/// Checks the length of a downloaded file against the post's stated size.
pub fn check_downloaded_size(expected_size: Option<u64>, actual: u64) -> (result: Result<(), DanbooruError>)
    ensures
        match result {
            Ok(()) => !(expected_size matches Some(size) && size != actual),
            Err(e) => expected_size matches Some(size) && size != actual && error_is(
                e,
                DanbooruErrorKind::Integrity,
                "下载文件长度不匹配: 期望 Some("@ + decimal(size as nat) + ")，实际 "@ + decimal(actual as nat),
                true,
            ),
        },
{
    match expected_size {
        Some(size) => if size != actual {
            let detail = number_detail("下载文件长度不匹配: 期望 Some(", size, ")，实际 ", actual);
            return Err(DanbooruError::new(DanbooruErrorKind::Integrity, string_from_chars(&detail), true));
        },
        None => {},
    }
    Ok(())
}

/// The MD5 a download is checked against: the stated one, unless blank.
pub fn md5_to_check(expected_md5: Option<&str>) -> (md5: Option<&str>)
    ensures
        md5 == (match expected_md5 {
            Some(value) => if value@.len() > 0 {
                Some(value)
            } else {
                None
            },
            None => None,
        }),
{
    match expected_md5 {
        Some(value) => if value.unicode_len() > 0 {
            Some(value)
        } else {
            None
        },
        None => None,
    }
}

/// Compares a file's MD5 (hex) with the stated one, ASCII case ignored.
pub fn check_downloaded_md5(expected: &str, actual: &str) -> (result: Result<(), DanbooruError>)
    ensures
        match result {
            Ok(()) => ascii_lower(expected@) == ascii_lower(actual@),
            Err(e) => ascii_lower(expected@) != ascii_lower(actual@) && error_is(
                e,
                DanbooruErrorKind::Integrity,
                "下载文件 MD5 不匹配: 期望 "@ + expected@ + "，实际 "@ + actual@,
                true,
            ),
        },
{
    let left = lower_ascii_chars(&chars_of(expected));
    let right = lower_ascii_chars(&chars_of(actual));
    if !crate::text::chars_equal(&left, &right) {
        let mut detail = chars_of("下载文件 MD5 不匹配: 期望 ");
        append_chars(&mut detail, &chars_of(expected));
        append_chars(&mut detail, &chars_of("，实际 "));
        append_chars(&mut detail, &chars_of(actual));
        return Err(DanbooruError::new(DanbooruErrorKind::Integrity, string_from_chars(&detail), true));
    }
    Ok(())
}

/// Checks what the file system reports of a part file: a regular file
/// with no other hard link.
pub fn check_part_file(is_regular_file: bool, hard_links: u64) -> (result: Result<(), DanbooruError>)
    ensures
        match result {
            Ok(()) => is_regular_file && hard_links == 1,
            Err(e) => if !is_regular_file {
                error_is(e, DanbooruErrorKind::Io, "临时下载路径不是普通文件"@, false)
            } else {
                hard_links != 1 && error_is(e, DanbooruErrorKind::Io, "临时下载文件存在额外硬链接"@, false)
            },
        },
{
    if !is_regular_file {
        return Err(plain_error(DanbooruErrorKind::Io, "临时下载路径不是普通文件", false));
    }
    if hard_links != 1 {
        return Err(plain_error(DanbooruErrorKind::Io, "临时下载文件存在额外硬链接", false));
    }
    Ok(())
}

/// What to do with one media response of a (possibly resumed) download.
#[derive(Debug)]
pub enum DownloadStep {
    /// The part file already holds the whole file: finish without a body.
    AlreadyComplete,
    /// Empty the part file and request the whole file again.
    Restart,
    /// Append the body to the part file.
    Append,
    /// Empty the part file and write the body (the server ignored the range).
    Rewrite,
    /// Write the body into the empty part file.
    Write,
    /// Empty the part file and give up with [`oversize_error`]: the body
    /// would take the file past its bound.
    Oversize,
    /// Give up with this error.
    Reject(DanbooruError),
}

/// The step the download takes for a response (see [`plan_download_step`]).
pub open spec fn download_step_ok(
    step: DownloadStep,
    existing: u64,
    restarted: bool,
    status: u16,
    retry_after: Option<Duration>,
    content_type: Option<Seq<char>>,
    content_range: Option<Seq<char>>,
    content_length: Option<u64>,
    extension: Seq<char>,
    expected_size: Option<u64>,
) -> bool {
    if status == 416 {
        if expected_size == Some(existing) {
            step is AlreadyComplete
        } else if restarted {
            step matches DownloadStep::Reject(e) && is_status_error(e, status, retry_after)
        } else {
            step is Restart
        }
    } else if !(200 <= status <= 299) {
        step matches DownloadStep::Reject(e) && is_status_error(e, status, retry_after)
    } else if existing == 0 && status == 206 {
        step matches DownloadStep::Reject(e) && error_is(
            e,
            DanbooruErrorKind::Integrity,
            "完整媒体请求收到了未请求的局部响应"@,
            true,
        )
    } else if let Some(message) = content_type_problem(extension, content_type) {
        step matches DownloadStep::Reject(e) && error_is(e, DanbooruErrorKind::InvalidResponse, message, false)
    } else {
        let appending = existing > 0 && status == 206;
        let start: u64 = if appending {
            existing
        } else {
            0
        };
        if appending && content_range_spec(content_range) is None {
            step matches DownloadStep::Reject(e) && error_is(
                e,
                DanbooruErrorKind::InvalidResponse,
                "Range 响应缺少有效的 Content-Range"@,
                false,
            )
        } else if appending && content_range_problem(
            content_range_spec(content_range)->Some_0,
            existing,
            expected_size,
        ) is Some {
            step matches DownloadStep::Reject(e) && error_is(
                e,
                DanbooruErrorKind::Integrity,
                content_range_problem(content_range_spec(content_range)->Some_0, existing, expected_size)->Some_0,
                true,
            )
        } else if content_length matches Some(length) && start.saturating_add(length) > download_limit(
            expected_size,
        ) {
            step is Oversize
        } else if appending {
            step is Append
        } else if existing > 0 {
            step is Rewrite
        } else {
            step is Write
        }
    }
}

/// Decides what a download does with a media response: `existing` bytes
/// are in the part file, `restarted` tells whether the download already
/// started over once, and the header values are as received (absent when
/// missing or not visible ASCII).
pub fn plan_download_step(
    existing: u64,
    restarted: bool,
    status: u16,
    retry_after: Option<Duration>,
    content_type: Option<&str>,
    content_range: Option<&str>,
    content_length: Option<u64>,
    extension: &str,
    expected_size: Option<u64>,
) -> (step: DownloadStep)
    ensures
        download_step_ok(
            step,
            existing,
            restarted,
            status,
            retry_after,
            optional_view(content_type),
            optional_view(content_range),
            content_length,
            extension@,
            expected_size,
        ),
{
    if status == 416 {
        if expected_size == Some(existing) {
            return DownloadStep::AlreadyComplete;
        }
        if restarted {
            return DownloadStep::Reject(map_status(status, retry_after));
        }
        return DownloadStep::Restart;
    }
    if !(200 <= status && status <= 299) {
        return DownloadStep::Reject(map_status(status, retry_after));
    }
    if existing == 0 && status == 206 {
        return DownloadStep::Reject(
            plain_error(DanbooruErrorKind::Integrity, "完整媒体请求收到了未请求的局部响应", true),
        );
    }
    match validate_content_type(extension, content_type) {
        Err(error) => {
            return DownloadStep::Reject(error);
        },
        Ok(()) => {},
    }
    let appending = existing > 0 && status == 206;
    if appending {
        match validate_content_range(content_range, existing, expected_size) {
            Err(error) => {
                return DownloadStep::Reject(error);
            },
            Ok(()) => {},
        }
    }
    let start: u64 = if appending {
        existing
    } else {
        0
    };
    let limit = download_size_limit(expected_size);
    match content_length {
        Some(length) => {
            if start.saturating_add(length) > limit {
                return DownloadStep::Oversize;
            }
        },
        None => {},
    }
    if appending {
        DownloadStep::Append
    } else if existing > 0 {
        DownloadStep::Rewrite
    } else {
        DownloadStep::Write
    }
}

/// Whether writing a chunk of `chunk_len` bytes would take the file past
/// `limit` (sums saturate at `u64::MAX`).
pub fn chunk_exceeds_limit(existing: u64, received: u64, chunk_len: u64, limit: u64) -> (exceeds: bool)
    ensures
        exceeds == (existing.saturating_add(received).saturating_add(chunk_len) > limit),
{
    existing.saturating_add(received).saturating_add(chunk_len) > limit
}

/// Checks that a finished body has the length its `Content-Length` stated.
pub fn check_received_length(advertised: Option<u64>, received: u64) -> (result: Result<(), DanbooruError>)
    ensures
        match result {
            Ok(()) => !(advertised matches Some(length) && length != received),
            Err(e) => advertised matches Some(length) && length != received && error_is(
                e,
                DanbooruErrorKind::Integrity,
                "媒体响应长度与 Content-Length 不一致"@,
                true,
            ),
        },
{
    match advertised {
        Some(length) => if length != received {
            return Err(plain_error(DanbooruErrorKind::Integrity, "媒体响应长度与 Content-Length 不一致", true));
        },
        None => {},
    }
    Ok(())
}

/// The key under which downloads to `path` are serialised: the path itself,
/// since paths are case sensitive on this system.
pub fn download_lock_key(path: &PathBuf) -> (key: PathBuf)
    ensures
        key == *path,
{
    path.clone()
}

/// The final component of a path as text, where there is one and it is
/// UTF-8 (what `Path::file_name` followed by `OsStr::to_str` gives).
pub uninterp spec fn path_file_name_text(path: PathBuf) -> Option<Seq<char>>;

/// The path `Path::with_file_name` gives for `path` and `name`.
pub uninterp spec fn path_renamed(path: PathBuf, name: Seq<char>) -> PathBuf;

/// The final component of a path, where there is one and it is UTF-8.
///
/// Trusted: wraps `Path::file_name`, with the name turned into text by
/// `OsStr::to_str`; the contract claims only that the result is a function
/// of the path, named [`path_file_name_text`].
#[verifier::external_body]
fn path_file_name(path: &PathBuf) -> (name: Option<String>)
    ensures
        opt_string(name) == path_file_name_text(*path),
{
    path.file_name().and_then(|name| name.to_str()).map(|name| name.to_string())
}

/// `path` with its final component replaced by `name`.
///
/// Trusted: wraps `Path::with_file_name`; the contract claims only that the
/// result is a function of the path and the name, named [`path_renamed`].
#[verifier::external_body]
fn path_with_file_name(path: &PathBuf, name: &str) -> (renamed: PathBuf)
    ensures
        renamed == path_renamed(*path, name@),
{
    path.with_file_name(name)
}

/// The name of the partial file a download of `name` is written to.
pub fn part_file_name(name: &str) -> (part: String)
    ensures
        part@ == name@ + ".part"@,
{
    let mut text = chars_of(name);
    append_chars(&mut text, &chars_of(".part"));
    string_from_chars(&text)
}

/// The partial file beside `final_path` (its name with `.part` appended);
/// a path without a UTF-8 file name is refused.
pub fn part_path_for(final_path: &PathBuf) -> (result: Result<PathBuf, DanbooruError>)
    ensures
        match path_file_name_text(*final_path) {
            Some(name) => result matches Ok(part) && part == path_renamed(*final_path, name + ".part"@),
            None => result matches Err(e) && error_is(e, DanbooruErrorKind::InvalidTemplate, "目标文件名无效"@, false),
        },
{
    match path_file_name(final_path) {
        Some(name) => {
            let part = part_file_name(name.as_str());
            Ok(path_with_file_name(final_path, part.as_str()))
        },
        None => Err(plain_error(DanbooruErrorKind::InvalidTemplate, "目标文件名无效", false)),
    }
}

/// The outcome of a download that ran to the end: it counts as resumed
/// only when it continued a part file without starting over.
pub fn completed_download(path: PathBuf, bytes_written: u64, resumed: bool, restarted: bool) -> (outcome: ControlledDownloadOutcome)
    ensures
        outcome matches ControlledDownloadOutcome::Completed(done) && done.path == path && done.bytes_written
            == bytes_written && done.resumed == (resumed && !restarted) && !done.already_present,
{
    ControlledDownloadOutcome::Completed(
        DownloadOutcome { path, bytes_written, resumed: resumed && !restarted, already_present: false },
    )
}

/// The body bounds a media response is read with: the most bytes to read,
/// and the exact count expected where one is known.
pub open spec fn media_body_ok(
    result: Result<(u64, Option<u64>), DanbooruError>,
    status: u16,
    retry_after: Option<Duration>,
    content_type: Option<Seq<char>>,
    content_range: Option<Seq<char>>,
    content_length: Option<u64>,
    extension: Seq<char>,
    expected_size: Option<u64>,
) -> bool {
    if !(200 <= status <= 299) {
        result matches Err(e) && is_status_error(e, status, retry_after)
    } else if let Some(message) = content_type_problem(extension, content_type) {
        result matches Err(e) && error_is(e, DanbooruErrorKind::InvalidResponse, message, false)
    } else if status == 206 {
        match content_range_spec(content_range) {
            None => result matches Err(e) && error_is(
                e,
                DanbooruErrorKind::InvalidResponse,
                "Range 响应缺少有效的 Content-Range"@,
                false,
            ),
            Some(range) => if expected_size matches Some(expected) && range.total != expected {
                result matches Err(e) && error_is(
                    e,
                    DanbooruErrorKind::Integrity,
                    "媒体 Content-Range 总长度与帖子元数据不一致: 期望 "@ + decimal(expected_size->Some_0 as nat) + "，实际 "@
                        + decimal(range.total as nat),
                    true,
                )
            } else if content_length matches Some(advertised) && advertised != range.end - range.start
                + 1 {
                result matches Err(e) && error_is(
                    e,
                    DanbooruErrorKind::Integrity,
                    "媒体 Content-Length 与 Content-Range 片段长度不一致"@,
                    true,
                )
            } else {
                result == Ok::<(u64, Option<u64>), DanbooruError>(
                    (
                        (range.end - range.start + 1) as u64,
                        Some((range.end - range.start + 1) as u64),
                    ),
                )
            },
        }
    } else if expected_size matches Some(expected) && content_length matches Some(advertised)
        && advertised != expected {
        result matches Err(e) && error_is(
            e,
            DanbooruErrorKind::Integrity,
            "媒体 Content-Length 与帖子元数据不一致: 期望 "@ + decimal(expected_size->Some_0 as nat) + "，实际 "@
                + decimal(content_length->Some_0 as nat),
            true,
        )
    } else {
        let known = if expected_size is Some {
            expected_size
        } else {
            content_length
        };
        result == Ok::<(u64, Option<u64>), DanbooruError>((download_limit(known), known))
    }
}

fn number_detail(prefix: &str, first: u64, middle: &str, second: u64) -> (detail: Vec<char>)
    ensures
        detail@ == prefix@ + decimal(first as nat) + middle@ + decimal(second as nat),
{
    let mut detail = chars_of(prefix);
    append_chars(&mut detail, &u64_to_chars(first));
    append_literal(&mut detail, middle);
    append_chars(&mut detail, &u64_to_chars(second));
    detail
}

/// Checks a media response before its body is read and gives the bounds to
/// read it with (see [`media_body_ok`]).
pub fn plan_media_body(
    status: u16,
    retry_after: Option<Duration>,
    content_type: Option<&str>,
    content_range: Option<&str>,
    content_length: Option<u64>,
    extension: &str,
    expected_size: Option<u64>,
) -> (result: Result<(u64, Option<u64>), DanbooruError>)
    ensures
        media_body_ok(
            result,
            status,
            retry_after,
            optional_view(content_type),
            optional_view(content_range),
            content_length,
            extension@,
            expected_size,
        ),
{
    if !(200 <= status && status <= 299) {
        return Err(map_status(status, retry_after));
    }
    match validate_content_type(extension, content_type) {
        Err(error) => {
            return Err(error);
        },
        Ok(()) => {},
    }
    if status == 206 {
        let range = match parse_content_range(content_range) {
            Err(error) => {
                return Err(error);
            },
            Ok(range) => range,
        };
        match expected_size {
            Some(expected) => if range.total != expected {
                let detail = number_detail("媒体 Content-Range 总长度与帖子元数据不一致: 期望 ", expected, "，实际 ", range.total);
                return Err(DanbooruError::new(DanbooruErrorKind::Integrity, string_from_chars(&detail), true));
            },
            None => {},
        }
        let segment = range.end - range.start + 1;
        match content_length {
            Some(advertised) => if advertised != segment {
                return Err(
                    plain_error(
                        DanbooruErrorKind::Integrity,
                        "媒体 Content-Length 与 Content-Range 片段长度不一致",
                        true,
                    ),
                );
            },
            None => {},
        }
        return Ok((segment, Some(segment)));
    }
    match (expected_size, content_length) {
        (Some(expected), Some(advertised)) => if advertised != expected {
            let detail = number_detail("媒体 Content-Length 与帖子元数据不一致: 期望 ", expected, "，实际 ", advertised);
            return Err(DanbooruError::new(DanbooruErrorKind::Integrity, string_from_chars(&detail), true));
        },
        _ => {},
    }
    let known = match expected_size {
        Some(size) => Some(size),
        None => content_length,
    };
    Ok((download_size_limit(known), known))
}

// ---------------------------------------------------------------------
// Media URLs
// ---------------------------------------------------------------------

#[verifier::external_type_specification]
#[verifier::external_body]
pub struct ExUrl(Url);

/// The components of a parsed URL that the checks read.
pub struct UrlParts {
    pub scheme: String,
    pub username: String,
    pub password: Option<String>,
    pub host: Option<String>,
    pub path: String,
    pub query: Option<String>,
    pub fragment: Option<String>,
    pub port: Option<u16>,
}

/// The components of a parsed URL, as text.
pub struct UrlPartsView {
    pub scheme: Seq<char>,
    pub username: Seq<char>,
    pub password: Option<Seq<char>>,
    pub host: Option<Seq<char>>,
    pub path: Seq<char>,
    pub query: Option<Seq<char>>,
    pub fragment: Option<Seq<char>>,
    pub port: Option<u16>,
}

/// The view of an optional `String`.
pub open spec fn opt_string(value: Option<String>) -> Option<Seq<char>> {
    match value {
        Some(text) => Some(text@),
        None => None,
    }
}

impl View for UrlParts {
    type V = UrlPartsView;

    open spec fn view(&self) -> UrlPartsView {
        UrlPartsView {
            scheme: self.scheme@,
            username: self.username@,
            password: opt_string(self.password),
            host: opt_string(self.host),
            path: self.path@,
            query: opt_string(self.query),
            fragment: opt_string(self.fragment),
            port: self.port,
        }
    }
}

/// The components `Url::parse` gives for a text, or `None` where it
/// rejects the text.
pub uninterp spec fn parsed_url(text: Seq<char>) -> Option<UrlPartsView>;

/// The URL `Url::parse` gives for a text it accepts.
pub uninterp spec fn parsed_url_value(text: Seq<char>) -> Url;

/// The URL `Url::set_path` leaves after setting the path of `url` to
/// `path`.
pub uninterp spec fn url_with_path(url: Url, path: Seq<char>) -> Url;

/// The URL parsed from `text` with a `/` added to its path where the path
/// does not already end with one.
pub open spec fn slash_terminated_url(text: Seq<char>) -> Url {
    match parsed_url(text) {
        Some(parts) => if parts.path.len() == 0 || parts.path.last() != '/' {
            url_with_path(parsed_url_value(text), parts.path.push('/'))
        } else {
            parsed_url_value(text)
        },
        None => parsed_url_value(text),
    }
}

/// Parses a URL and reads its components.
///
/// Trusted: wraps `url::Url::parse` and reads the result with its getters
/// (`scheme`, `username`, `password`, `host_str`, `path`, `query`,
/// `fragment`, `port_or_known_default`); the contract names what it
/// returns, the URL and its parts, which depend on the text alone.
#[verifier::external_body]
pub(crate) fn parse_url(text: &str) -> (parsed: Option<(Url, UrlParts)>)
    ensures
        match parsed {
            Some((url, parts)) => parsed_url(text@) == Some(parts@) && url == parsed_url_value(text@),
            None => parsed_url(text@) is None,
        },
{
    let url = Url::parse(text).ok()?;
    let parts = UrlParts {
        scheme: url.scheme().to_owned(),
        username: url.username().to_owned(),
        password: url.password().map(str::to_owned),
        host: url.host_str().map(str::to_owned),
        path: url.path().to_owned(),
        query: url.query().map(str::to_owned),
        fragment: url.fragment().map(str::to_owned),
        port: url.port_or_known_default(),
    };
    Some((url, parts))
}

/// Replaces the path of a URL.
///
/// Trusted: wraps `url::Url::set_path`; the contract claims only that the
/// new URL is a function of the old one and the path, named
/// [`url_with_path`].
#[verifier::external_body]
pub(crate) fn set_url_path(url: &mut Url, path: &str)
    ensures
        *final(url) == url_with_path(*old(url), path@),
{
    url.set_path(path)
}

/// The lower-case extension of the last path segment of a URL, if the URL
/// parses, has a hierarchical path and its last segment holds a `.`.
pub open spec fn url_extension(text: Seq<char>) -> Option<Seq<char>> {
    match parsed_url(text) {
        None => None,
        Some(parts) => if parts.path.len() > 0 && parts.path[0] == '/' {
            let last = split_when(parts.path.drop_first(), one_of(seq!['/'])).last();
            match crate::text::last_index_of(last, '.') {
                None => None,
                Some(dot) => Some(ascii_lower(last.skip(dot + 1))),
            }
        } else {
            None
        },
    }
}

/// See [`url_extension`].
pub fn extension_from_url(url: &str) -> (extension: Option<String>)
    ensures
        opt_string(extension) == url_extension(url@),
{
    let parts = match parse_url(url) {
        None => {
            return None;
        },
        Some((_, parts)) => parts,
    };
    let path = chars_of(parts.path.as_str());
    assert(parsed_url(url@) == Some(parts@));
    assert(parts@.path == path@);
    if path.len() == 0 || path[0] != '/' {
        return None;
    }
    let tail = slice_chars(&path, 1, path.len());
    assert(tail@ =~= path@.drop_first());
    let slash = vec!['/'];
    assert(slash@ =~= seq!['/']);
    let pieces = split_on(&tail, &slash);
    proof {
        lemma_split_when_nonempty(tail@, one_of(slash@));
    }
    let last = &pieces[pieces.len() - 1];
    assert(last@ == split_when(tail@, one_of(seq!['/'])).last());
    match crate::text::find_last_char(last, '.') {
        None => None,
        Some(dot) => {
            let after = slice_chars(last, dot + 1, last.len());
            assert(after@ =~= last@.skip(dot + 1));
            let lowered = lower_ascii_chars(&after);
            Some(string_from_chars(&lowered))
        },
    }
}

/// A dotted-decimal IPv4 octet as URL hosts write it: one to three digits,
/// no leading zero, at most 255.
pub open spec fn is_ipv4_octet(s: Seq<char>) -> bool {
    &&& 1 <= s.len() <= 3
    &&& crate::text::all_ascii_digits(s)
    &&& (s.len() == 1 || s[0] != '0')
    &&& crate::text::digits_value(s) <= 255
}

/// A host with the brackets of an IPv6 literal removed.
pub open spec fn unbracketed(host: Seq<char>) -> Seq<char> {
    if host.len() >= 2 && host[0] == '[' && host.last() == ']' {
        host.subrange(1, host.len() - 1)
    } else {
        host
    }
}

/// Every piece is an IPv4 octet.
pub open spec fn all_ipv4_octets(octets: Seq<Seq<char>>) -> bool {
    forall|i: int| 0 <= i < octets.len() ==> is_ipv4_octet(#[trigger] octets[i])
}

/// An IPv4 address in `127.0.0.0/8`, written as URL hosts write it.
pub open spec fn is_loopback_ipv4(s: Seq<char>) -> bool {
    let octets = split_when(s, one_of(seq!['.']));
    octets.len() == 4 && octets[0] == "127"@ && all_ipv4_octets(octets)
}

/// A loopback address as URL parsing writes hosts: `localhost` in any
/// case, an IPv4 address in `127.0.0.0/8`, or the IPv6 address `::1`.
pub open spec fn is_loopback_text(bare: Seq<char>) -> bool {
    ||| ascii_lower(bare) == "localhost"@
    ||| bare == "::1"@
    ||| is_loopback_ipv4(bare)
}

/// A loopback host (see [`is_loopback_text`]), the brackets of an IPv6
/// host removed first.
pub open spec fn is_loopback_host_spec(host: Seq<char>) -> bool {
    is_loopback_text(unbracketed(host))
}

fn is_ipv4_octet_exec(s: &Vec<char>) -> (octet: bool)
    ensures
        octet == is_ipv4_octet(s@),
{
    if s.len() < 1 || s.len() > 3 {
        return false;
    }
    let mut index: usize = 0;
    while index < s.len()
        invariant
            index <= s.len(),
            forall|i: int| 0 <= i < index ==> crate::text::is_ascii_digit(#[trigger] s@[i]),
        decreases s.len() - index,
    {
        if !('0' <= s[index] && s[index] <= '9') {
            return false;
        }
        index += 1;
    }
    if s.len() > 1 && s[0] == '0' {
        return false;
    }
    assert(crate::text::unsigned_digits(s@) == s@);
    match parse_u64(s) {
        Some(value) => value <= 255,
        None => false,
    }
}

/// Whether a URL host is a loopback host (see [`is_loopback_host_spec`]).
pub fn is_loopback_host(host: &str) -> (loopback: bool)
    ensures
        loopback == is_loopback_host_spec(host@),
{
    let chars = chars_of(host);
    let bare = if chars.len() >= 2 && chars[0] == '[' && chars[chars.len() - 1] == ']' {
        slice_chars(&chars, 1, chars.len() - 1)
    } else {
        crate::text::copy_chars(&chars)
    };
    is_loopback_text_exec(&bare)
}

/// Whether a bare host is a loopback address (see [`is_loopback_text`]).
pub fn is_loopback_text_exec(bare: &Vec<char>) -> (loopback: bool)
    ensures
        loopback == is_loopback_text(bare@),
{
    let lowered = lower_ascii_chars(bare);
    if chars_equal_str(&lowered, "localhost") || chars_equal_str(bare, "::1") {
        return true;
    }
    let dot = vec!['.'];
    assert(dot@ =~= seq!['.']);
    let octets = split_on(bare, &dot);
    let ghost views = split_when(bare@, one_of(seq!['.']));
    assert(crate::text::char_views(octets@) == views);
    assert(octets.len() == views.len());
    if octets.len() == 4 {
        assert(octets@[0]@ == views[0]);
    }
    if octets.len() != 4 || !chars_equal_str(&octets[0], "127") {
        return false;
    }
    let mut index: usize = 0;
    while index < 4
        invariant
            index <= 4,
            octets.len() == 4,
            crate::text::char_views(octets@) == views,
            forall|i: int| 0 <= i < index ==> is_ipv4_octet(#[trigger] views[i]),
            views == split_when(bare@, one_of(seq!['.'])),
            views[0] == "127"@,
            ascii_lower(bare@) != "localhost"@,
            bare@ != "::1"@,
        decreases 4 - index,
    {
        assert(octets@[index as int]@ == views[index as int]);
        if !is_ipv4_octet_exec(&octets[index]) {
            return false;
        }
        index += 1;
    }
    true
}

/// The message of the first rule a media URL breaks, if any.
pub open spec fn media_url_problem(
    candidate: Seq<char>,
    trusted_hosts: Seq<Seq<char>>,
    base_is_loopback: bool,
) -> Option<Seq<char>> {
    match parsed_url(candidate) {
        None => Some("媒体地址格式无效"@),
        Some(parts) => if parts.username.len() > 0 || parts.password is Some || parts.fragment is Some {
            Some("媒体地址不能包含用户信息或片段"@)
        } else {
            match parts.host {
                None => Some("媒体地址缺少主机名"@),
                Some(raw_host) => {
                    let host = ascii_lower(raw_host);
                    if !trusted_hosts.contains(host) {
                        Some("媒体主机不在允许列表: "@ + host)
                    } else if parts.scheme != "https"@ && !(parts.scheme == "http"@
                        && is_loopback_host_spec(host) && base_is_loopback) {
                        Some("媒体地址必须使用 HTTPS"@)
                    } else {
                        None
                    }
                },
            }
        },
    }
}

/// Where media may be fetched from: the trusted hosts (lower case) and
/// whether the API itself is served from a loopback host.
pub struct MediaPolicy {
    pub trusted_media_hosts: Vec<String>,
    pub base_is_loopback: bool,
}

impl MediaPolicy {
    /// The trusted hosts as text.
    pub open spec fn hosts(&self) -> Seq<Seq<char>> {
        string_views(self.trusted_media_hosts@)
    }

    /// Checks a media URL: it parses, carries no credentials or fragment,
    /// names a trusted host and uses HTTPS (plain HTTP only between
    /// loopback hosts).
    pub fn validate_media_url(&self, candidate: &str) -> (result: Result<Url, DanbooruError>)
        ensures
            match (result, media_url_problem(candidate@, self.hosts(), self.base_is_loopback)) {
                (Ok(url), None) => url == parsed_url_value(candidate@),
                (Err(e), Some(message)) => error_is(e, DanbooruErrorKind::UnsafeMediaUrl, message, false),
                _ => false,
            },
    {
        let (url, parts) = match parse_url(candidate) {
            None => {
                return Err(plain_error(DanbooruErrorKind::UnsafeMediaUrl, "媒体地址格式无效", false));
            },
            Some(parsed) => parsed,
        };
        let username = chars_of(parts.username.as_str());
        if username.len() > 0 || parts.password.is_some() || parts.fragment.is_some() {
            return Err(
                plain_error(DanbooruErrorKind::UnsafeMediaUrl, "媒体地址不能包含用户信息或片段", false),
            );
        }
        let raw_host = match &parts.host {
            None => {
                return Err(plain_error(DanbooruErrorKind::UnsafeMediaUrl, "媒体地址缺少主机名", false));
            },
            Some(host) => chars_of(host.as_str()),
        };
        let host = lower_ascii_chars(&raw_host);
        if !self.is_trusted(&host) {
            return Err(error_with_detail(DanbooruErrorKind::UnsafeMediaUrl, "媒体主机不在允许列表: ", &host, false));
        }
        let host_text = string_from_chars(&host);
        let loopback = is_loopback_host(host_text.as_str());
        let scheme = chars_of(parts.scheme.as_str());
        if !chars_equal_str(&scheme, "https") && !(chars_equal_str(&scheme, "http") && loopback
            && self.base_is_loopback) {
            return Err(plain_error(DanbooruErrorKind::UnsafeMediaUrl, "媒体地址必须使用 HTTPS", false));
        }
        Ok(url)
    }

    fn is_trusted(&self, host: &Vec<char>) -> (trusted: bool)
        ensures
            trusted == self.hosts().contains(host@),
    {
        let ghost hosts = self.hosts();
        let mut index: usize = 0;
        while index < self.trusted_media_hosts.len()
            invariant
                index <= self.trusted_media_hosts.len(),
                hosts == self.hosts(),
                forall|i: int| 0 <= i < index ==> hosts[i] != host@,
            decreases self.trusted_media_hosts.len() - index,
        {
            let candidate = chars_of(self.trusted_media_hosts[index].as_str());
            assert(hosts[index as int] == candidate@);
            if chars_equal(&candidate, host) {
                return true;
            }
            index += 1;
        }
        false
    }
}

/// The message of the first rule the API base URL breaks, if any.
pub open spec fn base_url_problem(candidate: Seq<char>) -> Option<Seq<char>> {
    match parsed_url(candidate) {
        None => Some("Danbooru base URL 无效"@),
        Some(parts) => if parts.username.len() > 0 || parts.password is Some || parts.query is Some
            || parts.fragment is Some {
            Some("Danbooru base URL 不能包含凭据、查询或片段"@)
        } else {
            match parts.host {
                None => Some("Danbooru base URL 缺少主机名"@),
                Some(host) => if parts.scheme != "https"@ && !(parts.scheme == "http"@
                    && is_loopback_host_spec(host)) {
                    Some("Danbooru base URL 必须使用 HTTPS；测试仅允许 loopback HTTP"@)
                } else {
                    None
                },
            }
        },
    }
}

/// Parses and checks the API base URL: no credentials, query or fragment,
/// a host, HTTPS (plain HTTP only for a loopback host); a path without a
/// trailing `/` gets one so that endpoints join below it.  Also gives the
/// URL's host.
pub fn parse_base_url(candidate: &str) -> (result: Result<(Url, String), DanbooruError>)
    ensures
        match (result, base_url_problem(candidate@)) {
            (Ok((url, host)), None) => parsed_url(candidate@) matches Some(parts) && parts.host == Some(
                host@,
            ) && url == slash_terminated_url(candidate@),
            (Err(e), Some(message)) => error_is(e, DanbooruErrorKind::InvalidRequest, message, false),
            _ => false,
        },
{
    let (mut url, parts) = match parse_url(candidate) {
        None => {
            return Err(plain_error(DanbooruErrorKind::InvalidRequest, "Danbooru base URL 无效", false));
        },
        Some(parsed) => parsed,
    };
    let username = chars_of(parts.username.as_str());
    if username.len() > 0 || parts.password.is_some() || parts.query.is_some()
        || parts.fragment.is_some() {
        return Err(
            plain_error(
                DanbooruErrorKind::InvalidRequest,
                "Danbooru base URL 不能包含凭据、查询或片段",
                false,
            ),
        );
    }
    let host = match &parts.host {
        None => {
            return Err(plain_error(DanbooruErrorKind::InvalidRequest, "Danbooru base URL 缺少主机名", false));
        },
        Some(host) => crate::text::copy_string(host),
    };
    let scheme = chars_of(parts.scheme.as_str());
    if !chars_equal_str(&scheme, "https") && !(chars_equal_str(&scheme, "http") && is_loopback_host(
        host.as_str(),
    )) {
        return Err(
            plain_error(
                DanbooruErrorKind::InvalidRequest,
                "Danbooru base URL 必须使用 HTTPS；测试仅允许 loopback HTTP",
                false,
            ),
        );
    }
    let path = chars_of(parts.path.as_str());
    if path.len() == 0 || path[path.len() - 1] != '/' {
        let mut fixed = crate::text::copy_chars(&path);
        fixed.push('/');
        let fixed_text = string_from_chars(&fixed);
        set_url_path(&mut url, fixed_text.as_str());
    }
    Ok((url, host))
}

impl MediaPolicy {
    /// The policy of a client for `base_url`: the configured hosts and the
    /// API host, all in lower case.
    pub fn for_client(base_url: &str, trusted_media_hosts: &Vec<String>) -> (result: Result<(Url, MediaPolicy), DanbooruError>)
        ensures
            match (result, base_url_problem(base_url@)) {
                (Ok((url, policy)), None) => parsed_url(base_url@) matches Some(parts) && parts.host matches Some(
                    host,
                ) && policy.hosts() == string_views(trusted_media_hosts@).map_values(
                    |h: Seq<char>| ascii_lower(h),
                ).push(ascii_lower(host)) && policy.base_is_loopback == is_loopback_host_spec(host) && url == slash_terminated_url(base_url@),
                (Err(e), Some(message)) => error_is(e, DanbooruErrorKind::InvalidRequest, message, false),
                _ => false,
            },
    {
        let (url, host) = match parse_base_url(base_url) {
            Err(error) => {
                return Err(error);
            },
            Ok(parsed) => parsed,
        };
        let ghost configured = string_views(trusted_media_hosts@);
        let mut hosts: Vec<String> = Vec::new();
        let mut index: usize = 0;
        while index < trusted_media_hosts.len()
            invariant
                index <= trusted_media_hosts.len(),
                configured == string_views(trusted_media_hosts@),
                string_views(hosts@) == configured.take(index as int).map_values(
                    |h: Seq<char>| ascii_lower(h),
                ),
            decreases trusted_media_hosts.len() - index,
        {
            let lowered = lower_ascii_chars(&chars_of(trusted_media_hosts[index].as_str()));
            let ghost before = string_views(hosts@);
            assert(configured[index as int] == trusted_media_hosts@[index as int]@);
            assert(configured.take(index + 1) =~= configured.take(index as int).push(configured[index as int]));
            hosts.push(string_from_chars(&lowered));
            assert(string_views(hosts@) =~= before.push(ascii_lower(configured[index as int])));
            index += 1;
        }
        assert(configured.take(configured.len() as int) =~= configured);
        let ghost before = string_views(hosts@);
        let host_chars = chars_of(host.as_str());
        let lowered_host = lower_ascii_chars(&host_chars);
        hosts.push(string_from_chars(&lowered_host));
        assert(string_views(hosts@) =~= before.push(ascii_lower(host@)));
        let base_is_loopback = is_loopback_host(host.as_str());
        Ok((url, MediaPolicy { trusted_media_hosts: hosts, base_is_loopback }))
    }
}

// ---------------------------------------------------------------------
// Posts and media selection
// ---------------------------------------------------------------------

/// A post as the API returns it (the duration of animated posts is left
/// out: nothing here reads it).
#[derive(Debug, Clone, Default)]
pub struct Post {
    pub id: u64,
    pub created_at: Option<String>,
    pub uploader_id: Option<u64>,
    pub score: i64,
    pub source: String,
    pub md5: Option<String>,
    pub rating: String,
    pub image_width: u32,
    pub image_height: u32,
    pub tag_string: String,
    pub tag_string_general: String,
    pub tag_string_artist: String,
    pub tag_string_copyright: String,
    pub tag_string_character: String,
    pub tag_string_meta: String,
    pub file_ext: Option<String>,
    pub file_size: Option<u64>,
    pub file_url: Option<String>,
    pub large_file_url: Option<String>,
    pub preview_file_url: Option<String>,
    pub fav_count: u64,
    pub media_asset: Option<MediaAsset>,
}

/// A media file chosen for download.
#[derive(Debug)]
pub struct MediaSource {
    pub post_id: u64,
    pub variant: MediaVariant,
    pub url: Url,
    pub extension: String,
    pub expected_size: Option<u64>,
    pub expected_md5: Option<String>,
}

/// The renditions a post's variants are searched for.
#[derive(Debug, Clone, Copy, PartialEq, Eq, Structural)]
pub enum Rendition {
    /// A still image other than the original.
    StillSample,
    /// The WebM conversion of an animation.
    UgoiraWebm,
}

/// The variants of a post's media asset.
pub open spec fn post_variants(post: Post) -> Seq<MediaAssetVariant> {
    match post.media_asset {
        Some(asset) => asset.variants@,
        None => Seq::empty(),
    }
}

/// A variant is a still image other than the original.
pub open spec fn is_still_sample(v: MediaAssetVariant) -> bool {
    &&& v.variant_type@ != "original"@
    &&& ((v.file_ext matches Some(e) && is_static_image_extension_spec(e@)) || (v.url matches Some(u)
        && url_extension(u@) matches Some(e) && is_static_image_extension_spec(e)))
}

/// A variant is the WebM rendition.
pub open spec fn is_webm_variant(v: MediaAssetVariant) -> bool {
    (v.file_ext matches Some(e) && e@ == "webm"@) || (v.url matches Some(u) && url_extension(u@) == Some(
        "webm"@,
    ))
}

/// A variant with a non-empty URL that is of the wanted rendition.
pub open spec fn rendition_wanted(v: MediaAssetVariant, wanted: Rendition) -> bool {
    &&& v.url matches Some(u) && u@.len() > 0
    &&& match wanted {
        Rendition::StillSample => is_still_sample(v),
        Rendition::UgoiraWebm => is_webm_variant(v),
    }
}

/// Pixel area of a variant (a missing side counts as 0).
pub open spec fn variant_area(v: MediaAssetVariant) -> int {
    (match v.width {
        Some(w) => w as int,
        None => 0,
    }) * (match v.height {
        Some(h) => h as int,
        None => 0,
    })
}

/// The index of the largest wanted variant, the last one among equals.
pub open spec fn best_variant(variants: Seq<MediaAssetVariant>, wanted: Rendition) -> Option<int>
    decreases variants.len(),
{
    if variants.len() == 0 {
        None
    } else {
        let earlier = best_variant(variants.drop_last(), wanted);
        if rendition_wanted(variants.last(), wanted) {
            match earlier {
                Some(i) => if variant_area(variants.last()) >= variant_area(variants[i]) {
                    Some(variants.len() - 1)
                } else {
                    Some(i)
                },
                None => Some(variants.len() - 1),
            }
        } else {
            earlier
        }
    }
}

proof fn lemma_best_variant_bounds(variants: Seq<MediaAssetVariant>, wanted: Rendition)
    ensures
        best_variant(variants, wanted) matches Some(i) ==> 0 <= i < variants.len() && rendition_wanted(
            variants[i],
            wanted,
        ),
    decreases variants.len(),
{
    if variants.len() > 0 {
        lemma_best_variant_bounds(variants.drop_last(), wanted);
    }
}

/// The chosen variant is a wanted one at least as large as every other
/// wanted one; none is chosen only when no variant is wanted.
proof fn lemma_best_variant_largest(variants: Seq<MediaAssetVariant>, wanted: Rendition)
    ensures
        best_variant(variants, wanted) matches Some(i) ==> 0 <= i < variants.len() && rendition_wanted(variants[i], wanted)
            && forall|j: int| 0 <= j < variants.len() && #[trigger] rendition_wanted(variants[j], wanted) ==> variant_area(
            variants[j],
        ) <= variant_area(variants[i]),
        best_variant(variants, wanted) is None ==> forall|j: int| 0 <= j < variants.len() ==> !#[trigger] rendition_wanted(
            variants[j],
            wanted,
        ),
    decreases variants.len(),
{
    if variants.len() > 0 {
        let front = variants.drop_last();
        lemma_best_variant_largest(front, wanted);
        let n = front.len() as int;
        let last = variants[n];
        assert forall|j: int| 0 <= j < n implies #[trigger] front[j] == variants[j] by {}
        if let Some(i) = best_variant(variants, wanted) {
            assert forall|j: int| 0 <= j < variants.len() && #[trigger] rendition_wanted(variants[j], wanted) implies variant_area(
                variants[j],
            ) <= variant_area(variants[i]) by {
                if j < n {
                    assert(front[j] == variants[j]);
                    assert(rendition_wanted(front[j], wanted));
                    if let Some(e) = best_variant(front, wanted) {
                        assert(front[e] == variants[e]);
                    }
                }
            }
        } else {
            assert forall|j: int| 0 <= j < variants.len() implies !#[trigger] rendition_wanted(variants[j], wanted) by {
                if j < n {
                    assert(front[j] == variants[j]);
                }
            }
        }
    }
}

/// Variant `i` is a wanted rendition at `url`, at least as large as every
/// other wanted one.
pub open spec fn largest_wanted_at(variants: Seq<MediaAssetVariant>, wanted: Rendition, i: int, url: Seq<char>) -> bool {
    &&& 0 <= i < variants.len()
    &&& rendition_wanted(variants[i], wanted)
    &&& opt_string(variants[i].url) == Some(url)
    &&& forall|j: int| 0 <= j < variants.len() && #[trigger] rendition_wanted(variants[j], wanted) ==> variant_area(variants[j])
        <= variant_area(variants[i])
}

/// No variant is a wanted rendition.
pub open spec fn none_wanted(variants: Seq<MediaAssetVariant>, wanted: Rendition) -> bool {
    forall|j: int| 0 <= j < variants.len() ==> !#[trigger] rendition_wanted(variants[j], wanted)
}

/// A sample is the largest still rendition of the post's media asset that
/// has an address; without one, the large file or the preview.  A Ugoira
/// WebM is the largest WebM rendition, always with the extension `webm`,
/// and is refused as unsupported when the asset has none.
pub proof fn law_renditions_take_the_largest_variant(post: Post, hosts: Seq<Seq<char>>, base_is_loopback: bool)
    ensures
        resolved_media(post, MediaVariant::Sample, hosts, base_is_loopback) matches Ok(choice) ==> ((exists|i: int|
            #[trigger] largest_wanted_at(post_variants(post), Rendition::StillSample, i, choice.0)) || (none_wanted(
            post_variants(post),
            Rendition::StillSample,
        ) && (resolves_to(resolved_media(post, MediaVariant::Sample, hosts, base_is_loopback), post.large_file_url)
            || resolves_to(resolved_media(post, MediaVariant::Sample, hosts, base_is_loopback), post.preview_file_url)))),
        resolved_media(post, MediaVariant::UgoiraWebm, hosts, base_is_loopback) matches Ok(choice) ==> (choice.1 == "webm"@
            && exists|i: int| #[trigger] largest_wanted_at(post_variants(post), Rendition::UgoiraWebm, i, choice.0)),
        none_wanted(post_variants(post), Rendition::UgoiraWebm) ==> (resolved_media(
            post,
            MediaVariant::UgoiraWebm,
            hosts,
            base_is_loopback,
        ) matches Err(problem) && problem.0 == DanbooruErrorKind::UnsupportedMedia),
{
    let variants = post_variants(post);
    lemma_best_variant_largest(variants, Rendition::StillSample);
    lemma_best_variant_largest(variants, Rendition::UgoiraWebm);
    if let Some(i) = best_variant(variants, Rendition::UgoiraWebm) {
        if let Ok(choice) = resolved_media(post, MediaVariant::UgoiraWebm, hosts, base_is_loopback) {
            assert(largest_wanted_at(variants, Rendition::UgoiraWebm, i, choice.0));
        }
        if none_wanted(variants, Rendition::UgoiraWebm) {
            assert(!rendition_wanted(variants[i], Rendition::UgoiraWebm));
        }
    }
    if let Some(i) = best_variant(variants, Rendition::StillSample) {
        if let Ok(choice) = resolved_media(post, MediaVariant::Sample, hosts, base_is_loopback) {
            assert(largest_wanted_at(variants, Rendition::StillSample, i, choice.0));
        }
    }
}

fn is_static_extension_of_url(url: &Option<String>) -> (still: bool)
    ensures
        still == (url matches Some(u) && url_extension(u@) matches Some(e) && is_static_image_extension_spec(e)),
{
    match url {
        Some(u) => match extension_from_url(u.as_str()) {
            Some(e) => is_static_image_extension(e.as_str()),
            None => false,
        },
        None => false,
    }
}

fn is_webm_extension_of_url(url: &Option<String>) -> (webm: bool)
    ensures
        webm == (url matches Some(u) && url_extension(u@) == Some("webm"@)),
{
    match url {
        Some(u) => match extension_from_url(u.as_str()) {
            Some(e) => {
                let chars = chars_of(e.as_str());
                chars_equal_str(&chars, "webm")
            },
            None => false,
        },
        None => false,
    }
}

fn is_wanted(v: &MediaAssetVariant, wanted: Rendition) -> (found: bool)
    ensures
        found == rendition_wanted(*v, wanted),
{
    let has_url = match &v.url {
        Some(u) => u.as_str().unicode_len() > 0,
        None => false,
    };
    if !has_url {
        return false;
    }
    match wanted {
        Rendition::StillSample => {
            let kind = chars_of(v.variant_type.as_str());
            if chars_equal_str(&kind, "original") {
                return false;
            }
            let by_ext = match &v.file_ext {
                Some(e) => is_static_image_extension(e.as_str()),
                None => false,
            };
            by_ext || is_static_extension_of_url(&v.url)
        },
        Rendition::UgoiraWebm => {
            let by_ext = match &v.file_ext {
                Some(e) => {
                    let chars = chars_of(e.as_str());
                    chars_equal_str(&chars, "webm")
                },
                None => false,
            };
            by_ext || is_webm_extension_of_url(&v.url)
        },
    }
}

fn area_of(v: &MediaAssetVariant) -> (area: u64)
    ensures
        area == variant_area(*v),
{
    let w: u64 = match v.width {
        Some(w) => w as u64,
        None => 0,
    };
    let h: u64 = match v.height {
        Some(h) => h as u64,
        None => 0,
    };
    assert(w * h <= 0xffff_ffff * 0xffff_ffff) by (nonlinear_arith)
        requires
            w <= 0xffff_ffff,
            h <= 0xffff_ffff,
    ;
    w * h
}

/// The largest variant of the wanted rendition (the last among equals).
pub fn select_asset_variant(post: &Post, wanted: Rendition) -> (result: Result<&MediaAssetVariant, DanbooruError>)
    ensures
        match best_variant(post_variants(*post), wanted) {
            Some(i) => result matches Ok(v) && *v == post_variants(*post)[i],
            None => result matches Err(e) && error_is(
                e,
                DanbooruErrorKind::UnsupportedMedia,
                "帖子缺少请求的媒体 variant"@,
                false,
            ),
        },
{
    let asset = match &post.media_asset {
        None => {
            return Err(plain_error(DanbooruErrorKind::UnsupportedMedia, "帖子缺少请求的媒体 variant", false));
        },
        Some(asset) => asset,
    };
    let variants = &asset.variants;
    let mut best: Option<usize> = None;
    let mut best_area: u64 = 0;
    let mut index: usize = 0;
    while index < variants.len()
        invariant
            index <= variants.len(),
            variants@ == post_variants(*post),
            match best {
                Some(b) => best_variant(variants@.take(index as int), wanted) == Some(b as int) && b
                    < index && best_area == variant_area(variants@[b as int]),
                None => best_variant(variants@.take(index as int), wanted) is None,
            },
        decreases variants.len() - index,
    {
        proof {
            let next = variants@.take(index + 1);
            assert(next.drop_last() =~= variants@.take(index as int));
            assert(next.last() == variants@[index as int]);
            lemma_best_variant_bounds(variants@.take(index as int), wanted);
            if let Some(b) = best {
                assert(next[b as int] == variants@[b as int]);
            }
        }
        let item = &variants[index];
        if is_wanted(item, wanted) {
            let area = area_of(item);
            match best {
                Some(_) => {
                    if area >= best_area {
                        best = Some(index);
                        best_area = area;
                    }
                },
                None => {
                    best = Some(index);
                    best_area = area;
                },
            }
        }
        index += 1;
    }
    assert(variants@.take(variants.len() as int) =~= variants@);
    match best {
        Some(b) => Ok(&variants[b]),
        None => Err(plain_error(DanbooruErrorKind::UnsupportedMedia, "帖子缺少请求的媒体 variant", false)),
    }
}

/// An optional text, empty when absent.
pub open spec fn text_or_empty(value: Option<Seq<char>>) -> Seq<char> {
    match value {
        Some(text) => text,
        None => Seq::empty(),
    }
}

/// A media file as chosen from a post: address, extension, stated size and
/// MD5.
pub type MediaChoice = (Seq<char>, Seq<char>, Option<u64>, Option<Seq<char>>);

/// An address with the extension read from the URL.
pub open spec fn choice_from_url(url: Seq<char>) -> Result<MediaChoice, (DanbooruErrorKind, Seq<char>)> {
    match extension_result(text_or_empty(url_extension(url))) {
        Err(message) => Err((DanbooruErrorKind::UnsupportedMedia, message)),
        Ok(extension) => Ok((url, extension, None, None)),
    }
}

/// An address whose extension is the stated one, or else the URL's.
pub open spec fn choice_with_extension(
    url: Seq<char>,
    stated_extension: Option<String>,
    size: Option<u64>,
    md5: Option<String>,
) -> Result<MediaChoice, (DanbooruErrorKind, Seq<char>)> {
    let raw = match stated_extension {
        Some(e) => Some(e@),
        None => url_extension(url),
    };
    match extension_result(text_or_empty(raw)) {
        Err(message) => Err((DanbooruErrorKind::UnsupportedMedia, message)),
        Ok(extension) => Ok((url, extension, size, opt_string(md5))),
    }
}

/// The file a variant of a post names, before the URL checks.
pub open spec fn media_choice(post: Post, variant: MediaVariant) -> Result<
    MediaChoice,
    (DanbooruErrorKind, Seq<char>),
> {
    match variant {
        MediaVariant::Original | MediaVariant::UgoiraZip => match post.file_url {
            None => Err((DanbooruErrorKind::Forbidden, "该帖子没有可访问的原文件地址"@)),
            Some(url) => match choice_with_extension(url@, post.file_ext, post.file_size, post.md5) {
                Err(problem) => Err(problem),
                Ok(choice) => if variant == MediaVariant::UgoiraZip && choice.1 != "zip"@ {
                    Err((DanbooruErrorKind::UnsupportedMedia, "该帖子不是 Ugoira ZIP"@))
                } else {
                    Ok(choice)
                },
            },
        },
        MediaVariant::Large => match post.large_file_url {
            None => Err((DanbooruErrorKind::Forbidden, "该帖子没有 large 媒体地址"@)),
            Some(url) => choice_from_url(url@),
        },
        MediaVariant::Preview => match post.preview_file_url {
            None => Err((DanbooruErrorKind::Forbidden, "该帖子没有预览地址"@)),
            Some(url) => choice_from_url(url@),
        },
        MediaVariant::Sample => match best_variant(post_variants(post), Rendition::StillSample) {
            Some(i) => {
                let info = post_variants(post)[i];
                match info.url {
                    None => Err((DanbooruErrorKind::InvalidResponse, "媒体 variant 缺少 URL"@)),
                    Some(url) => choice_with_extension(url@, info.file_ext, info.file_size, info.md5),
                }
            },
            None => {
                let chosen = if post.large_file_url matches Some(l) && url_extension(l@) matches Some(e)
                    && is_static_image_extension_spec(e) {
                    post.large_file_url
                } else if post.preview_file_url is Some {
                    post.preview_file_url
                } else {
                    post.large_file_url
                };
                match chosen {
                    None => Err((DanbooruErrorKind::Forbidden, "该帖子没有可访问的清晰预览地址"@)),
                    Some(url) => choice_from_url(url@),
                }
            },
        },
        MediaVariant::UgoiraWebm => match best_variant(post_variants(post), Rendition::UgoiraWebm) {
            None => Err((DanbooruErrorKind::UnsupportedMedia, "帖子缺少请求的媒体 variant"@)),
            Some(i) => {
                let info = post_variants(post)[i];
                match info.url {
                    None => Err((DanbooruErrorKind::InvalidResponse, "Ugoira WebM variant 缺少 URL"@)),
                    Some(url) => Ok((url@, "webm"@, info.file_size, opt_string(info.md5))),
                }
            },
        },
    }
}

/// The media file of a post's variant after the size and URL checks.
pub open spec fn resolved_media(
    post: Post,
    variant: MediaVariant,
    hosts: Seq<Seq<char>>,
    base_is_loopback: bool,
) -> Result<MediaChoice, (DanbooruErrorKind, Seq<char>)> {
    match media_choice(post, variant) {
        Err(problem) => Err(problem),
        Ok(choice) => if choice.2 matches Some(size) && size > MAX_MEDIA_DOWNLOAD_BYTES {
            Err((DanbooruErrorKind::InvalidResponse, oversize_message()))
        } else {
            match media_url_problem(choice.0, hosts, base_is_loopback) {
                Some(message) => Err((DanbooruErrorKind::UnsafeMediaUrl, message)),
                None => Ok(choice),
            }
        },
    }
}

/// Whether a resolution was refused because the post lacks the address.
pub open spec fn refused_as_forbidden(resolution: Result<MediaChoice, (DanbooruErrorKind, Seq<char>)>) -> bool {
    resolution matches Err((kind, _)) && kind == DanbooruErrorKind::Forbidden
}

/// Whether a resolution gives the file at `url`.
pub open spec fn resolves_to(resolution: Result<MediaChoice, (DanbooruErrorKind, Seq<char>)>, url: Option<String>) -> bool {
    resolution matches Ok(choice) && url matches Some(u) && choice.0 == u@
}

/// The direct variants download the address the post names for them: the
/// large variant its `large_file_url`, the preview its `preview_file_url`,
/// the original and a Ugoira ZIP its `file_url`.  A post without that
/// address is refused as forbidden; one with it is never refused as
/// forbidden, and a large file or preview whose extension is supported and
/// whose URL passes the URL rules is always resolved.
pub proof fn law_direct_variants_use_their_own_address(post: Post, hosts: Seq<Seq<char>>, base_is_loopback: bool)
    ensures
        resolved_media(post, MediaVariant::Large, hosts, base_is_loopback) is Ok ==> resolves_to(
            resolved_media(post, MediaVariant::Large, hosts, base_is_loopback),
            post.large_file_url,
        ),
        refused_as_forbidden(resolved_media(post, MediaVariant::Large, hosts, base_is_loopback)) == (post.large_file_url is None),
        (post.large_file_url matches Some(u) && extension_result(text_or_empty(url_extension(u@))) is Ok
            && media_url_problem(u@, hosts, base_is_loopback) is None) ==> resolves_to(
            resolved_media(post, MediaVariant::Large, hosts, base_is_loopback),
            post.large_file_url,
        ),
        resolved_media(post, MediaVariant::Preview, hosts, base_is_loopback) is Ok ==> resolves_to(
            resolved_media(post, MediaVariant::Preview, hosts, base_is_loopback),
            post.preview_file_url,
        ),
        refused_as_forbidden(resolved_media(post, MediaVariant::Preview, hosts, base_is_loopback)) == (post.preview_file_url is None),
        (post.preview_file_url matches Some(u) && extension_result(text_or_empty(url_extension(u@))) is Ok
            && media_url_problem(u@, hosts, base_is_loopback) is None) ==> resolves_to(
            resolved_media(post, MediaVariant::Preview, hosts, base_is_loopback),
            post.preview_file_url,
        ),
        resolved_media(post, MediaVariant::Original, hosts, base_is_loopback) is Ok ==> resolves_to(
            resolved_media(post, MediaVariant::Original, hosts, base_is_loopback),
            post.file_url,
        ),
        refused_as_forbidden(resolved_media(post, MediaVariant::Original, hosts, base_is_loopback)) == (post.file_url is None),
        resolved_media(post, MediaVariant::UgoiraZip, hosts, base_is_loopback) is Ok ==> resolves_to(
            resolved_media(post, MediaVariant::UgoiraZip, hosts, base_is_loopback),
            post.file_url,
        ),
        refused_as_forbidden(resolved_media(post, MediaVariant::UgoiraZip, hosts, base_is_loopback)) == (post.file_url is None),
{
}

/// `source` is the media file of `variant` of `post` described by `choice`.
pub open spec fn source_is(source: MediaSource, post: Post, variant: MediaVariant, choice: MediaChoice) -> bool {
    &&& source.post_id == post.id
    &&& source.variant == variant
    &&& source.url == parsed_url_value(choice.0)
    &&& source.extension@ == choice.1
    &&& source.expected_size == choice.2
    &&& opt_string(source.expected_md5) == choice.3
}

/// A result that agrees with [`resolved_media`].
pub open spec fn resolution_ok(
    result: Result<MediaSource, DanbooruError>,
    post: Post,
    variant: MediaVariant,
    expected: Result<MediaChoice, (DanbooruErrorKind, Seq<char>)>,
) -> bool {
    match (result, expected) {
        (Ok(source), Ok(choice)) => source_is(source, post, variant, choice),
        (Err(e), Err((kind, message))) => error_is(e, kind, message, false),
        _ => false,
    }
}

fn choose_with_extension(
    url: &String,
    stated_extension: &Option<String>,
    size: Option<u64>,
    md5: &Option<String>,
) -> (result: Result<(String, String, Option<u64>, Option<String>), DanbooruError>)
    ensures
        match (result, choice_with_extension(url@, *stated_extension, size, *md5)) {
            (Ok((u, e, z, m)), Ok(choice)) => u@ == choice.0 && e@ == choice.1 && z == choice.2
                && opt_string(m) == choice.3,
            (Err(e), Err((kind, message))) => error_is(e, kind, message, false),
            _ => false,
        },
{
    let raw = match stated_extension {
        Some(e) => Some(crate::text::copy_string(e)),
        None => extension_from_url(url.as_str()),
    };
    let normalized = match &raw {
        Some(e) => normalized_extension(Some(e.as_str())),
        None => normalized_extension(None),
    };
    match normalized {
        Err(error) => Err(error),
        Ok(extension) => Ok(
            (
                crate::text::copy_string(url),
                extension,
                size,
                crate::text::copy_optional_string(md5),
            ),
        ),
    }
}

fn choose_from_url(url: &String) -> (result: Result<(String, String, Option<u64>, Option<String>), DanbooruError>)
    ensures
        match (result, choice_from_url(url@)) {
            (Ok((u, e, z, m)), Ok(choice)) => u@ == choice.0 && e@ == choice.1 && z == choice.2
                && opt_string(m) == choice.3,
            (Err(e), Err((kind, message))) => error_is(e, kind, message, false),
            _ => false,
        },
{
    let raw = extension_from_url(url.as_str());
    let normalized = match &raw {
        Some(e) => normalized_extension(Some(e.as_str())),
        None => normalized_extension(None),
    };
    match normalized {
        Err(error) => Err(error),
        Ok(extension) => Ok((crate::text::copy_string(url), extension, None, None)),
    }
}

fn choose_media(post: &Post, variant: MediaVariant) -> (result: Result<(String, String, Option<u64>, Option<String>), DanbooruError>)
    ensures
        match (result, media_choice(*post, variant)) {
            (Ok((u, e, z, m)), Ok(choice)) => u@ == choice.0 && e@ == choice.1 && z == choice.2
                && opt_string(m) == choice.3,
            (Err(e), Err((kind, message))) => error_is(e, kind, message, false),
            _ => false,
        },
{
    match variant {
        MediaVariant::Original | MediaVariant::UgoiraZip => {
            let url = match &post.file_url {
                None => {
                    return Err(plain_error(DanbooruErrorKind::Forbidden, "该帖子没有可访问的原文件地址", false));
                },
                Some(url) => url,
            };
            let choice = match choose_with_extension(url, &post.file_ext, post.file_size, &post.md5) {
                Err(error) => {
                    return Err(error);
                },
                Ok(choice) => choice,
            };
            let extension = chars_of(choice.1.as_str());
            if variant == MediaVariant::UgoiraZip && !chars_equal_str(&extension, "zip") {
                return Err(plain_error(DanbooruErrorKind::UnsupportedMedia, "该帖子不是 Ugoira ZIP", false));
            }
            Ok(choice)
        },
        MediaVariant::Large => match &post.large_file_url {
            None => Err(plain_error(DanbooruErrorKind::Forbidden, "该帖子没有 large 媒体地址", false)),
            Some(url) => choose_from_url(url),
        },
        MediaVariant::Preview => match &post.preview_file_url {
            None => Err(plain_error(DanbooruErrorKind::Forbidden, "该帖子没有预览地址", false)),
            Some(url) => choose_from_url(url),
        },
        MediaVariant::Sample => {
            proof {
                lemma_best_variant_bounds(post_variants(*post), Rendition::StillSample);
            }
            match select_asset_variant(post, Rendition::StillSample) {
                Ok(info) => match &info.url {
                    None => Err(plain_error(DanbooruErrorKind::InvalidResponse, "媒体 variant 缺少 URL", false)),
                    Some(url) => choose_with_extension(url, &info.file_ext, info.file_size, &info.md5),
                },
                Err(_) => {
                    let large_is_still = is_static_extension_of_url(&post.large_file_url);
                    let chosen = if large_is_still {
                        &post.large_file_url
                    } else if post.preview_file_url.is_some() {
                        &post.preview_file_url
                    } else {
                        &post.large_file_url
                    };
                    match chosen {
                        None => Err(
                            plain_error(DanbooruErrorKind::Forbidden, "该帖子没有可访问的清晰预览地址", false),
                        ),
                        Some(url) => choose_from_url(url),
                    }
                },
            }
        },
        MediaVariant::UgoiraWebm => {
            proof {
                lemma_best_variant_bounds(post_variants(*post), Rendition::UgoiraWebm);
            }
            let info = match select_asset_variant(post, Rendition::UgoiraWebm) {
                Err(error) => {
                    return Err(error);
                },
                Ok(info) => info,
            };
            match &info.url {
                None => Err(
                    plain_error(DanbooruErrorKind::InvalidResponse, "Ugoira WebM variant 缺少 URL", false),
                ),
                Some(url) => Ok(
                    (
                        crate::text::copy_string(url),
                        owned("webm"),
                        info.file_size,
                        crate::text::copy_optional_string(&info.md5),
                    ),
                ),
            }
        },
    }
}

impl MediaPolicy {
    /// The media file of a post's variant (see [`resolved_media`]): the
    /// original, a large or preview rendition, the largest still sample
    /// (falling back to a still large file, then the preview), or the WebM
    /// or ZIP of an animation; refused when over 16 GiB or when its URL
    /// breaks the URL rules.
    pub fn resolve_media(&self, post: &Post, variant: MediaVariant) -> (result: Result<MediaSource, DanbooruError>)
        ensures
            resolution_ok(result, *post, variant, resolved_media(*post, variant, self.hosts(), self.base_is_loopback)),
    {
        let (url, extension, size, md5) = match choose_media(post, variant) {
            Err(error) => {
                return Err(error);
            },
            Ok(choice) => choice,
        };
        match size {
            Some(bytes) => if bytes > MAX_MEDIA_DOWNLOAD_BYTES {
                return Err(plain_error(DanbooruErrorKind::InvalidResponse, "媒体文件超过可信大小上限", false));
            },
            None => {},
        }
        let url = match self.validate_media_url(url.as_str()) {
            Err(error) => {
                return Err(error);
            },
            Ok(url) => url,
        };
        Ok(MediaSource { post_id: post.id, variant, url, extension, expected_size: size, expected_md5: md5 })
    }

    /// The files to download for a post: the WebM and the ZIP of an
    /// animation (a post whose extension is `zip`), else the original.
    pub fn recommended_media(&self, post: &Post) -> (result: Result<Vec<MediaSource>, DanbooruError>)
        ensures
            if opt_string(post.file_ext) == Some("zip"@) {
                match (
                    resolved_media(*post, MediaVariant::UgoiraWebm, self.hosts(), self.base_is_loopback),
                    resolved_media(*post, MediaVariant::UgoiraZip, self.hosts(), self.base_is_loopback),
                ) {
                    (Err((kind, message)), _) => result matches Err(e) && error_is(e, kind, message, false),
                    (Ok(_), Err((kind, message))) => result matches Err(e) && error_is(e, kind, message, false),
                    (Ok(webm), Ok(zip)) => result matches Ok(sources) && sources.len() == 2 && source_is(
                        sources[0],
                        *post,
                        MediaVariant::UgoiraWebm,
                        webm,
                    ) && source_is(sources[1], *post, MediaVariant::UgoiraZip, zip),
                }
            } else {
                match resolved_media(*post, MediaVariant::Original, self.hosts(), self.base_is_loopback) {
                    Err((kind, message)) => result matches Err(e) && error_is(e, kind, message, false),
                    Ok(original) => result matches Ok(sources) && sources.len() == 1 && source_is(
                        sources[0],
                        *post,
                        MediaVariant::Original,
                        original,
                    ),
                }
            },
    {
        let is_zip = match &post.file_ext {
            Some(e) => {
                let chars = chars_of(e.as_str());
                chars_equal_str(&chars, "zip")
            },
            None => false,
        };
        let mut sources: Vec<MediaSource> = Vec::new();
        if is_zip {
            let webm = match self.resolve_media(post, MediaVariant::UgoiraWebm) {
                Err(error) => {
                    return Err(error);
                },
                Ok(source) => source,
            };
            let zip = match self.resolve_media(post, MediaVariant::UgoiraZip) {
                Err(error) => {
                    return Err(error);
                },
                Ok(source) => source,
            };
            sources.push(webm);
            sources.push(zip);
        } else {
            let original = match self.resolve_media(post, MediaVariant::Original) {
                Err(error) => {
                    return Err(error);
                },
                Ok(source) => source,
            };
            sources.push(original);
        }
        Ok(sources)
    }
}

} // verus!
