//! Rules of the vLLM captioning service: configuration bounds, endpoint
//! policy, error classification, retry timing, parsing what the model
//! answers and composing caption sidecars.  Requests, image encoding and
//! file writes run around these rules.
use std::path::PathBuf;
use vstd::prelude::*;

use crate::danbooru_client::{is_loopback_host, is_loopback_host_spec, opt_string, string_views};
use crate::text::{
    append_chars, ascii_lower, chars_equal_str, chars_of, contains_chars, contains_run, contains_run_exec,
    copy_chars, decimal, leading_count, leading_in, lower_ascii_chars, one_of, owned, slice_chars,
    string_from_chars, trailing_count, trailing_in, trim_bounds, trim_by, trim_spec, u64_to_chars,
    whitespace,
};

verus! {

/// Model used when none is configured.
pub const DEFAULT_MODEL: &'static str = "unsloth/Qwen3.6-27B-NVFP4";

/// System prompt used when none is configured.
pub const DEFAULT_SYSTEM_PROMPT: &'static str = "Analyze the image and return concise Danbooru-style tags inside exactly one <tag>...</tag> block. Use lowercase tags separated by commas; do not put explanations inside the tag block.";

/// What the model is asked to write.
#[derive(Debug, Clone, Copy, Default, PartialEq, Eq, Structural)]
pub enum VllmLanguage {
    Chinese,
    English,
    #[default]
    Danbooru,
}

/// What went wrong, as the callers tell errors apart.
#[derive(Debug, Clone, Copy, PartialEq, Eq, Structural)]
pub enum VllmErrorKind {
    InvalidEndpoint,
    UnsupportedMedia,
    InvalidImage,
    Io,
    InvalidRequest,
    Authentication,
    Forbidden,
    ContextLength,
    RateLimited,
    Upstream,
    Timeout,
    InvalidResponse,
    SidecarWrite,
}

/// An error of the captioning service.
#[derive(Debug, Clone, PartialEq, Eq)]
pub struct VllmError {
    pub kind: VllmErrorKind,
    pub message: String,
    pub retryable: bool,
}

/// `e` is an error of `kind` with `message`.
pub open spec fn vllm_error_is(e: VllmError, kind: VllmErrorKind, message: Seq<char>, retryable: bool) -> bool {
    e.kind == kind && e.message@ == message && e.retryable == retryable
}

fn vllm_error(kind: VllmErrorKind, message: &str, retryable: bool) -> (error: VllmError)
    ensures
        vllm_error_is(error, kind, message@, retryable),
{
    VllmError { kind, message: owned(message), retryable }
}

fn vllm_error_with_detail(kind: VllmErrorKind, prefix: &str, detail: &str, retryable: bool) -> (error: VllmError)
    ensures
        vllm_error_is(error, kind, prefix@ + detail@, retryable),
{
    let mut text = chars_of(prefix);
    crate::text::append_chars(&mut text, &chars_of(detail));
    VllmError { kind, message: crate::text::string_from_chars(&text), retryable }
}

/// The error for a request that failed in transport: a timeout, or a
/// connection failure described by `detail`.  Either may be retried.
pub fn request_transport_error(timed_out: bool, detail: &str) -> (error: VllmError)
    ensures
        if timed_out {
            vllm_error_is(error, VllmErrorKind::Timeout, "vLLM 请求超时"@, true)
        } else {
            vllm_error_is(error, VllmErrorKind::Upstream, "vLLM 连接失败: "@ + detail@, true)
        },
{
    if timed_out {
        vllm_error(VllmErrorKind::Timeout, "vLLM 请求超时", true)
    } else {
        vllm_error_with_detail(VllmErrorKind::Upstream, "vLLM 连接失败: ", detail, true)
    }
}

/// The error for a caption file that could not be written; `detail`
/// describes the failure.
pub fn sidecar_io_error(detail: &str) -> (error: VllmError)
    ensures
        vllm_error_is(error, VllmErrorKind::SidecarWrite, "标签文件写入失败: "@ + detail@, false),
{
    vllm_error_with_detail(VllmErrorKind::SidecarWrite, "标签文件写入失败: ", detail, false)
}

/// The error for an image that could not be read; `detail` describes the
/// failure.
pub fn image_io_error(detail: &str) -> (error: VllmError)
    ensures
        vllm_error_is(error, VllmErrorKind::Io, "无法读取图片: "@ + detail@, false),
{
    vllm_error_with_detail(VllmErrorKind::Io, "无法读取图片: ", detail, false)
}

/// The error for an image that could not be decoded; `detail` describes the
/// failure.
pub fn image_decode_error(detail: &str) -> (error: VllmError)
    ensures
        vllm_error_is(error, VllmErrorKind::InvalidImage, "无法解码图片: "@ + detail@, false),
{
    vllm_error_with_detail(VllmErrorKind::InvalidImage, "无法解码图片: ", detail, false)
}

/// The error when online tag checking is on but no Danbooru client is
/// available.
pub fn missing_tag_checker_error() -> (error: VllmError)
    ensures
        vllm_error_is(error, VllmErrorKind::InvalidRequest, "已启用 Danbooru 标签校验，但共享客户端不可用"@, false),
{
    vllm_error(VllmErrorKind::InvalidRequest, "已启用 Danbooru 标签校验，但共享客户端不可用", false)
}

/// The error for a failed Danbooru tag lookup: the lookup's message, and
/// retryable exactly when the lookup was.
pub fn tag_check_error(message: &str, retryable: bool) -> (error: VllmError)
    ensures
        vllm_error_is(error, VllmErrorKind::Upstream, "Danbooru 标签校验失败: "@ + message@, retryable),
{
    vllm_error_with_detail(VllmErrorKind::Upstream, "Danbooru 标签校验失败: ", message, retryable)
}

/// The tags that Danbooru knows, in order (`exists[i]` tells whether
/// `tags[i]` is a known tag).
pub open spec fn known_tags(tags: Seq<Seq<char>>, exists: Seq<bool>) -> Seq<Seq<char>>
    decreases tags.len(),
{
    if tags.len() == 0 || exists.len() < tags.len() {
        Seq::empty()
    } else {
        let earlier = known_tags(tags.drop_last(), exists.drop_last());
        if exists[tags.len() - 1] {
            earlier.push(tags.last())
        } else {
            earlier
        }
    }
}

/// Keeps the tags that Danbooru knows; none left is an error.
pub fn verified_tags(tags: Vec<String>, exists: &Vec<bool>) -> (result: Result<Vec<String>, VllmError>)
    requires
        exists.len() == tags.len(),
    ensures
        match result {
            Ok(kept) => string_views(kept@) == known_tags(string_views(tags@), exists@) && kept.len() > 0,
            Err(e) => known_tags(string_views(tags@), exists@).len() == 0 && vllm_error_is(
                e,
                VllmErrorKind::InvalidResponse,
                "模型返回的标签均未通过 Danbooru 在线校验"@,
                false,
            ),
        },
{
    let ghost views = string_views(tags@);
    let mut kept: Vec<String> = Vec::new();
    let mut index: usize = 0;
    while index < tags.len()
        invariant
            index <= tags.len() == exists.len(),
            views == string_views(tags@),
            string_views(kept@) == known_tags(views.take(index as int), exists@.take(index as int)),
        decreases tags.len() - index,
    {
        proof {
            assert(views.take(index + 1).drop_last() =~= views.take(index as int));
            assert(exists@.take(index + 1).drop_last() =~= exists@.take(index as int));
            assert(views.take(index + 1).last() == tags@[index as int]@);
        }
        if exists[index] {
            let ghost before = string_views(kept@);
            kept.push(crate::text::copy_string(&tags[index]));
            assert(string_views(kept@) =~= before.push(tags@[index as int]@));
        }
        index += 1;
    }
    assert(views.take(tags.len() as int) =~= views);
    assert(exists@.take(tags.len() as int) =~= exists@);
    if kept.len() == 0 {
        return Err(vllm_error(VllmErrorKind::InvalidResponse, "模型返回的标签均未通过 Danbooru 在线校验", false));
    }
    Ok(kept)
}

/// Bounds on the images sent to the model.
#[derive(Debug, Clone, PartialEq, Eq, Structural)]
pub struct ImageConstraints {
    pub max_side: u32,
    pub jpeg_quality: u8,
    pub max_source_bytes: u64,
    pub max_pixels: u64,
    pub max_encoded_bytes: usize,
}

impl Default for ImageConstraints {
    /// 1536 px sides, quality 85, 128 MiB sources, 100 Mpx, 4 MiB encoded.
    fn default() -> (constraints: Self)
        ensures
            constraints == (ImageConstraints {
                max_side: 1536,
                jpeg_quality: 85,
                max_source_bytes: 134217728,
                max_pixels: 100000000,
                max_encoded_bytes: 4194304,
            }),
    {
        ImageConstraints {
            max_side: 1536,
            jpeg_quality: 85,
            max_source_bytes: 134217728,
            max_pixels: 100000000,
            max_encoded_bytes: 4194304,
        }
    }
}

/// How a caption reaches the sidecar file.
#[derive(Debug, Clone, Copy, Default, PartialEq, Eq, Structural)]
pub enum TagWriteMode {
    #[default]
    Overwrite,
    Append,
}

/// How the service reaches the model and what it asks of it.
#[derive(Debug, Clone, PartialEq, Eq)]
pub struct VllmServiceConfig {
    pub endpoint: String,
    pub allowed_hosts: Vec<String>,
    pub model: String,
    pub system_prompt: String,
    pub concurrency: usize,
    pub batch_limit: usize,
    pub max_attempts: usize,
    pub max_output_tokens: usize,
    pub timeout_seconds: u64,
    pub image: ImageConstraints,
    pub tag_mode: TagWriteMode,
}

/// What the model's answer is turned into.
#[derive(Debug, Clone, PartialEq, Eq, Structural)]
pub struct VllmOutputOptions {
    pub language: VllmLanguage,
    pub max_tags: usize,
    pub max_length: usize,
    pub verify_danbooru: bool,
    pub reference_existing: bool,
}

impl Default for VllmOutputOptions {
    /// Danbooru tags, at most 60 tags or 400 characters, no online check,
    /// existing tags not referenced.
    fn default() -> (options: Self)
        ensures
            options == (VllmOutputOptions {
                language: VllmLanguage::Danbooru,
                max_tags: 60,
                max_length: 400,
                verify_danbooru: false,
                reference_existing: false,
            }),
    {
        VllmOutputOptions {
            language: VllmLanguage::Danbooru,
            max_tags: 60,
            max_length: 400,
            verify_danbooru: false,
            reference_existing: false,
        }
    }
}

/// Output limits the service accepts.
pub open spec fn output_limits_ok(max_tags: usize, max_length: usize) -> bool {
    1 <= max_tags <= 200 && 1 <= max_length <= 4000
}

fn output_limits_error() -> (error: VllmError)
    ensures
        vllm_error_is(error, VllmErrorKind::InvalidRequest, "vLLM 输出数量或长度限制无效"@, false),
{
    vllm_error(VllmErrorKind::InvalidRequest, "vLLM 输出数量或长度限制无效", false)
}

impl VllmOutputOptions {
    /// Accepts 1 to 200 tags and 1 to 4000 characters.
    pub fn validate(&self) -> (result: Result<(), VllmError>)
        ensures
            match result {
                Ok(()) => output_limits_ok(self.max_tags, self.max_length),
                Err(e) => !output_limits_ok(self.max_tags, self.max_length) && vllm_error_is(
                    e,
                    VllmErrorKind::InvalidRequest,
                    "vLLM 输出数量或长度限制无效"@,
                    false,
                ),
            },
    {
        if !(1 <= self.max_tags && self.max_tags <= 200 && 1 <= self.max_length && self.max_length
            <= 4000) {
            return Err(output_limits_error());
        }
        Ok(())
    }
}

// ---------------------------------------------------------------------
// Captions
// ---------------------------------------------------------------------

/// The items kept by `keep`, each only at its first occurrence.
pub open spec fn kept_once(items: Seq<Seq<char>>, keep: spec_fn(Seq<char>) -> bool) -> Seq<Seq<char>>
    decreases items.len(),
{
    if items.len() == 0 {
        Seq::empty()
    } else {
        let earlier = kept_once(items.drop_last(), keep);
        if keep(items.last()) && !earlier.contains(items.last()) {
            earlier.push(items.last())
        } else {
            earlier
        }
    }
}

/// A caption token: trimmed, commas at both ends removed, trimmed again.
pub open spec fn caption_token(tag: Seq<char>) -> Seq<char> {
    trim_spec(trim_by(trim_spec(tag), one_of(seq![','])))
}

/// Non-empty text.
pub open spec fn non_empty() -> spec_fn(Seq<char>) -> bool {
    |t: Seq<char>| t.len() > 0
}

/// The caption of a sidecar: the prefix tokens, then the inferred ones,
/// each normalised, empty ones dropped, each kept at its first occurrence.
pub open spec fn merged_caption(prefixes: Seq<Seq<char>>, inferred: Seq<Seq<char>>) -> Seq<Seq<char>> {
    kept_once((prefixes + inferred).map_values(|t: Seq<char>| caption_token(t)), non_empty())
}

fn trim_chars(chars: &Vec<char>) -> (trimmed: Vec<char>)
    ensures
        trimmed@ == trim_spec(chars@),
{
    let (start, end) = trim_bounds(chars, 0, chars.len());
    assert(chars@.subrange(0, chars.len() as int) =~= chars@);
    slice_chars(chars, start, end)
}

/// `chars` with every leading and trailing character in `set` removed.
fn trim_set(chars: &Vec<char>, set: &Vec<char>) -> (trimmed: Vec<char>)
    ensures
        trimmed@ == trim_by(chars@, one_of(set@)),
{
    let front = leading_in(chars, set);
    proof {
        crate::text::lemma_leading_count_bound(chars@, one_of(set@));
    }
    let rest = slice_chars(chars, front, chars.len());
    let back = trailing_in(&rest, set);
    proof {
        crate::text::lemma_trailing_count_bound(rest@, one_of(set@));
    }
    slice_chars(&rest, 0, rest.len() - back)
}

fn caption_token_exec(tag: &Vec<char>) -> (token: Vec<char>)
    ensures
        token@ == caption_token(tag@),
{
    let comma = vec![','];
    assert(comma@ =~= seq![',']);
    let inner = trim_chars(tag);
    let stripped = trim_set(&inner, &comma);
    trim_chars(&stripped)
}

/// Joins the caption prefixes and the inferred tags into one caption (see
/// [`merged_caption`]).
pub fn merge_caption_tags(prefixes: Vec<String>, inferred: Vec<String>) -> (merged: Vec<String>)
    ensures
        string_views(merged@) == merged_caption(string_views(prefixes@), string_views(inferred@)),
{
    let mut kept: Vec<Vec<char>> = Vec::new();
    assert(Seq::<Seq<char>>::empty().map_values(|t: Seq<char>| caption_token(t)) =~= Seq::<Seq<char>>::empty());
    assert(crate::text::char_views(kept@) =~= Seq::<Seq<char>>::empty());
    assert(kept_once(Seq::<Seq<char>>::empty(), non_empty()) == Seq::<Seq<char>>::empty());
    absorb_tokens(&mut kept, &prefixes, Ghost(Seq::empty()));
    assert(Seq::<Seq<char>>::empty() + string_views(prefixes@) =~= string_views(prefixes@));
    absorb_tokens(&mut kept, &inferred, Ghost(string_views(prefixes@)));
    strings_of(&kept)
}

/// Adds the caption tokens of `items` to the tokens kept so far from
/// `before`.
fn absorb_tokens(kept: &mut Vec<Vec<char>>, items: &Vec<String>, Ghost(before): Ghost<Seq<Seq<char>>>)
    requires
        crate::text::char_views(old(kept)@) == kept_once(
            before.map_values(|t: Seq<char>| caption_token(t)),
            non_empty(),
        ),
    ensures
        crate::text::char_views(final(kept)@) == kept_once(
            (before + string_views(items@)).map_values(|t: Seq<char>| caption_token(t)),
            non_empty(),
        ),
{
    let ghost views = string_views(items@);
    let mut index: usize = 0;
    assert(before + views.take(0) =~= before);
    while index < items.len()
        invariant
            index <= items.len(),
            views == string_views(items@),
            crate::text::char_views(kept@) == kept_once(
                (before + views.take(index as int)).map_values(|t: Seq<char>| caption_token(t)),
                non_empty(),
            ),
        decreases items.len() - index,
    {
        let ghost seen = (before + views.take(index as int)).map_values(|t: Seq<char>| caption_token(t));
        let ghost next = (before + views.take(index + 1)).map_values(|t: Seq<char>| caption_token(t));
        assert(views[index as int] == items@[index as int]@);
        let token = caption_token_exec(&chars_of(items[index].as_str()));
        proof {
            assert(before + views.take(index + 1) =~= (before + views.take(index as int)).push(
                views[index as int],
            ));
            assert(next.drop_last() =~= seen);
            assert(next.last() == token@);
        }
        if token.len() > 0 && !contains_chars(kept, &token) {
            let ghost old_kept = crate::text::char_views(kept@);
            kept.push(token);
            assert(crate::text::char_views(kept@) =~= old_kept.push(next.last()));
        }
        index += 1;
    }
    assert(views.take(items.len() as int) =~= views);
}

/// The strings of character vectors.
pub fn strings_of(items: &Vec<Vec<char>>) -> (strings: Vec<String>)
    ensures
        string_views(strings@) == crate::text::char_views(items@),
{
    let mut strings: Vec<String> = Vec::new();
    let mut position: usize = 0;
    while position < items.len()
        invariant
            position <= items.len(),
            string_views(strings@) == crate::text::char_views(items@).take(position as int),
        decreases items.len() - position,
    {
        let text = string_from_chars(&items[position]);
        let ghost before = string_views(strings@);
        strings.push(text);
        assert(string_views(strings@) =~= before.push(items@[position as int]@));
        position += 1;
        assert(string_views(strings@) =~= crate::text::char_views(items@).take(position as int));
    }
    assert(crate::text::char_views(items@).take(items.len() as int) =~= crate::text::char_views(items@));
    strings
}

/// What is kept of a list never holds an item twice.
pub proof fn lemma_kept_once_unique(items: Seq<Seq<char>>, keep: spec_fn(Seq<char>) -> bool)
    ensures
        kept_once(items, keep).no_duplicates(),
        forall|t: Seq<char>| #[trigger] kept_once(items, keep).contains(t) ==> items.contains(t) && keep(t),
    decreases items.len(),
{
    if items.len() > 0 {
        lemma_kept_once_unique(items.drop_last(), keep);
        let earlier = kept_once(items.drop_last(), keep);
        assert forall|t: Seq<char>| #[trigger] kept_once(items, keep).contains(t) implies items.contains(t)
            && keep(t) by {
            if earlier.contains(t) {
                let j = choose|j: int| 0 <= j < items.drop_last().len() && items.drop_last()[j] == t;
                assert(items[j] == t);
            } else {
                assert(t == items.last());
                assert(items[items.len() - 1] == t);
            }
        }
    }
}

/// What is kept of a list is kept of any longer list: an item kept once
/// stays at its place whatever follows.
pub proof fn lemma_kept_once_prefix(
    first: Seq<Seq<char>>,
    rest: Seq<Seq<char>>,
    keep: spec_fn(Seq<char>) -> bool,
)
    ensures
        kept_once(first + rest, keep).len() >= kept_once(first, keep).len(),
        kept_once(first + rest, keep).take(kept_once(first, keep).len() as int) == kept_once(first, keep),
    decreases rest.len(),
{
    if rest.len() == 0 {
        assert(first + rest =~= first);
        assert(kept_once(first, keep).take(kept_once(first, keep).len() as int) =~= kept_once(first, keep));
    } else {
        lemma_kept_once_prefix(first, rest.drop_last(), keep);
        assert((first + rest).drop_last() =~= first + rest.drop_last());
        let shorter = kept_once(first + rest.drop_last(), keep);
        let n = kept_once(first, keep).len() as int;
        let longer = kept_once(first + rest, keep);
        if longer != shorter {
            assert(longer.take(n) =~= shorter.take(n));
        }
    }
}

/// Caption prefixes stay first: the merged caption starts with exactly the
/// caption of the prefixes alone, and no token appears twice in it.
pub proof fn law_caption_prefixes_stay_first(prefixes: Seq<Seq<char>>, inferred: Seq<Seq<char>>)
    ensures
        merged_caption(prefixes, inferred).take(merged_caption(prefixes, Seq::empty()).len() as int)
            == merged_caption(prefixes, Seq::empty()),
        merged_caption(prefixes, inferred).no_duplicates(),
        forall|t: Seq<char>| #[trigger] merged_caption(prefixes, inferred).contains(t) ==> t.len() > 0,
{
    let f = |t: Seq<char>| caption_token(t);
    let p = prefixes.map_values(f);
    let i = inferred.map_values(f);
    assert((prefixes + inferred).map_values(f) =~= p + i);
    assert((prefixes + Seq::<Seq<char>>::empty()).map_values(f) =~= p);
    lemma_kept_once_prefix(p, i, non_empty());
    lemma_kept_once_unique(p + i, non_empty());
}

/// A failed batch item as it enters the retry manifest.
#[derive(Debug, Clone, PartialEq, Eq)]
pub struct VllmRetryItem {
    pub media_id: String,
    pub code: VllmErrorKind,
    pub message: String,
    pub retryable: bool,
}

/// The retry manifest entry for `media_id` failing with `error`.
pub fn retry_item(media_id: &str, error: VllmError) -> (item: VllmRetryItem)
    ensures
        item.media_id@ == media_id@,
        item.code == error.kind,
        item.message == error.message,
        item.retryable == error.retryable,
{
    VllmRetryItem { media_id: owned(media_id), code: error.kind, message: error.message, retryable: error.retryable }
}

// ---------------------------------------------------------------------
// Errors from the model server
// ---------------------------------------------------------------------

/// An answer body that reports an exceeded context window.
pub open spec fn mentions_context_limit(body: Seq<char>) -> bool {
    let lowered = ascii_lower(body);
    ||| contains_run(lowered, "context length"@)
    ||| contains_run(lowered, "maximum context"@)
    ||| contains_run(lowered, "token limit"@)
    ||| contains_run(lowered, "too many tokens"@)
}

/// Kind and retryability of the error for an HTTP status and answer body.
pub open spec fn http_error_class(status: u16, body: Seq<char>) -> (VllmErrorKind, bool) {
    if mentions_context_limit(body) {
        (VllmErrorKind::ContextLength, false)
    } else if 300 <= status <= 399 {
        (VllmErrorKind::InvalidEndpoint, false)
    } else if status == 400 || status == 404 || status == 405 || status == 409 || status == 413
        || status == 415 || status == 422 {
        (VllmErrorKind::InvalidRequest, false)
    } else if status == 401 {
        (VllmErrorKind::Authentication, false)
    } else if status == 403 {
        (VllmErrorKind::Forbidden, false)
    } else if status == 408 {
        (VllmErrorKind::Timeout, true)
    } else if status == 429 {
        (VllmErrorKind::RateLimited, true)
    } else if 400 <= status <= 499 {
        (VllmErrorKind::InvalidRequest, false)
    } else {
        (VllmErrorKind::Upstream, true)
    }
}

/// The error for an unsuccessful answer: classified by status and body,
/// its message quoting the status and the first 500 characters of the body.
pub fn classify_http_error(status: u16, body: &str) -> (error: VllmError)
    ensures
        error.kind == http_error_class(status, body@).0,
        error.retryable == http_error_class(status, body@).1,
        error.message@ == "vLLM 返回 HTTP "@ + decimal(status as nat) + ": "@ + body@.take(
            if body@.len() < 500 {
                body@.len() as int
            } else {
                500
            },
        ),
{
    let chars = chars_of(body);
    let lowered = lower_ascii_chars(&chars);
    let context_error = contains_run_exec(&lowered, &chars_of("context length")) || contains_run_exec(
        &lowered,
        &chars_of("maximum context"),
    ) || contains_run_exec(&lowered, &chars_of("token limit")) || contains_run_exec(
        &lowered,
        &chars_of("too many tokens"),
    );
    let (kind, retryable) = if context_error {
        (VllmErrorKind::ContextLength, false)
    } else if 300 <= status && status <= 399 {
        (VllmErrorKind::InvalidEndpoint, false)
    } else if status == 400 || status == 404 || status == 405 || status == 409 || status == 413
        || status == 415 || status == 422 {
        (VllmErrorKind::InvalidRequest, false)
    } else if status == 401 {
        (VllmErrorKind::Authentication, false)
    } else if status == 403 {
        (VllmErrorKind::Forbidden, false)
    } else if status == 408 {
        (VllmErrorKind::Timeout, true)
    } else if status == 429 {
        (VllmErrorKind::RateLimited, true)
    } else if 400 <= status && status <= 499 {
        (VllmErrorKind::InvalidRequest, false)
    } else {
        (VllmErrorKind::Upstream, true)
    };
    let mut message = chars_of("vLLM 返回 HTTP ");
    append_chars(&mut message, &u64_to_chars(status as u64));
    append_chars(&mut message, &chars_of(": "));
    let keep = if chars.len() < 500 {
        chars.len()
    } else {
        500
    };
    let excerpt = slice_chars(&chars, 0, keep);
    append_chars(&mut message, &excerpt);
    assert(excerpt@ =~= body@.take(keep as int));
    VllmError { kind, message: string_from_chars(&message), retryable }
}

// ---------------------------------------------------------------------
// Retries
// ---------------------------------------------------------------------

/// Attempts made at most: the configured count, at least one.
pub fn attempt_count(max_attempts: usize) -> (attempts: usize)
    ensures
        attempts == if max_attempts < 1 {
            1
        } else {
            max_attempts
        },
{
    if max_attempts < 1 {
        1
    } else {
        max_attempts
    }
}

/// Whether a failed attempt (numbered from 0) is followed by another one:
/// only a retryable error before the last attempt is.
pub fn should_retry(retryable: bool, attempt: usize, attempts: usize) -> (again: bool)
    requires
        attempt < attempts,
    ensures
        again == (retryable && attempt + 1 < attempts),
{
    retryable && attempt + 1 != attempts
}

/// The pause before the attempt after `attempt`: 100 ms doubled per
/// attempt, at most 1.6 s.
pub open spec fn retry_delay_spec(attempt: usize) -> u64 {
    if attempt == 0 {
        100
    } else if attempt == 1 {
        200
    } else if attempt == 2 {
        400
    } else if attempt == 3 {
        800
    } else {
        1600
    }
}

/// See [`retry_delay_spec`].
pub fn retry_delay_millis(attempt: usize) -> (delay: u64)
    ensures
        delay == retry_delay_spec(attempt),
{
    let exponent: u32 = if attempt < 4 {
        attempt as u32
    } else {
        4
    };
    let mut factor: u64 = 1;
    let mut k: u32 = 0;
    while k < exponent
        invariant
            k <= exponent <= 4,
            factor == if k == 0 {
                1u64
            } else if k == 1 {
                2u64
            } else if k == 2 {
                4u64
            } else if k == 3 {
                8u64
            } else {
                16u64
            },
        decreases exponent - k,
    {
        factor = factor * 2;
        k += 1;
    }
    100 * factor
}

/// Whether the retry loop makes another attempt after attempt `i` ended
/// with `outcome` (`None` for success, `Some(retryable)` for an error):
/// what [`should_retry`] decides.
pub open spec fn continues_after(outcome: Option<bool>, i: int, attempts: nat) -> bool {
    outcome == Some(true) && i + 1 < attempts
}

/// An operation is attempted at most `attempts` times, and an error that is
/// not retryable ends the run at once: in a run where each attempt is
/// followed by another exactly when [`continues_after`] says so, there are
/// at most `attempts` attempts and no non-retryable error before the last.
pub proof fn law_retries_stop_at_deterministic_errors(outcomes: Seq<Option<bool>>, attempts: nat)
    requires
        attempts >= 1,
        outcomes.len() >= 1,
        forall|i: int| 0 <= i < outcomes.len() - 1 ==> continues_after(#[trigger] outcomes[i], i, attempts),
        !continues_after(outcomes.last(), outcomes.len() - 1, attempts),
    ensures
        outcomes.len() <= attempts,
        forall|i: int| 0 <= i < outcomes.len() && #[trigger] outcomes[i] == Some(false) ==> i == outcomes.len() - 1,
        forall|i: int| 0 <= i < outcomes.len() && #[trigger] outcomes[i] is None ==> i == outcomes.len() - 1,
{
    if outcomes.len() > 1 {
        assert(continues_after(outcomes[outcomes.len() - 2], outcomes.len() - 2, attempts));
    }
}

// ---------------------------------------------------------------------
// Batches and prompts
// ---------------------------------------------------------------------

/// Refuses a batch larger than the configured limit.
pub fn check_batch_size(count: usize, limit: usize) -> (result: Result<(), VllmError>)
    ensures
        match result {
            Ok(()) => count <= limit,
            Err(e) => count > limit && vllm_error_is(
                e,
                VllmErrorKind::InvalidRequest,
                "批处理最多接受 "@ + decimal(limit as nat) + " 个媒体项"@,
                false,
            ),
        },
{
    if count > limit {
        let mut message = chars_of("批处理最多接受 ");
        append_chars(&mut message, &u64_to_chars(limit as u64));
        append_chars(&mut message, &chars_of(" 个媒体项"));
        return Err(
            VllmError { kind: VllmErrorKind::InvalidRequest, message: string_from_chars(&message), retryable: false },
        );
    }
    Ok(())
}

/// The task sentence for a language.
pub open spec fn task_text(language: VllmLanguage) -> Seq<char> {
    match language {
        VllmLanguage::Chinese => "请用简洁、客观的中文描述图片内容"@,
        VllmLanguage::English => "Describe the visible image content in concise, objective English"@,
        VllmLanguage::Danbooru => "为这张图片生成规范的 Danbooru 风格标签"@,
    }
}

/// The existing tags the prompt refers to: the first 32768 characters of
/// them where referencing is on, else nothing.
pub open spec fn referenced_tags(reference_existing: bool, existing: Option<Seq<char>>) -> Seq<char> {
    if reference_existing && existing is Some {
        let text = existing->Some_0;
        text.take(
            if text.len() < 32768 {
                text.len() as int
            } else {
                32768
            },
        )
    } else {
        Seq::empty()
    }
}

/// The user message sent with an image.
pub open spec fn user_prompt_spec(language: VllmLanguage, reference_existing: bool, existing: Option<Seq<char>>) -> Seq<char> {
    let tags = referenced_tags(reference_existing, existing);
    if trim_spec(tags).len() == 0 {
        task_text(language) + "，优先放入 <tag>...</tag>；不要输出无关内容。"@
    } else {
        task_text(language) + "，参考并修正已有标签，优先放入 <tag>...</tag>。已有标签："@ + tags
    }
}

/// See [`user_prompt_spec`].
pub fn user_prompt(language: VllmLanguage, reference_existing: bool, existing: Option<&str>) -> (prompt: String)
    ensures
        prompt@ == user_prompt_spec(language, reference_existing, crate::danbooru_client::optional_view(existing)),
{
    let tags: Vec<char> = match existing {
        Some(text) => if reference_existing {
            let chars = chars_of(text);
            let keep = if chars.len() < 32768 {
                chars.len()
            } else {
                32768
            };
            let kept = slice_chars(&chars, 0, keep);
            assert(kept@ =~= text@.take(keep as int));
            kept
        } else {
            Vec::new()
        },
        None => Vec::new(),
    };
    let mut prompt = match language {
        VllmLanguage::Chinese => chars_of("请用简洁、客观的中文描述图片内容"),
        VllmLanguage::English => chars_of("Describe the visible image content in concise, objective English"),
        VllmLanguage::Danbooru => chars_of("为这张图片生成规范的 Danbooru 风格标签"),
    };
    let trimmed = trim_chars(&tags);
    if trimmed.len() == 0 {
        append_chars(&mut prompt, &chars_of("，优先放入 <tag>...</tag>；不要输出无关内容。"));
    } else {
        append_chars(&mut prompt, &chars_of("，参考并修正已有标签，优先放入 <tag>...</tag>。已有标签："));
        append_chars(&mut prompt, &tags);
    }
    string_from_chars(&prompt)
}

/// The API key sent to the server: trimmed, and none when blank.
pub fn normalized_api_key(api_key: Option<String>) -> (key: Option<String>)
    ensures
        match api_key {
            Some(k) => if trim_spec(k@).len() == 0 {
                key is None
            } else {
                key matches Some(t) && t@ == trim_spec(k@)
            },
            None => key is None,
        },
{
    match api_key {
        None => None,
        Some(value) => {
            let trimmed = trim_chars(&chars_of(value.as_str()));
            if trimmed.len() == 0 {
                None
            } else {
                Some(string_from_chars(&trimmed))
            }
        },
    }
}

// ---------------------------------------------------------------------
// Sidecars
// ---------------------------------------------------------------------

/// Refuses to write a blank caption.
pub fn check_sidecar_content(content: &str) -> (result: Result<(), VllmError>)
    ensures
        match result {
            Ok(()) => trim_spec(content@).len() > 0,
            Err(e) => trim_spec(content@).len() == 0 && vllm_error_is(
                e,
                VllmErrorKind::InvalidRequest,
                "模型标签内容不能为空"@,
                false,
            ),
        },
{
    if trim_chars(&chars_of(content)).len() == 0 {
        return Err(vllm_error(VllmErrorKind::InvalidRequest, "模型标签内容不能为空", false));
    }
    Ok(())
}

/// What is kept of an existing sidecar when appending: trimmed, trailing
/// commas and the whitespace before them removed.
pub open spec fn kept_sidecar_text(existing: Seq<char>) -> Seq<char> {
    let trimmed = trim_spec(existing);
    let no_commas = trimmed.subrange(0, trimmed.len() - trailing_count(trimmed, one_of(seq![','])));
    no_commas.subrange(0, no_commas.len() - trailing_count(no_commas, whitespace()))
}

/// The text a sidecar ends up with: the caption alone, or appended to what
/// the sidecar held (`existing`, empty when there was no sidecar) after a
/// comma and a line break.
pub open spec fn sidecar_text_spec(content: Seq<char>, mode: TagWriteMode, existing: Seq<char>) -> Seq<char> {
    match mode {
        TagWriteMode::Overwrite => trim_spec(content),
        TagWriteMode::Append => {
            let kept = kept_sidecar_text(existing);
            if kept.len() == 0 {
                trim_spec(content)
            } else {
                kept + ",\n"@ + trim_spec(content)
            }
        },
    }
}

/// See [`sidecar_text_spec`].
pub fn sidecar_text(content: &str, mode: TagWriteMode, existing: &str) -> (text: String)
    ensures
        text@ == sidecar_text_spec(content@, mode, existing@),
{
    let caption = trim_chars(&chars_of(content));
    match mode {
        TagWriteMode::Overwrite => string_from_chars(&caption),
        TagWriteMode::Append => {
            let trimmed = trim_chars(&chars_of(existing));
            let comma = vec![','];
            assert(comma@ =~= seq![',']);
            let commas = trailing_in(&trimmed, &comma);
            proof {
                crate::text::lemma_trailing_count_bound(trimmed@, one_of(comma@));
            }
            let no_commas = slice_chars(&trimmed, 0, trimmed.len() - commas);
            let spaces = trailing_whitespace(&no_commas);
            let kept = slice_chars(&no_commas, 0, no_commas.len() - spaces);
            if kept.len() == 0 {
                string_from_chars(&caption)
            } else {
                let mut text = copy_chars(&kept);
                append_chars(&mut text, &chars_of(",\n"));
                append_chars(&mut text, &caption);
                string_from_chars(&text)
            }
        },
    }
}

fn trailing_whitespace(chars: &Vec<char>) -> (count: usize)
    ensures
        count == trailing_count(chars@, whitespace()),
        count <= chars.len(),
{
    let mut k: usize = 0;
    while k < chars.len()
        invariant
            k <= chars.len(),
            forall|i: int| chars.len() - k <= i < chars.len() ==> crate::text::is_unicode_whitespace(
                #[trigger] chars@[i],
            ),
        decreases chars.len() - k,
    {
        if !crate::text::is_whitespace(chars[chars.len() - 1 - k]) {
            proof {
                crate::text::lemma_trailing_count_unique(chars@, whitespace(), k as int);
            }
            return k;
        }
        k += 1;
    }
    proof {
        crate::text::lemma_trailing_count_unique(chars@, whitespace(), k as int);
    }
    k
}

// ---------------------------------------------------------------------
// Model answers
// ---------------------------------------------------------------------

/// The answer with a reasoning block cut out: from the first `<think>` to
/// the end of the first `</think>`.
pub open spec fn without_thinking(raw: Seq<char>) -> Seq<char> {
    match (
        crate::text::first_run_index(raw, "<think>"@),
        crate::text::first_run_index(raw, "</think>"@),
    ) {
        (Some(start), Some(end)) => raw.take(start) + raw.skip(end + "</think>"@.len()),
        _ => raw,
    }
}

/// The text of the last `<tag>` block, up to the first `</tag>` after it
/// (or the end), if the answer has one.
pub open spec fn tag_block(text: Seq<char>) -> Option<Seq<char>> {
    match crate::text::last_run_index(text, "<tag>"@) {
        None => None,
        Some(start) => {
            let after = text.skip(start + "<tag>"@.len());
            match crate::text::first_run_index(after, "</tag>"@) {
                Some(end) => Some(after.take(end)),
                None => Some(after),
            }
        },
    }
}

/// Separators between tags in an answer.
pub open spec fn tag_separators() -> Seq<char> {
    seq![',', '，', '\n', '\r']
}

/// Decoration stripped from both ends of a tag.
pub open spec fn tag_decoration() -> Seq<char> {
    seq!['"', '\'', '*', '-', '.', ':', '：', '#']
}

/// The text tags are read from: the tag block, or else the trimmed answer
/// without code fences and a leading `tags:`, `Tags:` or `标签：` label.
pub open spec fn tag_candidate(raw: Seq<char>) -> Seq<char> {
    let text = without_thinking(raw);
    match tag_block(text) {
        Some(block) => block,
        None => trim_spec(
            crate::text::strip_prefix_repeatedly(
                crate::text::strip_prefix_repeatedly(
                    crate::text::strip_prefix_repeatedly(
                        trim_by(trim_spec(text), one_of(seq!['`'])),
                        "tags:"@,
                    ),
                    "Tags:"@,
                ),
                "标签："@,
            ),
        ),
    }
}

/// One tag as written to a caption: trimmed, decoration removed, inner
/// whitespace runs joined by `_`, lower-cased.
pub open spec fn tag_form(piece: Seq<char>) -> Seq<char> {
    crate::text::unicode_lowercase(
        crate::text::join_with(
            crate::text::words(trim_by(trim_spec(piece), one_of(tag_decoration()))),
            "_"@,
        ),
    )
}

/// A tag worth keeping: non-empty, at most 80 bytes, not a link.
pub open spec fn keeps_tag() -> spec_fn(Seq<char>) -> bool {
    |tag: Seq<char>| tag.len() > 0 && crate::danbooru_client::utf8_len(tag) <= 80
        && !crate::text::starts_with(tag, "http"@)
}

/// The tags of an answer, in order, each once.
pub open spec fn answer_tags(raw: Seq<char>) -> Seq<Seq<char>> {
    kept_once(
        crate::text::split_when(tag_candidate(raw), one_of(tag_separators())).map_values(|piece: Seq<char>| tag_form(piece)),
        keeps_tag(),
    )
}

/// `tag` is the Unicode lower case (`str::to_lowercase`) of a text without
/// whitespace.
pub open spec fn lowercase_of_one_word(tag: Seq<char>) -> bool {
    exists|w: Seq<char>| #[trigger] crate::text::unicode_lowercase(w) == tag && forall|k: int| 0 <= k < w.len()
        ==> !crate::text::is_unicode_whitespace(#[trigger] w[k])
}

/// Every tag parsed from a model answer, and every token of a Danbooru-mode
/// output, is the Unicode lower case (`str::to_lowercase`) of a text
/// without whitespace: the letter case of the answer never reaches a
/// caption tag, and the words of a tag are joined, not spaced.
pub proof fn law_parsed_tags_are_lowercased(raw: Seq<char>, language: VllmLanguage, max_tags: usize, max_length: usize)
    ensures
        forall|i: int| 0 <= i < answer_tags(raw).len() ==> lowercase_of_one_word(#[trigger] answer_tags(raw)[i]),
        language == VllmLanguage::Danbooru ==> (model_output_spec(raw, language, max_tags, max_length) matches Ok(tokens)
            ==> forall|i: int| 0 <= i < tokens.len() ==> lowercase_of_one_word(#[trigger] tokens[i])),
{
    let pieces = crate::text::split_when(tag_candidate(raw), one_of(tag_separators()));
    let forms = pieces.map_values(|piece: Seq<char>| tag_form(piece));
    lemma_kept_once_unique(forms, keeps_tag());
    let tags = answer_tags(raw);
    assert forall|i: int| 0 <= i < tags.len() implies lowercase_of_one_word(#[trigger] tags[i]) by {
        assert(tags.contains(tags[i]));
        assert(forms.contains(tags[i]));
        let k = choose|k: int| 0 <= k < forms.len() && forms[k] == tags[i];
        let piece = pieces[k];
        let words = crate::text::words(trim_by(trim_spec(piece), one_of(tag_decoration())));
        let joined = crate::text::join_with(words, "_"@);
        crate::text::lemma_words_have_no_whitespace(trim_by(trim_spec(piece), one_of(tag_decoration())));
        reveal_strlit("_");
        let clear = |c: char| !crate::text::is_unicode_whitespace(c);
        assert forall|a: int, b: int| 0 <= a < words.len() && 0 <= b < words[a].len() implies clear(#[trigger] words[a][b]) by {}
        assert forall|b: int| 0 <= b < "_"@.len() implies clear(#[trigger] "_"@[b]) by {}
        crate::text::lemma_join_keeps(words, "_"@, clear);
        assert forall|b: int| 0 <= b < joined.len() implies !crate::text::is_unicode_whitespace(#[trigger] joined[b]) by {
            assert(clear(joined[b]));
        }
        assert(crate::text::unicode_lowercase(joined) == tags[i]);
    }
    if language == VllmLanguage::Danbooru {
        if let Ok(tokens) = model_output_spec(raw, language, max_tags, max_length) {
            assert forall|i: int| 0 <= i < tokens.len() implies lowercase_of_one_word(#[trigger] tokens[i]) by {
                assert(tokens[i] == tags[i]);
            }
        }
    }
}

fn find_literal(chars: &Vec<char>, pattern: &str) -> (found: Option<usize>)
    ensures
        match found {
            Some(k) => crate::text::first_run_index(chars@, pattern@) == Some(k as int) && k + pattern@.len()
                <= chars.len(),
            None => crate::text::first_run_index(chars@, pattern@) is None,
        },
{
    crate::text::find_run(chars, &chars_of(pattern))
}

fn without_thinking_exec(raw: &Vec<char>) -> (text: Vec<char>)
    ensures
        text@ == without_thinking(raw@),
{
    let start = find_literal(raw, "<think>");
    let end = find_literal(raw, "</think>");
    proof {
        reveal_strlit("</think>");
    }
    match (start, end) {
        (Some(start), Some(end)) => {
            let mut text = slice_chars(raw, 0, start);
            append_chars(&mut text, &slice_chars(raw, end + 8, raw.len()));
            assert(raw@.take(start as int) =~= raw@.subrange(0, start as int));
            assert(raw@.skip(end + 8) =~= raw@.subrange(end + 8, raw@.len() as int));
            text
        },
        _ => copy_chars(raw),
    }
}

fn tag_block_exec(text: &Vec<char>) -> (block: Option<Vec<char>>)
    ensures
        match (block, tag_block(text@)) {
            (Some(b), Some(expected)) => b@ == expected,
            (None, None) => true,
            _ => false,
        },
{
    proof {
        reveal_strlit("<tag>");
    }
    match crate::text::rfind_run(text, &chars_of("<tag>")) {
        None => None,
        Some(start) => {
            let after = slice_chars(text, start + 5, text.len());
            assert(after@ =~= text@.skip(start + 5));
            match find_literal(&after, "</tag>") {
                Some(end) => {
                    let inside = slice_chars(&after, 0, end);
                    assert(inside@ =~= after@.take(end as int));
                    Some(inside)
                },
                None => Some(after),
            }
        },
    }
}

fn tag_candidate_exec(raw: &Vec<char>) -> (candidate: Vec<char>)
    ensures
        candidate@ == tag_candidate(raw@),
{
    let text = without_thinking_exec(raw);
    match tag_block_exec(&text) {
        Some(block) => block,
        None => {
            let fence = vec!['`'];
            assert(fence@ =~= seq!['`']);
            let unfenced = trim_set(&trim_chars(&text), &fence);
            let step = crate::text::strip_prefix_all(&unfenced, &chars_of("tags:"));
            let step = crate::text::strip_prefix_all(&step, &chars_of("Tags:"));
            let step = crate::text::strip_prefix_all(&step, &chars_of("标签："));
            trim_chars(&step)
        },
    }
}

fn tag_form_exec(piece: &Vec<char>) -> (tag: Vec<char>)
    ensures
        tag@ == tag_form(piece@),
{
    let decoration = vec!['"', '\'', '*', '-', '.', ':', '：', '#'];
    assert(decoration@ =~= tag_decoration());
    let stripped = trim_set(&trim_chars(piece), &decoration);
    let pieces = crate::text::split_words(&stripped);
    let joined = crate::text::join_chars(&pieces, &chars_of("_"));
    let text = string_from_chars(&joined);
    chars_of(crate::text::to_lowercase(text.as_str()).as_str())
}

fn keeps_tag_exec(tag: &Vec<char>) -> (keep: bool)
    ensures
        keep == keeps_tag()(tag@),
{
    if tag.len() == 0 || crate::danbooru_client::utf8_len_exceeds(tag, 80) {
        return false;
    }
    let http = chars_of("http");
    let starts = crate::text::starts_with_at(tag, 0, &http);
    assert(tag@.subrange(0, tag@.len() as int) =~= tag@);
    !starts
}

/// The tags of an answer (see [`answer_tags`]); an answer without any is an
/// error.
pub fn parse_tag_output(raw: &str) -> (result: Result<Vec<String>, VllmError>)
    ensures
        match result {
            Ok(tags) => string_views(tags@) == answer_tags(raw@) && answer_tags(raw@).len() > 0,
            Err(e) => answer_tags(raw@).len() == 0 && vllm_error_is(
                e,
                VllmErrorKind::InvalidResponse,
                "模型未返回有效标签"@,
                false,
            ),
        },
{
    let candidate = tag_candidate_exec(&chars_of(raw));
    let separators = vec![',', '，', '\n', '\r'];
    assert(separators@ =~= tag_separators());
    let pieces = crate::text::split_on(&candidate, &separators);
    let ghost forms = crate::text::char_views(pieces@).map_values(|piece: Seq<char>| tag_form(piece));
    let mut kept: Vec<Vec<char>> = Vec::new();
    let mut index: usize = 0;
    assert(forms.take(0) =~= Seq::<Seq<char>>::empty());
    while index < pieces.len()
        invariant
            index <= pieces.len(),
            forms == crate::text::char_views(pieces@).map_values(|piece: Seq<char>| tag_form(piece)),
            crate::text::char_views(kept@) == kept_once(forms.take(index as int), keeps_tag()),
        decreases pieces.len() - index,
    {
        let tag = tag_form_exec(&pieces[index]);
        proof {
            let next = forms.take(index + 1);
            assert(next.drop_last() =~= forms.take(index as int));
            assert(next.last() == tag@);
        }
        if keeps_tag_exec(&tag) && !contains_chars(&kept, &tag) {
            let ghost before = crate::text::char_views(kept@);
            kept.push(tag);
            assert(crate::text::char_views(kept@) =~= before.push(forms[index as int]));
        }
        index += 1;
    }
    assert(forms.take(pieces.len() as int) =~= forms);
    if kept.len() == 0 {
        return Err(vllm_error(VllmErrorKind::InvalidResponse, "模型未返回有效标签", false));
    }
    Ok(strings_of(&kept))
}

/// The description an answer gives in English or Chinese mode: the tag
/// block (or the trimmed answer without code fences), whitespace runs
/// collapsed to one space, cut to `max_length` characters.
pub open spec fn answer_description(raw: Seq<char>, max_length: usize) -> Seq<char> {
    let text = without_thinking(raw);
    let candidate = match tag_block(text) {
        Some(block) => block,
        None => trim_by(trim_spec(text), one_of(seq!['`'])),
    };
    let joined = crate::text::join_with(crate::text::words(candidate), " "@);
    joined.take(
        if joined.len() < max_length {
            joined.len() as int
        } else {
            max_length as int
        },
    )
}

/// What the model's answer turns into, or the kind and message of the error.
pub open spec fn model_output_spec(
    raw: Seq<char>,
    language: VllmLanguage,
    max_tags: usize,
    max_length: usize,
) -> Result<Seq<Seq<char>>, (VllmErrorKind, Seq<char>)> {
    if !output_limits_ok(max_tags, max_length) {
        Err((VllmErrorKind::InvalidRequest, "vLLM 输出数量或长度限制无效"@))
    } else if language == VllmLanguage::Danbooru {
        let tags = answer_tags(raw);
        if tags.len() == 0 {
            Err((VllmErrorKind::InvalidResponse, "模型未返回有效标签"@))
        } else {
            Ok(
                tags.take(
                    if tags.len() < max_tags {
                        tags.len() as int
                    } else {
                        max_tags as int
                    },
                ),
            )
        }
    } else {
        let description = answer_description(raw, max_length);
        if description.len() == 0 {
            Err((VllmErrorKind::InvalidResponse, "模型未返回有效描述"@))
        } else {
            Ok(seq![description])
        }
    }
}

/// Turns the model's answer into caption tokens: Danbooru tags (at most
/// `max_tags`), or one natural-language description.
pub fn parse_model_output(raw: &str, language: VllmLanguage, max_tags: usize, max_length: usize) -> (result: Result<Vec<String>, VllmError>)
    ensures
        match (result, model_output_spec(raw@, language, max_tags, max_length)) {
            (Ok(tokens), Ok(expected)) => string_views(tokens@) == expected,
            (Err(e), Err((kind, message))) => vllm_error_is(e, kind, message, false),
            _ => false,
        },
{
    if !(1 <= max_tags && max_tags <= 200 && 1 <= max_length && max_length <= 4000) {
        return Err(output_limits_error());
    }
    if language == VllmLanguage::Danbooru {
        let mut tags = match parse_tag_output(raw) {
            Err(error) => {
                return Err(error);
            },
            Ok(tags) => tags,
        };
        let ghost before = string_views(tags@);
        tags.truncate(max_tags);
        assert(string_views(tags@) =~= before.take(
            if before.len() < max_tags {
                before.len() as int
            } else {
                max_tags as int
            },
        ));
        return Ok(tags);
    }
    let text = without_thinking_exec(&chars_of(raw));
    let candidate = match tag_block_exec(&text) {
        Some(block) => block,
        None => {
            let fence = vec!['`'];
            assert(fence@ =~= seq!['`']);
            trim_set(&trim_chars(&text), &fence)
        },
    };
    let pieces = crate::text::split_words(&candidate);
    let joined = crate::text::join_chars(&pieces, &chars_of(" "));
    let keep = if joined.len() < max_length {
        joined.len()
    } else {
        max_length
    };
    let description = slice_chars(&joined, 0, keep);
    assert(description@ =~= joined@.take(keep as int));
    if description.len() == 0 {
        return Err(vllm_error(VllmErrorKind::InvalidResponse, "模型未返回有效描述", false));
    }
    let mut tokens: Vec<String> = Vec::new();
    tokens.push(string_from_chars(&description));
    assert(string_views(tokens@) =~= seq![description@]);
    Ok(tokens)
}

// ---------------------------------------------------------------------
// Endpoint and configuration
// ---------------------------------------------------------------------

/// Host and port of an authority text, as `http::uri::Authority` reads it.
pub uninterp spec fn parsed_authority(text: Seq<char>) -> Option<(Seq<char>, Option<u16>)>;

/// Parses a `host:port` authority.
///
/// Trusted: wraps `<http::uri::Authority as FromStr>::from_str` and reads
/// the result with `host` and `port_u16`; the contract names what it
/// returns, which depends on the text alone.
#[verifier::external_body]
fn parse_authority(text: &str) -> (parsed: Option<(String, Option<u16>)>)
    ensures
        match parsed {
            Some((host, port)) => parsed_authority(text@) == Some((host@, port)),
            None => parsed_authority(text@) is None,
        },
{
    let authority = text.parse::<http::uri::Authority>().ok()?;
    Some((authority.host().to_owned(), authority.port_u16()))
}

/// An allow-list entry admits an endpoint host and effective port: the
/// entry has no `@`, parses as an authority with an explicit port equal to
/// the endpoint's, and names the same host (ASCII case ignored).
pub open spec fn entry_admits(entry: Seq<char>, host: Seq<char>, port: Option<u16>) -> bool {
    &&& !entry.contains('@')
    &&& parsed_authority(trim_spec(entry)) matches Some((allowed_host, Some(allowed_port)))
    &&& ascii_lower(crate::danbooru_client::unbracketed(allowed_host)) == ascii_lower(host)
    &&& port == Some(allowed_port)
}

/// The message of the endpoint policy's error, if any: the endpoint must
/// parse, have a host, carry no credentials, query or fragment, and be a
/// loopback HTTP(S) address or an HTTPS address whose host and port an
/// allow-list entry names exactly.
pub open spec fn endpoint_problem(candidate: Seq<char>, allowed: Seq<Seq<char>>) -> Option<Seq<char>> {
    match crate::danbooru_client::parsed_url(candidate) {
        None => Some("vLLM 地址无效"@),
        Some(parts) => match parts.host {
            None => Some("vLLM 地址缺少主机名"@),
            Some(raw_host) => {
                let host = crate::danbooru_client::unbracketed(raw_host);
                let loopback = crate::danbooru_client::is_loopback_text(host);
                let listed = exists|i: int| 0 <= i < allowed.len() && entry_admits(#[trigger] allowed[i], host, parts.port);
                let scheme_allowed = if loopback {
                    parts.scheme == "http"@ || parts.scheme == "https"@
                } else {
                    parts.scheme == "https"@ && listed
                };
                if !scheme_allowed || parts.username.len() > 0 || parts.password is Some || parts.query is Some
                    || parts.fragment is Some {
                    Some("vLLM 仅允许 loopback，或与 allowlist 中 host:port 精确匹配的 HTTPS 地址"@)
                } else {
                    None
                }
            },
        },
    }
}

fn entry_admits_exec(entry: &String, host: &Vec<char>, port: Option<u16>) -> (admits: bool)
    ensures
        admits == entry_admits(entry@, host@, port),
{
    let chars = chars_of(entry.as_str());
    if crate::text::contains_char(&chars, '@') {
        return false;
    }
    let trimmed = string_from_chars(&trim_chars(&chars));
    let (allowed_host, allowed_port) = match parse_authority(trimmed.as_str()) {
        None => {
            return false;
        },
        Some(parsed) => parsed,
    };
    let allowed_port = match allowed_port {
        None => {
            return false;
        },
        Some(p) => p,
    };
    let raw = chars_of(allowed_host.as_str());
    let bare = if raw.len() >= 2 && raw[0] == '[' && raw[raw.len() - 1] == ']' {
        slice_chars(&raw, 1, raw.len() - 1)
    } else {
        copy_chars(&raw)
    };
    crate::text::chars_equal(&lower_ascii_chars(&bare), &lower_ascii_chars(host)) && port == Some(
        allowed_port,
    )
}

/// Checks a vLLM endpoint against the loopback-or-allow-list policy (see
/// [`endpoint_problem`]).
pub fn validate_endpoint(candidate: &str, allowed_hosts: &Vec<String>) -> (result: Result<url::Url, String>)
    ensures
        match (result, endpoint_problem(candidate@, string_views(allowed_hosts@))) {
            (Ok(url), None) => url == crate::danbooru_client::parsed_url_value(candidate@),
            (Err(message), Some(expected)) => message@ == expected,
            _ => false,
        },
{
    let (url, parts) = match crate::danbooru_client::parse_url(candidate) {
        None => {
            return Err(owned("vLLM 地址无效"));
        },
        Some(parsed) => parsed,
    };
    let raw = match &parts.host {
        None => {
            return Err(owned("vLLM 地址缺少主机名"));
        },
        Some(host) => chars_of(host.as_str()),
    };
    let host = if raw.len() >= 2 && raw[0] == '[' && raw[raw.len() - 1] == ']' {
        slice_chars(&raw, 1, raw.len() - 1)
    } else {
        copy_chars(&raw)
    };
    let loopback = crate::danbooru_client::is_loopback_text_exec(&host);
    let ghost allowed = string_views(allowed_hosts@);
    let mut listed = false;
    let mut index: usize = 0;
    while index < allowed_hosts.len()
        invariant
            index <= allowed_hosts.len(),
            allowed == string_views(allowed_hosts@),
            listed == exists|i: int| 0 <= i < index && entry_admits(#[trigger] allowed[i], host@, parts.port),
        decreases allowed_hosts.len() - index,
    {
        assert(allowed[index as int] == allowed_hosts@[index as int]@);
        if entry_admits_exec(&allowed_hosts[index], &host, parts.port) {
            listed = true;
        }
        index += 1;
    }
    let scheme = chars_of(parts.scheme.as_str());
    let scheme_allowed = if loopback {
        chars_equal_str(&scheme, "http") || chars_equal_str(&scheme, "https")
    } else {
        chars_equal_str(&scheme, "https") && listed
    };
    let username = chars_of(parts.username.as_str());
    if !scheme_allowed || username.len() > 0 || parts.password.is_some() || parts.query.is_some()
        || parts.fragment.is_some() {
        return Err(owned("vLLM 仅允许 loopback，或与 allowlist 中 host:port 精确匹配的 HTTPS 地址"));
    }
    Ok(url)
}

/// The endpoint requests are sent below: the validated endpoint with a
/// trailing `/` on its path.
pub fn service_endpoint(endpoint: &str, allowed_hosts: &Vec<String>) -> (result: Result<url::Url, VllmError>)
    ensures
        match (result, endpoint_problem(endpoint@, string_views(allowed_hosts@))) {
            (Ok(url), None) => url == crate::danbooru_client::slash_terminated_url(endpoint@),
            (Err(e), Some(message)) => vllm_error_is(e, VllmErrorKind::InvalidEndpoint, message, false),
            _ => false,
        },
{
    let mut url = match validate_endpoint(endpoint, allowed_hosts) {
        Err(message) => {
            return Err(VllmError { kind: VllmErrorKind::InvalidEndpoint, message, retryable: false });
        },
        Ok(url) => url,
    };
    let parts = crate::danbooru_client::parse_url(endpoint);
    match parts {
        Some((_, parts)) => {
            let path = chars_of(parts.path.as_str());
            if path.len() == 0 || path[path.len() - 1] != '/' {
                let mut fixed = copy_chars(&path);
                fixed.push('/');
                let fixed_text = string_from_chars(&fixed);
                crate::danbooru_client::set_url_path(&mut url, fixed_text.as_str());
            }
        },
        None => {},
    }
    Ok(url)
}

/// The numeric and text bounds of a service configuration.
pub open spec fn config_bounds_ok(config: VllmServiceConfig) -> bool {
    &&& 1 <= config.concurrency <= 32
    &&& 1 <= config.batch_limit <= 10000
    &&& 1 <= config.max_attempts <= 3
    &&& 1 <= config.max_output_tokens <= 32768
    &&& 5 <= config.timeout_seconds <= 600
    &&& trim_spec(config.model@).len() > 0
    &&& crate::danbooru_client::utf8_len(config.model@) <= 1024
    &&& trim_spec(config.system_prompt@).len() > 0
    &&& crate::danbooru_client::utf8_len(config.system_prompt@) <= 65536
    &&& 64 <= config.image.max_side <= 4096
    &&& 1 <= config.image.jpeg_quality <= 100
    &&& 1 <= config.image.max_source_bytes <= 536870912
    &&& 1 <= config.image.max_pixels <= 200000000
    &&& 1 <= config.image.max_encoded_bytes <= 33554432
}

impl VllmServiceConfig {
    /// Checks the endpoint policy, then the safety bounds of every setting.
    pub fn validate(&self) -> (result: Result<(), VllmError>)
        ensures
            match endpoint_problem(self.endpoint@, string_views(self.allowed_hosts@)) {
                Some(message) => result matches Err(e) && vllm_error_is(
                    e,
                    VllmErrorKind::InvalidEndpoint,
                    message,
                    false,
                ),
                None => match result {
                    Ok(()) => config_bounds_ok(*self),
                    Err(e) => !config_bounds_ok(*self) && vllm_error_is(
                        e,
                        VllmErrorKind::InvalidRequest,
                        "vLLM 设置超出安全边界"@,
                        false,
                    ),
                },
            },
    {
        match validate_endpoint(self.endpoint.as_str(), &self.allowed_hosts) {
            Err(message) => {
                return Err(VllmError { kind: VllmErrorKind::InvalidEndpoint, message, retryable: false });
            },
            Ok(_) => {},
        }
        let model = chars_of(self.model.as_str());
        let prompt = chars_of(self.system_prompt.as_str());
        let valid = 1 <= self.concurrency && self.concurrency <= 32 && 1 <= self.batch_limit
            && self.batch_limit <= 10000 && 1 <= self.max_attempts && self.max_attempts <= 3 && 1
            <= self.max_output_tokens && self.max_output_tokens <= 32768 && 5 <= self.timeout_seconds
            && self.timeout_seconds <= 600 && trim_chars(&model).len() > 0
            && !crate::danbooru_client::utf8_len_exceeds(&model, 1024) && trim_chars(&prompt).len() > 0
            && !crate::danbooru_client::utf8_len_exceeds(&prompt, 65536) && 64 <= self.image.max_side
            && self.image.max_side <= 4096 && 1 <= self.image.jpeg_quality && self.image.jpeg_quality
            <= 100 && 1 <= self.image.max_source_bytes && self.image.max_source_bytes <= 536870912 && 1
            <= self.image.max_pixels && self.image.max_pixels <= 200000000 && 1
            <= self.image.max_encoded_bytes && self.image.max_encoded_bytes <= 33554432;
        if !valid {
            return Err(vllm_error(VllmErrorKind::InvalidRequest, "vLLM 设置超出安全边界", false));
        }
        Ok(())
    }
}

impl Default for VllmServiceConfig {
    /// The local server on port 8000, the default model and prompt, 16
    /// parallel requests, batches of 1000, 3 attempts, 2048 output tokens,
    /// a 120 s timeout, default image bounds, captions overwritten.
    fn default() -> (config: Self)
        ensures
            config.endpoint@ == "http://127.0.0.1:8000/v1"@,
            config.allowed_hosts@.len() == 0,
            config.model@ == DEFAULT_MODEL@,
            config.system_prompt@ == DEFAULT_SYSTEM_PROMPT@,
            config.concurrency == 16,
            config.batch_limit == 1000,
            config.max_attempts == 3,
            config.max_output_tokens == 2048,
            config.timeout_seconds == 120,
            config.image == (ImageConstraints {
                max_side: 1536,
                jpeg_quality: 85,
                max_source_bytes: 134217728,
                max_pixels: 100000000,
                max_encoded_bytes: 4194304,
            }),
            config.tag_mode == TagWriteMode::Overwrite,
    {
        VllmServiceConfig {
            endpoint: owned("http://127.0.0.1:8000/v1"),
            allowed_hosts: Vec::new(),
            model: owned(DEFAULT_MODEL),
            system_prompt: owned(DEFAULT_SYSTEM_PROMPT),
            concurrency: 16,
            batch_limit: 1000,
            max_attempts: 3,
            max_output_tokens: 2048,
            timeout_seconds: 120,
            image: ImageConstraints::default(),
            tag_mode: TagWriteMode::Overwrite,
        }
    }
}

// ---------------------------------------------------------------------
// Batch records
// ---------------------------------------------------------------------

/// A media file to caption.
#[derive(Debug)]
pub struct VllmBatchItem {
    pub media_id: String,
    pub image_path: PathBuf,
    pub existing_tags: Option<String>,
    pub sidecar_quarantine_path: Option<PathBuf>,
    /// Stable identity tokens (such as the original artist and character
    /// tags) that precede the inferred tags in the caption.
    pub tag_prefixes: Vec<String>,
}

/// A captioned media file.
#[derive(Debug, Clone, PartialEq, Eq)]
pub struct VllmTagSuccess {
    pub media_id: String,
    pub tags: Vec<String>,
    pub sidecar_written: bool,
}

/// The failed items of a batch.
#[derive(Debug, Clone, PartialEq, Eq)]
pub struct VllmRetryManifest {
    pub created_at: u64,
    pub items: Vec<VllmRetryItem>,
}

/// What a batch produced.
#[derive(Debug, Clone, PartialEq, Eq)]
pub struct VllmBatchResult {
    pub successes: Vec<VllmTagSuccess>,
    pub retry_manifest: VllmRetryManifest,
}

/// Whether the server answers, and its models.
#[derive(Debug, Clone, PartialEq, Eq)]
pub struct VllmHealth {
    pub available: bool,
    pub models: Vec<String>,
    pub message: String,
}

/// An image encoded for the request.
#[derive(Debug, Clone, PartialEq, Eq)]
pub struct PreparedImage {
    pub data_url: String,
    pub width: u32,
    pub height: u32,
    pub encoded_bytes: usize,
}

/// The success record of a captioned item: the merged caption, written.
pub fn tag_success(media_id: String, tags: Vec<String>) -> (success: VllmTagSuccess)
    ensures
        success == (VllmTagSuccess { media_id, tags, sidecar_written: true }),
{
    VllmTagSuccess { media_id, tags, sidecar_written: true }
}

// ---------------------------------------------------------------------
// Batch results in media id order
// ---------------------------------------------------------------------

/// Position in `order` of the first entry whose key comes after `x`.
pub open spec fn first_key_after(keys: Seq<Seq<char>>, order: Seq<int>, x: Seq<char>) -> nat
    decreases order.len(),
{
    if order.len() == 0 {
        0
    } else if crate::text::lex_lt(x, keys[order[0]]) {
        0
    } else {
        1 + first_key_after(keys, order.drop_first(), x)
    }
}

/// The order of the first `n` entries by key (string order): each entry
/// goes after every earlier one whose key does not come after its own, so
/// entries with equal keys keep their order.
pub open spec fn key_order(keys: Seq<Seq<char>>, n: nat) -> Seq<int>
    decreases n,
{
    if n == 0 {
        Seq::empty()
    } else {
        let before = key_order(keys, (n - 1) as nat);
        before.insert(first_key_after(keys, before, keys[n - 1]) as int, n - 1)
    }
}

proof fn lemma_first_key_after(keys: Seq<Seq<char>>, order: Seq<int>, x: Seq<char>)
    ensures
        first_key_after(keys, order, x) <= order.len(),
        forall|p: int|
            0 <= p < first_key_after(keys, order, x) ==> !crate::text::lex_lt(x, keys[#[trigger] order[p]]),
        first_key_after(keys, order, x) < order.len() ==> crate::text::lex_lt(
            x,
            keys[order[first_key_after(keys, order, x) as int]],
        ),
    decreases order.len(),
{
    if order.len() > 0 && !crate::text::lex_lt(x, keys[order[0]]) {
        let rest = order.drop_first();
        lemma_first_key_after(keys, rest, x);
        assert forall|p: int| 0 <= p < first_key_after(keys, order, x) implies !crate::text::lex_lt(
            x,
            keys[#[trigger] order[p]],
        ) by {
            if p > 0 {
                assert(order[p] == rest[p - 1]);
            }
        }
    }
}

/// `a` does not come after `b`.
pub open spec fn key_le(a: Seq<char>, b: Seq<char>) -> bool {
    !crate::text::lex_lt(b, a)
}

proof fn lemma_key_le_transitive(a: Seq<char>, b: Seq<char>, c: Seq<char>)
    requires
        key_le(a, b),
        key_le(b, c),
    ensures
        key_le(a, c),
{
    crate::text::lemma_lex_total(a, b);
    crate::text::lemma_lex_total(b, c);
    if crate::text::lex_lt(c, a) {
        if crate::text::lex_lt(a, b) {
            crate::text::lemma_lex_transitive(c, a, b);
        }
    }
}

/// Batch entries come out in key order: each of the first `n` entries
/// once, keys never decreasing, and entries with equal keys in the order
/// they came.
pub proof fn law_key_order_sorted_and_stable(keys: Seq<Seq<char>>, n: nat)
    requires
        n <= keys.len(),
    ensures
        key_order(keys, n).len() == n,
        forall|p: int| 0 <= p < n ==> 0 <= #[trigger] key_order(keys, n)[p] < n,
        forall|p: int, q: int| 0 <= p < q < n ==> key_order(keys, n)[p] != key_order(keys, n)[q],
        forall|p: int, q: int|
            0 <= p < q < n ==> key_le(keys[key_order(keys, n)[p]], keys[key_order(keys, n)[q]]),
        forall|p: int, q: int|
            0 <= p < q < n && keys[key_order(keys, n)[p]] == keys[key_order(keys, n)[q]]
                ==> key_order(keys, n)[p] < key_order(keys, n)[q],
    decreases n,
{
    if n > 0 {
        let m = (n - 1) as nat;
        law_key_order_sorted_and_stable(keys, m);
        let before = key_order(keys, m);
        let x = keys[n - 1];
        let k = first_key_after(keys, before, x) as int;
        lemma_first_key_after(keys, before, x);
        let after = key_order(keys, n);
        assert(after == before.insert(k, n - 1));
        assert forall|p: int| k <= p < m implies crate::text::lex_lt(x, keys[#[trigger] before[p]]) by {
            if p > k {
                assert(key_le(keys[before[k]], keys[before[p]]));
                crate::text::lemma_lex_total(keys[before[k]], keys[before[p]]);
                if crate::text::lex_lt(keys[before[k]], keys[before[p]]) {
                    crate::text::lemma_lex_transitive(x, keys[before[k]], keys[before[p]]);
                }
            }
        }
        assert forall|p: int| 0 <= p < n implies 0 <= #[trigger] after[p] < n by {
            if p > k {
                assert(after[p] == before[p - 1]);
            } else if p < k {
                assert(after[p] == before[p]);
            }
        }
        assert forall|p: int, q: int| 0 <= p < q < n implies after[p] != after[q] by {
            if p < k {
                assert(after[p] == before[p]);
            } else if p > k {
                assert(after[p] == before[p - 1]);
            }
            if q < k {
                assert(after[q] == before[q]);
            } else if q > k {
                assert(after[q] == before[q - 1]);
            }
        }
        assert forall|p: int, q: int| 0 <= p < q < n implies key_le(keys[after[p]], keys[after[q]]) && (
        keys[after[p]] == keys[after[q]] ==> after[p] < after[q]) by {
            if p < k {
                assert(after[p] == before[p]);
            } else if p > k {
                assert(after[p] == before[p - 1]);
            }
            if q < k {
                assert(after[q] == before[q]);
            } else if q > k {
                assert(after[q] == before[q - 1]);
            }
            if p == k {
                crate::text::lemma_lex_asymmetric(x, keys[after[q]]);
            }
            if q == k && p < k {
                crate::text::lemma_lex_total(x, keys[after[p]]);
            }
            if p < k && q > k {
                crate::text::lemma_lex_asymmetric(x, keys[after[q]]);
                crate::text::lemma_lex_total(x, keys[after[p]]);
                lemma_key_le_transitive(keys[after[p]], x, keys[after[q]]);
                if keys[after[p]] == keys[after[q]] {
                    crate::text::lemma_lex_irreflexive(x);
                }
            }
            if p == k && keys[after[p]] == keys[after[q]] {
                crate::text::lemma_lex_irreflexive(x);
            }
        }
        assert forall|p: int, q: int| 0 <= p < q < n && keys[after[p]] == keys[after[q]] implies after[p] < after[q] by {
            if p < k {
                assert(after[p] == before[p]);
                assert(0 <= before[p] < m);
            } else if p > k {
                assert(after[p] == before[p - 1]);
            }
            if q < k {
                assert(after[q] == before[q]);
            } else if q > k {
                assert(after[q] == before[q - 1]);
                assert(0 <= before[q - 1] < m);
            }
            if p > k && q > k {
                assert(keys[before[p - 1]] == keys[before[q - 1]]);
                assert(before[p - 1] < before[q - 1]);
            }
            if p < k && q < k {
                assert(before[p] < before[q]);
            }
            if p == k {
                crate::text::lemma_lex_irreflexive(x);
            }
            if p < k && q > k {
                crate::text::lemma_lex_irreflexive(x);
            }
        }
    }
}

/// The media ids of successes.
pub open spec fn success_ids(items: Seq<VllmTagSuccess>) -> Seq<Seq<char>> {
    items.map_values(|item: VllmTagSuccess| item.media_id@)
}

/// The media ids of failures.
pub open spec fn failure_ids(items: Seq<VllmRetryItem>) -> Seq<Seq<char>> {
    items.map_values(|item: VllmRetryItem| item.media_id@)
}

/// `items` in media id order (see [`key_order`]).
fn sort_successes(items: Vec<VllmTagSuccess>) -> (sorted: Vec<VllmTagSuccess>)
    ensures
        sorted.len() == items.len(),
        forall|p: int|
            0 <= p < sorted.len() ==> (#[trigger] sorted@[p]) == items@[key_order(success_ids(items@), items.len() as nat)[p]],
{
    let ghost original = items@;
    let ghost keys = success_ids(original);
    let n = items.len();
    let mut remaining = items;
    let mut sorted: Vec<VllmTagSuccess> = Vec::new();
    let mut i: usize = 0;
    while remaining.len() > 0
        invariant
            n == original.len(),
            keys == success_ids(original),
            i + remaining.len() == n,
            remaining@ == original.skip(i as int),
            sorted.len() == i,
            forall|p: int| 0 <= p < i ==> (#[trigger] sorted@[p]) == original[key_order(keys, i as nat)[p]],
        decreases remaining.len(),
    {
        proof {
            law_key_order_sorted_and_stable(keys, i as nat);
        }
        let ghost order = key_order(keys, i as nat);
        let item = remaining.remove(0);
        assert(item == original[i as int]);
        assert(remaining@ =~= original.skip(i + 1));
        let mut k: usize = 0;
        assert(order.subrange(0, order.len() as int) =~= order);
        while k < sorted.len() && !crate::text::str_less(item.media_id.as_str(), sorted[k].media_id.as_str())
            invariant
                n == original.len(),
                keys == success_ids(original),
                i < n,
                item == original[i as int],
                order == key_order(keys, i as nat),
                order.len() == i,
                sorted.len() == i,
                forall|p: int| 0 <= p < i ==> 0 <= #[trigger] order[p] < i,
                forall|p: int| 0 <= p < i ==> (#[trigger] sorted@[p]) == original[order[p]],
                k <= sorted.len(),
                first_key_after(keys, order, keys[i as int]) == k + first_key_after(
                    keys,
                    order.subrange(k as int, order.len() as int),
                    keys[i as int],
                ),
            decreases sorted.len() - k,
        {
            proof {
                let rest = order.subrange(k as int, order.len() as int);
                assert(rest[0] == order[k as int]);
                assert(keys[order[k as int]] == sorted@[k as int].media_id@);
                assert(keys[i as int] == item.media_id@);
                assert(rest.drop_first() =~= order.subrange(k + 1, order.len() as int));
            }
            k += 1;
        }
        proof {
            let rest = order.subrange(k as int, order.len() as int);
            assert(keys[i as int] == item.media_id@);
            if k < sorted.len() {
                assert(rest[0] == order[k as int]);
                assert(keys[order[k as int]] == sorted@[k as int].media_id@);
            } else {
                assert(rest.len() == 0);
            }
        }
        let ghost before = sorted@;
        sorted.insert(k, item);
        proof {
            let next = key_order(keys, (i + 1) as nat);
            assert(next == order.insert(k as int, i as int));
            assert forall|p: int| 0 <= p < i + 1 implies (#[trigger] sorted@[p]) == original[next[p]] by {
                if p < k {
                    assert(sorted@[p] == before[p]);
                } else if p > k {
                    assert(sorted@[p] == before[p - 1]);
                }
            }
        }
        i += 1;
    }
    sorted
}

/// `items` in media id order (see [`key_order`]).
fn sort_failures(items: Vec<VllmRetryItem>) -> (sorted: Vec<VllmRetryItem>)
    ensures
        sorted.len() == items.len(),
        forall|p: int|
            0 <= p < sorted.len() ==> (#[trigger] sorted@[p]) == items@[key_order(failure_ids(items@), items.len() as nat)[p]],
{
    let ghost original = items@;
    let ghost keys = failure_ids(original);
    let n = items.len();
    let mut remaining = items;
    let mut sorted: Vec<VllmRetryItem> = Vec::new();
    let mut i: usize = 0;
    while remaining.len() > 0
        invariant
            n == original.len(),
            keys == failure_ids(original),
            i + remaining.len() == n,
            remaining@ == original.skip(i as int),
            sorted.len() == i,
            forall|p: int| 0 <= p < i ==> (#[trigger] sorted@[p]) == original[key_order(keys, i as nat)[p]],
        decreases remaining.len(),
    {
        proof {
            law_key_order_sorted_and_stable(keys, i as nat);
        }
        let ghost order = key_order(keys, i as nat);
        let item = remaining.remove(0);
        assert(item == original[i as int]);
        assert(remaining@ =~= original.skip(i + 1));
        let mut k: usize = 0;
        assert(order.subrange(0, order.len() as int) =~= order);
        while k < sorted.len() && !crate::text::str_less(item.media_id.as_str(), sorted[k].media_id.as_str())
            invariant
                n == original.len(),
                keys == failure_ids(original),
                i < n,
                item == original[i as int],
                order == key_order(keys, i as nat),
                order.len() == i,
                sorted.len() == i,
                forall|p: int| 0 <= p < i ==> 0 <= #[trigger] order[p] < i,
                forall|p: int| 0 <= p < i ==> (#[trigger] sorted@[p]) == original[order[p]],
                k <= sorted.len(),
                first_key_after(keys, order, keys[i as int]) == k + first_key_after(
                    keys,
                    order.subrange(k as int, order.len() as int),
                    keys[i as int],
                ),
            decreases sorted.len() - k,
        {
            proof {
                let rest = order.subrange(k as int, order.len() as int);
                assert(rest[0] == order[k as int]);
                assert(keys[order[k as int]] == sorted@[k as int].media_id@);
                assert(keys[i as int] == item.media_id@);
                assert(rest.drop_first() =~= order.subrange(k + 1, order.len() as int));
            }
            k += 1;
        }
        proof {
            let rest = order.subrange(k as int, order.len() as int);
            assert(keys[i as int] == item.media_id@);
            if k < sorted.len() {
                assert(rest[0] == order[k as int]);
                assert(keys[order[k as int]] == sorted@[k as int].media_id@);
            } else {
                assert(rest.len() == 0);
            }
        }
        let ghost before = sorted@;
        sorted.insert(k, item);
        proof {
            let next = key_order(keys, (i + 1) as nat);
            assert(next == order.insert(k as int, i as int));
            assert forall|p: int| 0 <= p < i + 1 implies (#[trigger] sorted@[p]) == original[next[p]] by {
                if p < k {
                    assert(sorted@[p] == before[p]);
                } else if p > k {
                    assert(sorted@[p] == before[p - 1]);
                }
            }
        }
        i += 1;
    }
    sorted
}

/// The result of a batch: its successes and its failures, each in media id
/// order (see [`key_order`]), the failures stamped with the time of the
/// batch.
pub fn batch_result(successes: Vec<VllmTagSuccess>, failures: Vec<VllmRetryItem>, created_at: u64) -> (result: VllmBatchResult)
    ensures
        result.successes.len() == successes.len(),
        forall|p: int|
            0 <= p < successes.len() ==> (#[trigger] result.successes@[p]) == successes@[key_order(
                success_ids(successes@),
                successes.len() as nat,
            )[p]],
        result.retry_manifest.created_at == created_at,
        result.retry_manifest.items.len() == failures.len(),
        forall|p: int|
            0 <= p < failures.len() ==> (#[trigger] result.retry_manifest.items@[p]) == failures@[key_order(
                failure_ids(failures@),
                failures.len() as nat,
            )[p]],
{
    let successes = sort_successes(successes);
    let failures = sort_failures(failures);
    VllmBatchResult { successes, retry_manifest: VllmRetryManifest { created_at, items: failures } }
}

// ---------------------------------------------------------------------
// Service errors and health
// ---------------------------------------------------------------------

/// The error for an HTTP client that could not be set up.
pub fn client_build_error(detail: &str) -> (error: VllmError)
    ensures
        vllm_error_is(error, VllmErrorKind::InvalidRequest, "无法创建 vLLM 客户端: "@ + detail@, false),
{
    vllm_error_with_detail(VllmErrorKind::InvalidRequest, "无法创建 vLLM 客户端: ", detail, false)
}

/// The error for an endpoint path (`models` or `chat/completions`) that
/// does not join onto the endpoint.
pub fn route_error(models: bool) -> (error: VllmError)
    ensures
        vllm_error_is(
            error,
            VllmErrorKind::InvalidEndpoint,
            if models {
                "无法构造 vLLM models 地址"@
            } else {
                "无法构造 vLLM chat/completions 地址"@
            },
            false,
        ),
{
    if models {
        vllm_error(VllmErrorKind::InvalidEndpoint, "无法构造 vLLM models 地址", false)
    } else {
        vllm_error(VllmErrorKind::InvalidEndpoint, "无法构造 vLLM chat/completions 地址", false)
    }
}

/// The error for a model list or a chat answer that does not decode.
pub fn answer_parse_error(models: bool, detail: &str) -> (error: VllmError)
    ensures
        vllm_error_is(
            error,
            VllmErrorKind::InvalidResponse,
            (if models {
                "无法解析 vLLM 模型列表: "@
            } else {
                "无法解析 vLLM 响应: "@
            }) + detail@,
            false,
        ),
{
    if models {
        vllm_error_with_detail(VllmErrorKind::InvalidResponse, "无法解析 vLLM 模型列表: ", detail, false)
    } else {
        vllm_error_with_detail(VllmErrorKind::InvalidResponse, "无法解析 vLLM 响应: ", detail, false)
    }
}

/// The text of a chat answer: the first choice's content, which must be
/// there.
pub fn answer_content(first_choice: Option<&str>) -> (result: Result<&str, VllmError>)
    ensures
        match first_choice {
            Some(text) => result == Ok::<&str, VllmError>(text),
            None => result matches Err(e) && vllm_error_is(
                e,
                VllmErrorKind::InvalidResponse,
                "vLLM 响应没有文本内容"@,
                false,
            ),
        },
{
    match first_choice {
        Some(text) => Ok(text),
        None => Err(vllm_error(VllmErrorKind::InvalidResponse, "vLLM 响应没有文本内容", false)),
    }
}

/// Checks a response body size against `limit`.
pub fn check_answer_size(length: u64, limit: u64) -> (result: Result<(), VllmError>)
    ensures
        match result {
            Ok(()) => length <= limit,
            Err(e) => length > limit && vllm_error_is(e, VllmErrorKind::InvalidResponse, "vLLM 响应超过大小限制"@, false),
        },
{
    if length > limit {
        return Err(vllm_error(VllmErrorKind::InvalidResponse, "vLLM 响应超过大小限制", false));
    }
    Ok(())
}

/// The failure of an item whose worker could not run: the queue closed,
/// the image preparation or the caption write failed to run, or the task
/// itself broke (`detail` describes it).
#[derive(Debug, Clone, Copy, PartialEq, Eq, Structural)]
pub enum WorkerFailure {
    QueueClosed,
    Preparation,
    SidecarWrite,
    Batch,
}

/// The error a worker failure is reported with.
pub fn worker_error(failure: WorkerFailure, detail: &str) -> (error: VllmError)
    ensures
        match failure {
            WorkerFailure::QueueClosed => vllm_error_is(error, VllmErrorKind::Upstream, "vLLM 并发队列已关闭"@, true),
            WorkerFailure::Preparation => vllm_error_is(
                error,
                VllmErrorKind::InvalidImage,
                "图片预处理线程异常: "@ + detail@,
                false,
            ),
            WorkerFailure::SidecarWrite => vllm_error_is(
                error,
                VllmErrorKind::SidecarWrite,
                "标签写入线程异常: "@ + detail@,
                false,
            ),
            WorkerFailure::Batch => vllm_error_is(
                error,
                VllmErrorKind::Upstream,
                "vLLM 批处理工作线程异常: "@ + detail@,
                true,
            ),
        },
{
    match failure {
        WorkerFailure::QueueClosed => vllm_error(VllmErrorKind::Upstream, "vLLM 并发队列已关闭", true),
        WorkerFailure::Preparation => vllm_error_with_detail(VllmErrorKind::InvalidImage, "图片预处理线程异常: ", detail, false),
        WorkerFailure::SidecarWrite => vllm_error_with_detail(VllmErrorKind::SidecarWrite, "标签写入线程异常: ", detail, false),
        WorkerFailure::Batch => vllm_error_with_detail(VllmErrorKind::Upstream, "vLLM 批处理工作线程异常: ", detail, true),
    }
}

/// The health report of a model list request.
pub fn health_report(models: Result<Vec<String>, VllmError>) -> (health: VllmHealth)
    ensures
        match models {
            Ok(list) => health.available && health.models == list && health.message@ == "vLLM 可用，发现 "@
                + decimal(list.len() as nat) + " 个模型"@,
            Err(e) => !health.available && health.models@.len() == 0 && health.message == e.message,
        },
{
    match models {
        Ok(list) => {
            let mut text = chars_of("vLLM 可用，发现 ");
            append_chars(&mut text, &u64_to_chars(list.len() as u64));
            append_chars(&mut text, &chars_of(" 个模型"));
            VllmHealth { available: true, models: list, message: string_from_chars(&text) }
        },
        Err(e) => VllmHealth { available: false, models: Vec::new(), message: e.message },
    }
}

// ---------------------------------------------------------------------
// Caption files
// ---------------------------------------------------------------------

/// What the file system reports of an existing caption file.
#[derive(Debug, Clone, Copy, PartialEq, Eq, Structural)]
pub struct SidecarFacts {
    pub is_symlink: bool,
    pub is_file: bool,
    pub len: u64,
}

/// Largest caption file that is replaced (8 MiB).
pub const MAX_SIDECAR_BYTES: u64 = 8388608;

/// Why a caption write is refused before anything is written, if it is:
/// the media is not a regular file, the caption file in place is a link,
/// not a regular file or over 8 MiB, it would be replaced without a
/// quarantine target, or that target is the caption file itself.
pub open spec fn sidecar_write_problem(
    image_is_file: bool,
    existing: Option<SidecarFacts>,
    quarantine: Option<bool>,
) -> Option<Seq<char>> {
    if !image_is_file {
        Some("标签目标不是普通媒体文件"@)
    } else if existing matches Some(facts) && (facts.is_symlink || !facts.is_file) {
        Some("拒绝替换非普通标签文件"@)
    } else if existing matches Some(facts) && facts.len > MAX_SIDECAR_BYTES {
        Some("现有标签文件超过 8 MiB 限制"@)
    } else if existing is Some && quarantine is None {
        Some("替换现有标签文件必须提供隔离目标"@)
    } else if quarantine == Some(true) {
        Some("标签文件与隔离目标不能相同"@)
    } else {
        None
    }
}

/// Checks a caption write (see [`sidecar_write_problem`]); `quarantine`
/// tells, when a quarantine target is given, whether it is the caption
/// file's own path.
pub fn check_sidecar_write(
    image_is_file: bool,
    existing: Option<SidecarFacts>,
    quarantine: Option<bool>,
) -> (result: Result<(), VllmError>)
    ensures
        match (result, sidecar_write_problem(image_is_file, existing, quarantine)) {
            (Ok(()), None) => true,
            (Err(e), Some(message)) => vllm_error_is(e, VllmErrorKind::SidecarWrite, message, false),
            _ => false,
        },
{
    if !image_is_file {
        return Err(vllm_error(VllmErrorKind::SidecarWrite, "标签目标不是普通媒体文件", false));
    }
    match existing {
        Some(facts) => {
            if facts.is_symlink || !facts.is_file {
                return Err(vllm_error(VllmErrorKind::SidecarWrite, "拒绝替换非普通标签文件", false));
            }
            if facts.len > MAX_SIDECAR_BYTES {
                return Err(vllm_error(VllmErrorKind::SidecarWrite, "现有标签文件超过 8 MiB 限制", false));
            }
            if quarantine.is_none() {
                return Err(vllm_error(VllmErrorKind::SidecarWrite, "替换现有标签文件必须提供隔离目标", false));
            }
        },
        None => {},
    }
    if quarantine == Some(true) {
        return Err(vllm_error(VllmErrorKind::SidecarWrite, "标签文件与隔离目标不能相同", false));
    }
    Ok(())
}

/// The error for a caption write that cannot go ahead for want of a place:
/// the quarantine target exists, or the caption file or the quarantine
/// target has no parent directory.
#[derive(Debug, Clone, Copy, PartialEq, Eq, Structural)]
pub enum SidecarPlaceProblem {
    QuarantineTaken,
    NoParent,
    NoQuarantineParent,
}

/// The error a [`SidecarPlaceProblem`] is reported with.
pub fn sidecar_place_error(problem: SidecarPlaceProblem) -> (error: VllmError)
    ensures
        vllm_error_is(
            error,
            VllmErrorKind::SidecarWrite,
            match problem {
                SidecarPlaceProblem::QuarantineTaken => "标签隔离目标已存在"@,
                SidecarPlaceProblem::NoParent => "标签文件缺少父目录"@,
                SidecarPlaceProblem::NoQuarantineParent => "标签隔离目标缺少父目录"@,
            },
            false,
        ),
{
    match problem {
        SidecarPlaceProblem::QuarantineTaken => vllm_error(VllmErrorKind::SidecarWrite, "标签隔离目标已存在", false),
        SidecarPlaceProblem::NoParent => vllm_error(VllmErrorKind::SidecarWrite, "标签文件缺少父目录", false),
        SidecarPlaceProblem::NoQuarantineParent => vllm_error(VllmErrorKind::SidecarWrite, "标签隔离目标缺少父目录", false),
    }
}

/// The error for a caption file that could not be put in place, with the
/// failure to move the old caption back, if that failed too.
pub fn sidecar_replace_error(detail: &str, rollback: Option<&str>) -> (error: VllmError)
    ensures
        vllm_error_is(
            error,
            VllmErrorKind::SidecarWrite,
            "无法原子替换标签文件: "@ + detail@ + match rollback {
                Some(failure) => "；旧标签回滚失败: "@ + failure@,
                None => Seq::<char>::empty(),
            },
            false,
        ),
{
    let mut text = chars_of("无法原子替换标签文件: ");
    append_chars(&mut text, &chars_of(detail));
    let ghost head = text@;
    match rollback {
        Some(failure) => {
            append_chars(&mut text, &chars_of("；旧标签回滚失败: "));
            append_chars(&mut text, &chars_of(failure));
            assert(text@ =~= head + ("；旧标签回滚失败: "@ + failure@));
        },
        None => {
            assert(text@ =~= head + Seq::<char>::empty());
        },
    }
    VllmError { kind: VllmErrorKind::SidecarWrite, message: string_from_chars(&text), retryable: false }
}

// ---------------------------------------------------------------------
// Image preparation
// ---------------------------------------------------------------------

/// Image formats the model is sent.
pub open spec fn is_model_image_extension(e: Seq<char>) -> bool {
    e == "png"@ || e == "jpg"@ || e == "jpeg"@ || e == "bmp"@ || e == "webp"@ || e == "gif"@
}

/// Why an image cannot be sent, before it is read: its (ASCII lower-cased)
/// extension is not a still image format, or the constraints are unusable.
pub open spec fn image_request_problem(extension: Seq<char>, constraints: ImageConstraints) -> Option<
    (VllmErrorKind, Seq<char>),
> {
    if !is_model_image_extension(ascii_lower(extension)) {
        Some((VllmErrorKind::UnsupportedMedia, "vLLM 视觉打标仅接受静态图片或可解码图片；视频、Ugoira 与 SWF 被拒绝"@))
    } else if constraints.max_side == 0 || !(1 <= constraints.jpeg_quality <= 100) || constraints.max_source_bytes == 0
        || constraints.max_pixels == 0 || constraints.max_encoded_bytes == 0 {
        Some((VllmErrorKind::InvalidRequest, "图片约束参数无效"@))
    } else {
        None
    }
}

/// Checks an image request (see [`image_request_problem`]); `extension` is
/// the file's extension, empty when it has none.
pub fn check_image_request(extension: &str, constraints: &ImageConstraints) -> (result: Result<(), VllmError>)
    ensures
        match (result, image_request_problem(extension@, *constraints)) {
            (Ok(()), None) => true,
            (Err(e), Some((kind, message))) => vllm_error_is(e, kind, message, false),
            _ => false,
        },
{
    let e = lower_ascii_chars(&chars_of(extension));
    let supported = chars_equal_str(&e, "png") || chars_equal_str(&e, "jpg") || chars_equal_str(&e, "jpeg")
        || chars_equal_str(&e, "bmp") || chars_equal_str(&e, "webp") || chars_equal_str(&e, "gif");
    if !supported {
        return Err(
            vllm_error(
                VllmErrorKind::UnsupportedMedia,
                "vLLM 视觉打标仅接受静态图片或可解码图片；视频、Ugoira 与 SWF 被拒绝",
                false,
            ),
        );
    }
    if constraints.max_side == 0 || constraints.jpeg_quality == 0 || constraints.jpeg_quality > 100
        || constraints.max_source_bytes == 0 || constraints.max_pixels == 0 || constraints.max_encoded_bytes == 0 {
        return Err(vllm_error(VllmErrorKind::InvalidRequest, "图片约束参数无效", false));
    }
    Ok(())
}

/// The error for image metadata that could not be read.
pub fn image_metadata_error(detail: &str) -> (error: VllmError)
    ensures
        vllm_error_is(error, VllmErrorKind::Io, "无法读取图片元数据: "@ + detail@, false),
{
    vllm_error_with_detail(VllmErrorKind::Io, "无法读取图片元数据: ", detail, false)
}

/// Checks the source file: a regular file within the size limit.
pub fn check_image_file(is_file: bool, len: u64, constraints: &ImageConstraints) -> (result: Result<(), VllmError>)
    ensures
        match result {
            Ok(()) => is_file && len <= constraints.max_source_bytes,
            Err(e) => !(is_file && len <= constraints.max_source_bytes) && vllm_error_is(
                e,
                VllmErrorKind::InvalidImage,
                "图片不是普通文件或超过源文件大小限制"@,
                false,
            ),
        },
{
    if !is_file || len > constraints.max_source_bytes {
        return Err(vllm_error(VllmErrorKind::InvalidImage, "图片不是普通文件或超过源文件大小限制", false));
    }
    Ok(())
}

/// Checks the pixel count (width × height, saturating) against the limit.
pub fn check_image_pixels(width: u32, height: u32, constraints: &ImageConstraints) -> (result: Result<(), VllmError>)
    ensures
        match result {
            Ok(()) => width * height <= constraints.max_pixels,
            Err(e) => width * height > constraints.max_pixels && vllm_error_is(
                e,
                VllmErrorKind::InvalidImage,
                "图片像素数量超过模型输入限制"@,
                false,
            ),
        },
{
    assert((width as u64) * (height as u64) <= 0xffff_ffff * 0xffff_ffffu64) by (nonlinear_arith)
        requires
            width <= 0xffff_ffffu32,
            height <= 0xffff_ffffu32,
    ;
    let pixels = (width as u64) * (height as u64);
    if pixels > constraints.max_pixels {
        return Err(vllm_error(VllmErrorKind::InvalidImage, "图片像素数量超过模型输入限制", false));
    }
    Ok(())
}

/// The JPEG quality to try after an encoding came out too large: ten
/// less, but not below 50; `None` once the quality is 50 or less.
pub fn next_jpeg_quality(quality: u8) -> (next: Option<u8>)
    ensures
        next == (if quality > 50 {
            Some((if quality - 10 >= 50 {
                quality - 10
            } else {
                50
            }) as u8)
        } else {
            None
        }),
{
    if quality > 50 {
        let lowered = quality - 10;
        Some(if lowered >= 50 {
            lowered
        } else {
            50
        })
    } else {
        None
    }
}

/// Whether an image that still encodes too large may be shrunk further:
/// only while its longer side is over 128 pixels.
pub fn check_can_shrink(width: u32, height: u32) -> (result: Result<(), VllmError>)
    ensures
        match result {
            Ok(()) => width > 128 || height > 128,
            Err(e) => width <= 128 && height <= 128 && vllm_error_is(
                e,
                VllmErrorKind::InvalidImage,
                "压缩后图片仍超过模型输入字节限制"@,
                false,
            ),
        },
{
    if width <= 128 && height <= 128 {
        return Err(vllm_error(VllmErrorKind::InvalidImage, "压缩后图片仍超过模型输入字节限制", false));
    }
    Ok(())
}

/// A colour channel of a pixel with opacity `alpha` laid over white:
/// `(channel·alpha + 255·(255 − alpha)) / 255`, rounded down.
pub fn over_white(channel: u8, alpha: u8) -> (blended: u8)
    ensures
        blended == (channel * alpha + 255 * (255 - alpha)) / 255,
{
    let inverse: u16 = 255 - alpha as u16;
    assert((channel as u16) * (alpha as u16) <= 255 * alpha) by (nonlinear_arith)
        requires
            channel <= 255,
    ;
    let total: u16 = (channel as u16) * (alpha as u16) + 255 * inverse;
    assert(total / 255 <= 255) by (nonlinear_arith)
        requires
            total <= 65025,
    ;
    (total / 255) as u8
}

/// The standard (padded) Base64 text of some bytes.
pub uninterp spec fn base64_standard(data: Seq<u8>) -> Seq<char>;

/// Base64 text of some bytes.
///
/// Trusted: wraps `base64::engine::general_purpose::STANDARD.encode`; the
/// contract claims only that the text is a function of the bytes, named
/// [`base64_standard`].
#[verifier::external_body]
fn base64_encode(data: &[u8]) -> (text: String)
    ensures
        text@ == base64_standard(data@),
{
    base64::Engine::encode(&base64::engine::general_purpose::STANDARD, data)
}

/// The data URL a JPEG is sent to the model in:
/// `data:image/jpeg;base64,` and the Base64 text of its bytes.
pub fn jpeg_data_url(encoded: &Vec<u8>) -> (url: String)
    ensures
        url@ == "data:image/jpeg;base64,"@ + base64_standard(encoded@),
{
    let mut text = chars_of("data:image/jpeg;base64,");
    let body = base64_encode(encoded.as_slice());
    crate::text::append_chars(&mut text, &chars_of(body.as_str()));
    string_from_chars(&text)
}

} // verus!
