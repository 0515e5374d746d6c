//! Rules for confirming a planned tool manifest: which manifests and files an
//! operation accepts, what a quarantine move may touch, the names of the
//! temporary files written before publishing, and the caption tags looked up
//! before a classified tag pipeline run.  The file system work happens around
//! these checks.
use std::path::PathBuf;
use vstd::prelude::*;

use crate::danbooru_client::string_views;
use crate::image_processor::{
    caption_separators, file_extension, invalid_manifest, relative_components, validate_relative_path,
    RestoreResult, SelectedMedia, SimilarPair, TagPipelineConfig, ToolCandidate, ToolError, ToolManifest,
    ToolOperation, QUARANTINE_DIR,
};
use crate::text::{char_views, chars_of, one_of, split_when, string_from_chars, trim_spec};

verus! {

// ---------------------------------------------------------------------
// Which manifest an operation accepts
// ---------------------------------------------------------------------

/// A file name with a HEIC or HEIF extension (ASCII case ignored).
pub open spec fn is_heic_name(name: Seq<char>) -> bool {
    file_extension(name) matches Some(e) && (crate::text::ascii_lower(e) == "heic"@ || crate::text::ascii_lower(e)
        == "heif"@)
}

/// Checks that a manifest was planned as a HEIC conversion.
pub fn check_heic_operation(operation: ToolOperation) -> (result: Result<(), ToolError>)
    ensures
        match result {
            Ok(()) => operation == ToolOperation::HeicConvert,
            Err(e) => operation != ToolOperation::HeicConvert && invalid_manifest(e, "预检清单不是 HEIC 转换操作"@),
        },
{
    if operation != ToolOperation::HeicConvert {
        return Err(ToolError::InvalidManifest(crate::text::owned("预检清单不是 HEIC 转换操作")));
    }
    Ok(())
}

/// Checks one candidate of a HEIC conversion manifest: it carries no
/// companion files and its file name (empty where the path has none) is a
/// HEIC or HEIF file.
pub fn check_heic_candidate(has_companions: bool, file_name: &str) -> (result: Result<(), ToolError>)
    ensures
        match result {
            Ok(()) => !has_companions && is_heic_name(file_name@),
            Err(e) => (has_companions || !is_heic_name(file_name@)) && invalid_manifest(
                e,
                "HEIC 转换清单包含无效文件"@,
            ),
        },
{
    let heic = match crate::image_processor::extension_of(file_name) {
        Some(e) => crate::text::chars_equal_str(&e, "heic") || crate::text::chars_equal_str(&e, "heif"),
        None => false,
    };
    if has_companions || !heic {
        return Err(ToolError::InvalidManifest(crate::text::owned("HEIC 转换清单包含无效文件")));
    }
    Ok(())
}

/// Checks that a manifest was planned as a tag pipeline run.
pub fn check_tag_pipeline_operation(operation: ToolOperation) -> (result: Result<(), ToolError>)
    ensures
        match result {
            Ok(()) => operation == ToolOperation::TagPipeline,
            Err(e) => operation != ToolOperation::TagPipeline && invalid_manifest(e, "预检清单不是标签处理操作"@),
        },
{
    if operation != ToolOperation::TagPipeline {
        return Err(ToolError::InvalidManifest(crate::text::owned("预检清单不是标签处理操作")));
    }
    Ok(())
}

/// Checks a sidecar a tag pipeline manifest names before it is read: the
/// candidate carries no companion files and the sidecar holds at most
/// 8 MiB.
pub fn check_tag_pipeline_source(has_companions: bool, size: u64, display: &str) -> (result: Result<
    (),
    ToolError,
>)
    ensures
        match result {
            Ok(()) => !has_companions && size <= 8388608,
            Err(e) => if has_companions {
                invalid_manifest(e, "标签处理清单不能包含伴随文件"@)
            } else {
                size > 8388608 && invalid_manifest(e, "标签文件超过 8 MiB 安全上限: "@ + display@)
            },
        },
{
    if has_companions {
        return Err(ToolError::InvalidManifest(crate::text::owned("标签处理清单不能包含伴随文件")));
    }
    crate::image_processor::check_sidecar_size(size, display)
}

/// The rewritten text of a sidecar that a confirmed tag pipeline manifest
/// names; refused when the pipeline no longer changes it.
pub fn tag_rewrite(content: &str, display: &str, config: &TagPipelineConfig) -> (result: Result<String, ToolError>)
    ensures
        match result {
            Ok(rewritten) => rewritten@ == crate::image_processor::transformed_caption(
                content@,
                config.categories@,
                config.artist_prefix,
            ) && rewritten@ != content@,
            Err(e) => crate::image_processor::transformed_caption(content@, config.categories@, config.artist_prefix)
                == content@ && invalid_manifest(e, "预检标签文件已无需处理: "@ + display@),
        },
{
    let rewritten = crate::image_processor::transform_tag_content_with_categories(
        content,
        &config.categories,
        config.artist_prefix,
    );
    if crate::text::str_equal(rewritten.as_str(), content) {
        return Err(
            ToolError::InvalidManifest(
                string_from_chars(&crate::image_processor::literal_then("预检标签文件已无需处理: ", display)),
            ),
        );
    }
    Ok(rewritten)
}

// ---------------------------------------------------------------------
// Binding a manifest to its root and its files
// ---------------------------------------------------------------------

/// Checks that a manifest belongs to `root`: its root fingerprint is set
/// and equals the root's.
pub fn check_manifest_root(root_fingerprint: &str, root: &crate::image_processor::VerifiedMediaRoot) -> (result:
    Result<(), ToolError>)
    ensures
        match result {
            Ok(()) => root_fingerprint@.len() > 0 && root_fingerprint@ == crate::digest::hex_text(
                crate::digest::sha256_digest(vstd::utf8::encode_utf8(root.text_spec())),
            ),
            Err(e) => !(root_fingerprint@.len() > 0 && root_fingerprint@ == crate::digest::hex_text(
                crate::digest::sha256_digest(vstd::utf8::encode_utf8(root.text_spec())),
            )) && invalid_manifest(e, "预检清单不属于当前媒体根"@),
        },
{
    let expected = root.fingerprint();
    if root_fingerprint.unicode_len() == 0 || !crate::text::str_equal(root_fingerprint, expected.as_str()) {
        return Err(ToolError::InvalidManifest(crate::text::owned("预检清单不属于当前媒体根")));
    }
    Ok(())
}

/// The paths named by candidates: each candidate's file, then its
/// companions.
pub open spec fn candidate_paths(candidates: Seq<ToolCandidate>) -> Seq<PathBuf>
    decreases candidates.len(),
{
    if candidates.len() == 0 {
        Seq::empty()
    } else {
        candidate_paths(candidates.drop_last()) + seq![candidates.last().relative_path]
            + candidates.last().companion_paths@
    }
}

/// The two images of each similar pair, left then right.
pub open spec fn pair_paths(pairs: Seq<SimilarPair>) -> Seq<PathBuf>
    decreases pairs.len(),
{
    if pairs.len() == 0 {
        Seq::empty()
    } else {
        pair_paths(pairs.drop_last()) + seq![pairs.last().left, pairs.last().right]
    }
}

/// The files a manifest must hold a fingerprint for: every candidate file
/// and companion, and for a near-duplicate manifest both images of every
/// pair as well.
pub open spec fn listed_paths(manifest: ToolManifest) -> Seq<PathBuf> {
    candidate_paths(manifest.candidates@) + if manifest.operation == ToolOperation::NearDedup {
        pair_paths(manifest.pairs@)
    } else {
        Seq::empty()
    }
}

/// The paths candidates name (see [`candidate_paths`]), in that order.
pub fn candidate_path_list(candidates: &Vec<ToolCandidate>) -> (paths: Vec<PathBuf>)
    ensures
        paths@ == candidate_paths(candidates@),
{
    let mut paths: Vec<PathBuf> = Vec::new();
    let mut c: usize = 0;
    while c < candidates.len()
        invariant
            c <= candidates@.len(),
            paths@ == candidate_paths(candidates@.take(c as int)),
        decreases candidates@.len() - c,
    {
        let candidate = &candidates[c];
        let ghost before = paths@;
        paths.push(candidate.relative_path.clone());
        let mut k: usize = 0;
        while k < candidate.companion_paths.len()
            invariant
                k <= candidate.companion_paths@.len(),
                paths@ == before + seq![candidate.relative_path] + candidate.companion_paths@.take(k as int),
            decreases candidate.companion_paths@.len() - k,
        {
            paths.push(candidate.companion_paths[k].clone());
            assert(candidate.companion_paths@.take(k + 1) =~= candidate.companion_paths@.take(k as int).push(
                candidate.companion_paths@[k as int],
            ));
            assert(paths@ =~= before + seq![candidate.relative_path] + candidate.companion_paths@.take(k + 1));
            k += 1;
        }
        proof {
            let next = candidates@.take(c + 1);
            assert(next.drop_last() =~= candidates@.take(c as int));
            assert(next.last() == *candidate);
            assert(candidate.companion_paths@.take(k as int) =~= candidate.companion_paths@);
        }
        c += 1;
    }
    assert(candidates@.take(c as int) =~= candidates@);
    paths
}

/// The files a manifest lists (see [`listed_paths`]), in that order.
pub fn manifest_listed_paths(manifest: &ToolManifest) -> (paths: Vec<PathBuf>)
    ensures
        paths@ == listed_paths(*manifest),
{
    let mut paths = candidate_path_list(&manifest.candidates);
    if manifest.operation == ToolOperation::NearDedup {
        let ghost base = paths@;
        let mut p: usize = 0;
        while p < manifest.pairs.len()
            invariant
                p <= manifest.pairs@.len(),
                paths@ == base + pair_paths(manifest.pairs@.take(p as int)),
            decreases manifest.pairs@.len() - p,
        {
            let pair = &manifest.pairs[p];
            paths.push(pair.left.clone());
            paths.push(pair.right.clone());
            proof {
                let next = manifest.pairs@.take(p + 1);
                assert(next.drop_last() =~= manifest.pairs@.take(p as int));
                assert(next.last() == *pair);
            }
            assert(paths@ =~= base + pair_paths(manifest.pairs@.take(p + 1)));
            p += 1;
        }
        assert(manifest.pairs@.take(p as int) =~= manifest.pairs@);
    } else {
        assert(paths@ =~= paths@ + Seq::<PathBuf>::empty());
    }
    paths
}

/// Whether `items` holds a string equal to `item`.
fn contains_text(items: &Vec<String>, item: &str) -> (found: bool)
    ensures
        found == string_views(items@).contains(item@),
{
    let mut index: usize = 0;
    while index < items.len()
        invariant
            index <= items.len(),
            forall|i: int| 0 <= i < index ==> string_views(items@)[i] != item@,
        decreases items.len() - index,
    {
        if crate::text::str_equal(items[index].as_str(), item) {
            assert(string_views(items@)[index as int] == item@);
            return true;
        }
        index += 1;
    }
    false
}

/// Checks that the fingerprinted files of a manifest are exactly the files
/// it lists (paths compared as text, as sets).
pub fn check_fingerprint_coverage(listed: &Vec<String>, fingerprinted: &Vec<String>) -> (result: Result<
    (),
    ToolError,
>)
    ensures
        match result {
            Ok(()) => string_views(listed@).to_set() == string_views(fingerprinted@).to_set(),
            Err(e) => string_views(listed@).to_set() != string_views(fingerprinted@).to_set() && invalid_manifest(
                e,
                "预检文件指纹集合与操作清单不一致"@,
            ),
        },
{
    let mut i: usize = 0;
    while i < listed.len()
        invariant
            i <= listed.len(),
            forall|k: int| 0 <= k < i ==> string_views(fingerprinted@).contains(#[trigger] string_views(listed@)[k]),
        decreases listed.len() - i,
    {
        if !contains_text(fingerprinted, listed[i].as_str()) {
            assert(string_views(listed@)[i as int] == listed@[i as int]@);
            assert(string_views(listed@).contains(listed@[i as int]@));
            assert(!string_views(fingerprinted@).to_set().contains(listed@[i as int]@));
            return Err(ToolError::InvalidManifest(crate::text::owned("预检文件指纹集合与操作清单不一致")));
        }
        i += 1;
    }
    let mut j: usize = 0;
    while j < fingerprinted.len()
        invariant
            j <= fingerprinted.len(),
            forall|k: int| 0 <= k < j ==> string_views(listed@).contains(#[trigger] string_views(fingerprinted@)[k]),
        decreases fingerprinted.len() - j,
    {
        if !contains_text(listed, fingerprinted[j].as_str()) {
            assert(string_views(fingerprinted@)[j as int] == fingerprinted@[j as int]@);
            assert(string_views(fingerprinted@).contains(fingerprinted@[j as int]@));
            assert(!string_views(listed@).to_set().contains(fingerprinted@[j as int]@));
            return Err(ToolError::InvalidManifest(crate::text::owned("预检文件指纹集合与操作清单不一致")));
        }
        j += 1;
    }
    assert forall|x: Seq<char>| string_views(listed@).contains(x) implies string_views(fingerprinted@).contains(x) by {
        let k = choose|k: int| 0 <= k < string_views(listed@).len() && string_views(listed@)[k] == x;
        assert(string_views(fingerprinted@).contains(string_views(listed@)[k]));
    }
    assert forall|x: Seq<char>| string_views(fingerprinted@).contains(x) implies string_views(listed@).contains(x) by {
        let k = choose|k: int| 0 <= k < string_views(fingerprinted@).len() && string_views(fingerprinted@)[k] == x;
        assert(string_views(listed@).contains(string_views(fingerprinted@)[k]));
    }
    assert(string_views(listed@).to_set() =~= string_views(fingerprinted@).to_set());
    Ok(())
}

/// Checks that a fingerprinted file still has the size and SHA-256 it had
/// when the manifest was planned.
pub fn check_file_unchanged(
    display: &str,
    size: u64,
    sha256: &str,
    planned_size: u64,
    planned_sha256: &str,
) -> (result: Result<(), ToolError>)
    ensures
        match result {
            Ok(()) => size == planned_size && sha256@ == planned_sha256@,
            Err(e) => !(size == planned_size && sha256@ == planned_sha256@) && invalid_manifest(
                e,
                "预检后文件已变化: "@ + display@,
            ),
        },
{
    if size != planned_size || !crate::text::str_equal(sha256, planned_sha256) {
        return Err(
            ToolError::InvalidManifest(
                string_from_chars(&crate::image_processor::literal_then("预检后文件已变化: ", display)),
            ),
        );
    }
    Ok(())
}

// ---------------------------------------------------------------------
// What a quarantine move may touch
// ---------------------------------------------------------------------

/// A path a manifest may move into quarantine: a valid relative path that
/// does not lie under the quarantine directory.
pub open spec fn may_quarantine(path: Seq<char>) -> bool {
    relative_components(path) matches Some(c) && !(c.len() > 0 && c[0] == QUARANTINE_DIR@)
}

/// Why a path may not be moved into quarantine.
pub open spec fn quarantine_refusal(path: Seq<char>, e: ToolError) -> bool {
    match relative_components(path) {
        None => e is InvalidRelativePath,
        Some(c) => c.len() > 0 && c[0] == QUARANTINE_DIR@ && invalid_manifest(e, "操作清单不能引用隔离区自身"@),
    }
}

/// Checks the paths a manifest moves into quarantine (candidate files and
/// companions, in manifest order) and gives each with its components; the
/// first path that is not a valid relative path, or that lies under the
/// quarantine directory, is refused.
pub fn quarantine_items(paths: &Vec<String>) -> (result: Result<Vec<SelectedMedia>, ToolError>)
    ensures
        match result {
            Ok(items) => items@.len() == paths@.len() && forall|i: int|
                0 <= i < paths@.len() ==> {
                    &&& may_quarantine(#[trigger] paths@[i]@)
                    &&& items@[i].path@ == paths@[i]@
                    &&& Some(string_views(items@[i].components@)) == relative_components(paths@[i]@)
                },
            Err(e) => exists|i: int|
                0 <= i < paths@.len() && (forall|k: int| 0 <= k < i ==> may_quarantine(#[trigger] paths@[k]@))
                    && quarantine_refusal(#[trigger] paths@[i]@, e),
        },
{
    let mut items: Vec<SelectedMedia> = Vec::new();
    let mut i: usize = 0;
    while i < paths.len()
        invariant
            i <= paths@.len(),
            items@.len() == i,
            forall|k: int|
                0 <= k < i ==> {
                    &&& may_quarantine(#[trigger] paths@[k]@)
                    &&& items@[k].path@ == paths@[k]@
                    &&& Some(string_views(items@[k].components@)) == relative_components(paths@[k]@)
                },
        decreases paths@.len() - i,
    {
        let path = paths[i].as_str();
        let components = match validate_relative_path(path) {
            Ok(components) => components,
            Err(_) => {
                assert(quarantine_refusal(paths@[i as int]@, ToolError::InvalidRelativePath));
                return Err(ToolError::InvalidRelativePath);
            },
        };
        if components.len() > 0 && crate::image_processor::is_quarantine_dir_name(components[0].as_str()) {
            let e = ToolError::InvalidManifest(crate::text::owned("操作清单不能引用隔离区自身"));
            assert(string_views(components@)[0] == components@[0]@);
            assert(quarantine_refusal(paths@[i as int]@, e));
            return Err(e);
        }
        assert(components@.len() > 0 ==> string_views(components@)[0] == components@[0]@);
        items.push(SelectedMedia { path: crate::text::owned(path), components });
        i += 1;
    }
    Ok(items)
}

/// Where a failed operation rolled its originals back from quarantine.
#[derive(Debug, Clone, Copy, PartialEq, Eq, Structural)]
pub enum RollbackStage {
    /// Publishing rewritten sidecars failed.
    TagReplacement,
    /// Converting or publishing HEIC files failed.
    HeicConversion,
    /// Recording converted HEIC files failed after they were published.
    HeicRecording,
}

/// A rollback restored the whole batch: nothing left behind, no conflicts,
/// and, after a HEIC conversion, as many files as it quarantined.
pub open spec fn rollback_complete(stage: RollbackStage, result: RestoreResult, expected: usize) -> bool {
    &&& result.remaining == 0
    &&& result.conflicts@.len() == 0
    &&& (stage == RollbackStage::TagReplacement || result.restored == expected)
}

/// The error reported when a rollback left originals behind.
pub open spec fn rollback_message(stage: RollbackStage) -> Seq<char> {
    match stage {
        RollbackStage::TagReplacement => "标签替换失败，且原文件回滚不完整"@,
        RollbackStage::HeicConversion => "HEIC 转换失败，且原文件回滚不完整"@,
        RollbackStage::HeicRecording => "HEIC 数据库写入失败，且原文件回滚不完整"@,
    }
}

/// Checks that a rollback after a failure at `stage` restored the whole
/// batch of `expected` quarantined files (see [`rollback_complete`]).
pub fn check_rollback(stage: RollbackStage, result: &RestoreResult, expected: usize) -> (checked: Result<(), ToolError>)
    ensures
        match checked {
            Ok(()) => rollback_complete(stage, *result, expected),
            Err(e) => !rollback_complete(stage, *result, expected) && invalid_manifest(e, rollback_message(stage)),
        },
{
    let counted = match stage {
        RollbackStage::TagReplacement => true,
        _ => result.restored == expected,
    };
    if counted && result.remaining == 0 && result.conflicts.len() == 0 {
        return Ok(());
    }
    let message = match stage {
        RollbackStage::TagReplacement => "标签替换失败，且原文件回滚不完整",
        RollbackStage::HeicConversion => "HEIC 转换失败，且原文件回滚不完整",
        RollbackStage::HeicRecording => "HEIC 数据库写入失败，且原文件回滚不完整",
    };
    Err(ToolError::InvalidManifest(crate::text::owned(message)))
}

// ---------------------------------------------------------------------
// Size and format limits of files read or produced
// ---------------------------------------------------------------------

/// Most bytes of a sidecar read when matching a tag for deletion.
pub const MAX_TAG_SIDECAR_BYTES: u64 = 8388608;

/// Most bytes of an image source decoded, or of a converted JPEG accepted.
pub const MAX_IMAGE_SOURCE_BYTES: u64 = 536870912;

/// Refuses to read a sidecar over 8 MiB when matching a tag for deletion.
pub fn check_tag_sidecar_size(size: u64, display: &str) -> (result: Result<(), ToolError>)
    ensures
        match result {
            Ok(()) => size <= MAX_TAG_SIDECAR_BYTES,
            Err(e) => size > MAX_TAG_SIDECAR_BYTES && invalid_manifest(e, "标签文件过大: "@ + display@),
        },
{
    if size > MAX_TAG_SIDECAR_BYTES {
        return Err(
            ToolError::InvalidManifest(string_from_chars(&crate::image_processor::literal_then("标签文件过大: ", display))),
        );
    }
    Ok(())
}

/// Refuses to decode an image source over 512 MiB.
pub fn check_decode_source_size(size: u64) -> (result: Result<(), ToolError>)
    ensures
        match result {
            Ok(()) => size <= MAX_IMAGE_SOURCE_BYTES,
            Err(e) => size > MAX_IMAGE_SOURCE_BYTES && invalid_manifest(e, "图片源文件超过 512 MiB 安全上限"@),
        },
{
    if size > MAX_IMAGE_SOURCE_BYTES {
        return Err(ToolError::InvalidManifest(crate::text::owned("图片源文件超过 512 MiB 安全上限")));
    }
    Ok(())
}

/// Checks the file a HEIC converter wrote: a regular file (not a link) of
/// 1 byte to 512 MiB.
pub fn check_converter_output(regular_file: bool, size: u64) -> (result: Result<(), ToolError>)
    ensures
        match result {
            Ok(()) => regular_file && 0 < size <= MAX_IMAGE_SOURCE_BYTES,
            Err(e) => !(regular_file && 0 < size <= MAX_IMAGE_SOURCE_BYTES) && invalid_manifest(
                e,
                "HEIC 转换器输出不是安全的普通 JPEG 文件"@,
            ),
        },
{
    if !regular_file || size == 0 || size > MAX_IMAGE_SOURCE_BYTES {
        return Err(ToolError::InvalidManifest(crate::text::owned("HEIC 转换器输出不是安全的普通 JPEG 文件")));
    }
    Ok(())
}

/// Checks that the file a HEIC converter wrote is recognised as JPEG.
pub fn check_converter_format(is_jpeg: bool) -> (result: Result<(), ToolError>)
    ensures
        match result {
            Ok(()) => is_jpeg,
            Err(e) => !is_jpeg && invalid_manifest(e, "HEIC 转换器输出格式不是 JPEG"@),
        },
{
    if !is_jpeg {
        return Err(ToolError::InvalidManifest(crate::text::owned("HEIC 转换器输出格式不是 JPEG")));
    }
    Ok(())
}

/// The name of a temporary file written next to `name` before it is
/// published: `.`, the name, `.tmp-`, a unique id, then `suffix`.
pub fn temporary_file_name(name: &str, unique: &str, suffix: &str) -> (temporary: String)
    ensures
        temporary@ == seq!['.'] + name@ + ".tmp-"@ + unique@ + suffix@,
{
    let mut text = chars_of(".");
    crate::text::append_chars(&mut text, &chars_of(name));
    crate::text::append_chars(&mut text, &chars_of(".tmp-"));
    crate::text::append_chars(&mut text, &chars_of(unique));
    crate::text::append_chars(&mut text, &chars_of(suffix));
    proof {
        reveal_strlit(".");
    }
    string_from_chars(&text)
}

// ---------------------------------------------------------------------
// Caption tags looked up before a classified run
// ---------------------------------------------------------------------

/// The most distinct caption tags one classified run looks up.
pub const MAX_LOOKUP_TAGS: usize = 50000;

/// `tag` is a caption tag of a sidecar: a piece of it between separators,
/// trimmed, and not empty.
pub open spec fn is_caption_tag(content: Seq<char>, tag: Seq<char>) -> bool {
    tag.len() > 0 && exists|k: int|
        0 <= k < split_when(content, one_of(caption_separators())).len() && trim_spec(
            #[trigger] split_when(content, one_of(caption_separators()))[k],
        ) == tag
}

/// `tag` is a caption tag of one of the sidecars.
pub open spec fn in_captions(contents: Seq<String>, tag: Seq<char>) -> bool {
    exists|i: int| 0 <= i < contents.len() && is_caption_tag(#[trigger] contents[i]@, tag)
}

/// The distinct caption tags of the sidecars of a classified tag pipeline
/// run, in the order first met, for looking up their categories; refused
/// once there are more than [`MAX_LOOKUP_TAGS`] of them.
pub fn pipeline_lookup_tags(contents: &Vec<String>) -> (result: Result<Vec<String>, ToolError>)
    ensures
        match result {
            Ok(tags) => string_views(tags@).no_duplicates() && tags@.len() <= MAX_LOOKUP_TAGS && forall|t: Seq<char>|
                string_views(tags@).contains(t) <==> in_captions(contents@, t),
            Err(e) => invalid_manifest(e, "标签分类查询单批最多 50000 个唯一标签"@) && exists|s: Seq<Seq<char>>|
                s.len() == MAX_LOOKUP_TAGS + 1 && s.no_duplicates() && forall|k: int|
                    0 <= k < s.len() ==> in_captions(contents@, #[trigger] s[k]),
        },
{
    let separators = crate::image_processor::caption_separator_chars();
    let mut seen = vstd::hash_set::StringHashSet::new();
    let mut tags: Vec<String> = Vec::new();
    assert(string_views(tags@).to_set() =~= Set::<Seq<char>>::empty());
    let mut i: usize = 0;
    while i < contents.len()
        invariant
            i <= contents@.len(),
            separators@ == caption_separators(),
            seen@ == string_views(tags@).to_set(),
            string_views(tags@).no_duplicates(),
            tags@.len() <= MAX_LOOKUP_TAGS,
            forall|t: Seq<char>| string_views(tags@).contains(t) ==> in_captions(contents@, t),
            forall|x: int, t: Seq<char>|
                0 <= x < i && #[trigger] is_caption_tag(contents@[x]@, t) ==> string_views(tags@).contains(t),
        decreases contents@.len() - i,
    {
        let chars = chars_of(contents[i].as_str());
        let pieces = crate::text::split_on(&chars, &separators);
        let ghost all = char_views(pieces@);
        assert(all == split_when(contents@[i as int]@, one_of(caption_separators())));
        let mut k: usize = 0;
        while k < pieces.len()
            invariant
                i < contents@.len(),
                k <= pieces@.len(),
                all == char_views(pieces@),
                all == split_when(contents@[i as int]@, one_of(caption_separators())),
                separators@ == caption_separators(),
                seen@ == string_views(tags@).to_set(),
                string_views(tags@).no_duplicates(),
                tags@.len() <= MAX_LOOKUP_TAGS,
                forall|t: Seq<char>| string_views(tags@).contains(t) ==> in_captions(contents@, t),
                forall|x: int, t: Seq<char>|
                    0 <= x < i && #[trigger] is_caption_tag(contents@[x]@, t) ==> string_views(tags@).contains(t),
                forall|q: int|
                    0 <= q < k && trim_spec(#[trigger] all[q]).len() > 0 ==> string_views(tags@).contains(
                        trim_spec(all[q]),
                    ),
            decreases pieces@.len() - k,
        {
            let piece = &pieces[k];
            assert(piece@ == all[k as int]);
            let (start, end) = crate::text::trim_bounds(piece, 0, piece.len());
            assert(piece@.subrange(0, piece@.len() as int) =~= piece@);
            if start < end {
                let tag = crate::text::slice_chars(piece, start, end);
                assert(tag@ == trim_spec(all[k as int]));
                assert(is_caption_tag(contents@[i as int]@, tag@));
                assert(in_captions(contents@, tag@));
                let text = string_from_chars(&tag);
                if !seen.contains(text.as_str()) {
                    if tags.len() == MAX_LOOKUP_TAGS {
                        let ghost s = string_views(tags@).push(tag@);
                        proof {
                            assert forall|a: int, b: int| 0 <= a < b < s.len() implies s[a] != s[b] by {
                                if b == s.len() - 1 {
                                    assert(string_views(tags@).contains(s[a]));
                                }
                            }
                            assert forall|m: int| 0 <= m < s.len() implies in_captions(contents@, #[trigger] s[m]) by {
                                if m < s.len() - 1 {
                                    assert(string_views(tags@).contains(s[m]));
                                }
                            }
                        }
                        let e = ToolError::InvalidManifest(crate::text::owned("标签分类查询单批最多 50000 个唯一标签"));
                        assert(s.len() == MAX_LOOKUP_TAGS + 1 && s.no_duplicates() && forall|m: int|
                            0 <= m < s.len() ==> in_captions(contents@, #[trigger] s[m]));
                        return Err(e);
                    }
                    let ghost before = string_views(tags@);
                    seen.insert(crate::text::copy_string(&text));
                    tags.push(text);
                    proof {
                        assert(string_views(tags@) =~= before.push(tag@));
                        assert forall|a: int, b: int|
                            0 <= a < b < string_views(tags@).len() implies string_views(tags@)[a] != string_views(
                            tags@,
                        )[b] by {
                            if b == before.len() {
                                assert(before.contains(before[a]));
                            }
                        }
                        assert forall|t: Seq<char>| string_views(tags@).contains(t) implies in_captions(contents@, t) by {
                            if t != tag@ {
                                let m = choose|m: int| 0 <= m < string_views(tags@).len() && string_views(tags@)[m] == t;
                                assert(before[m] == t);
                                assert(before.contains(t));
                            }
                        }
                        assert forall|t: Seq<char>| before.contains(t) implies string_views(tags@).contains(t) by {
                            let m = choose|m: int| 0 <= m < before.len() && before[m] == t;
                            assert(string_views(tags@)[m] == t);
                        }
                        assert(string_views(tags@)[before.len() as int] == tag@);
                        assert forall|t: Seq<char>| #[trigger] string_views(tags@).contains(t) implies t == tag@ || before.contains(t) by {
                            let m = choose|m: int| 0 <= m < string_views(tags@).len() && string_views(tags@)[m] == t;
                            if m < before.len() {
                                assert(before[m] == t);
                            }
                        }
                        assert(string_views(tags@).to_set() =~= before.to_set().insert(tag@));
                    }
                }
            }
            k += 1;
        }
        proof {
            assert forall|x: int, t: Seq<char>|
                0 <= x < i + 1 && #[trigger] is_caption_tag(contents@[x]@, t) implies string_views(tags@).contains(t) by {
                if x == i {
                    let q = choose|q: int|
                        0 <= q < split_when(contents@[x]@, one_of(caption_separators())).len() && trim_spec(
                            #[trigger] split_when(contents@[x]@, one_of(caption_separators()))[q],
                        ) == t;
                    assert(trim_spec(all[q]) == t);
                }
            }
        }
        i += 1;
    }
    proof {
        assert forall|t: Seq<char>| in_captions(contents@, t) implies string_views(tags@).contains(t) by {
            let x = choose|x: int| 0 <= x < contents@.len() && #[trigger] is_caption_tag(contents@[x]@, t);
            assert(is_caption_tag(contents@[x]@, t));
        }
    }
    Ok(tags)
}

} // verus!
