use std::path::PathBuf;

use danbooru_tools::dataset_augmentation::check_retagged_caption;
use danbooru_tools::image_processor::{
    flatten_channel, selected_media_set, RestoreResult, SimilarPair, TagCategories, TagPipelineConfig,
    ArtistPrefix, ToolCandidate, ToolError, ToolManifest, ToolOperation, VerifiedMediaRoot,
};
use danbooru_tools::similarity::difference_hash_bits;
use danbooru_tools::tool_manifest::{
    candidate_path_list, check_converter_format, check_converter_output, check_decode_source_size,
    check_file_unchanged, check_fingerprint_coverage, check_heic_candidate, check_heic_operation,
    check_manifest_root, check_rollback, check_tag_pipeline_operation, check_tag_pipeline_source,
    check_tag_sidecar_size, manifest_listed_paths, pipeline_lookup_tags, quarantine_items, tag_rewrite,
    temporary_file_name, RollbackStage,
};

fn message(error: ToolError) -> String {
    match error {
        ToolError::InvalidManifest(message) => message,
        other => panic!("unexpected error {other:?}"),
    }
}

fn strings(items: &[&str]) -> Vec<String> {
    items.iter().map(|item| item.to_string()).collect()
}

fn candidate(path: &str, companions: &[&str]) -> ToolCandidate {
    ToolCandidate {
        relative_path: PathBuf::from(path),
        companion_paths: companions.iter().map(PathBuf::from).collect(),
        reason: "r".to_string(),
        size: 1,
        sha256: None,
    }
}

fn manifest(operation: ToolOperation, candidates: Vec<ToolCandidate>, pairs: Vec<SimilarPair>) -> ToolManifest {
    ToolManifest {
        batch_id: "batch".to_string(),
        operation,
        created_at: 0,
        root_fingerprint: String::new(),
        file_fingerprints: Vec::new(),
        pairs,
        tag_pipeline_config: None,
        candidates,
    }
}

#[test]
fn heic_manifests_take_only_heic_files_without_companions() {
    assert!(check_heic_operation(ToolOperation::HeicConvert).is_ok());
    assert_eq!(message(check_heic_operation(ToolOperation::TagPipeline).unwrap_err()), "预检清单不是 HEIC 转换操作");
    assert!(check_heic_candidate(false, "photo.HEIC").is_ok());
    assert!(check_heic_candidate(false, "photo.heif").is_ok());
    assert_eq!(message(check_heic_candidate(true, "photo.heic").unwrap_err()), "HEIC 转换清单包含无效文件");
    assert!(check_heic_candidate(false, "photo.jpg").is_err());
    assert!(check_heic_candidate(false, "").is_err());
}

#[test]
fn tag_pipeline_manifests_check_sources_and_rewrites() {
    assert!(check_tag_pipeline_operation(ToolOperation::TagPipeline).is_ok());
    assert_eq!(
        message(check_tag_pipeline_operation(ToolOperation::ExactDedup).unwrap_err()),
        "预检清单不是标签处理操作"
    );
    assert!(check_tag_pipeline_source(false, 8 * 1024 * 1024, "a.txt").is_ok());
    assert_eq!(message(check_tag_pipeline_source(true, 1, "a.txt").unwrap_err()), "标签处理清单不能包含伴随文件");
    assert_eq!(
        message(check_tag_pipeline_source(false, 8 * 1024 * 1024 + 1, "a.txt").unwrap_err()),
        "标签文件超过 8 MiB 安全上限: a.txt"
    );
    let config = TagPipelineConfig::default_config();
    assert_eq!(tag_rewrite("blue_eyes, long hair", "a.txt", &config).unwrap(), "blue eyes,long hair");
    assert_eq!(message(tag_rewrite("solo", "a.txt", &config).unwrap_err()), "预检标签文件已无需处理: a.txt");
}

#[test]
fn tag_rewrite_applies_the_configured_categories() {
    let config = TagPipelineConfig {
        artist_prefix: ArtistPrefix::At,
        categories: TagCategories::from_pairs(vec![("someone".to_string(), Some(1))]),
    };
    assert_eq!(tag_rewrite("solo, someone", "a.txt", &config).unwrap(), "@someone,solo");
}

#[test]
fn manifests_are_bound_to_their_root() {
    let root = VerifiedMediaRoot::from_canonical(PathBuf::from("/media/library"), "/media/library".to_string());
    let fingerprint = root.fingerprint();
    assert!(check_manifest_root(&fingerprint, &root).is_ok());
    assert_eq!(message(check_manifest_root("", &root).unwrap_err()), "预检清单不属于当前媒体根");
    assert!(check_manifest_root("00", &root).is_err());
}

#[test]
fn listed_paths_follow_candidates_and_near_duplicate_pairs() {
    let candidates = vec![candidate("a.png", &["a.txt"]), candidate("b.png", &[])];
    let pair = SimilarPair { left: PathBuf::from("k.png"), right: PathBuf::from("b.png"), distance: 2 };
    let expected: Vec<PathBuf> = ["a.png", "a.txt", "b.png"].iter().map(PathBuf::from).collect();
    assert_eq!(candidate_path_list(&candidates), expected);
    let near = manifest(ToolOperation::NearDedup, candidates.clone(), vec![pair.clone()]);
    let with_pairs: Vec<PathBuf> = ["a.png", "a.txt", "b.png", "k.png", "b.png"].iter().map(PathBuf::from).collect();
    assert_eq!(manifest_listed_paths(&near), with_pairs);
    let exact = manifest(ToolOperation::ExactDedup, candidates, vec![pair]);
    assert_eq!(manifest_listed_paths(&exact), expected);
}

#[test]
fn fingerprints_must_cover_exactly_the_listed_files() {
    assert!(check_fingerprint_coverage(&strings(&["a", "b", "a"]), &strings(&["b", "a"])).is_ok());
    assert_eq!(
        message(check_fingerprint_coverage(&strings(&["a", "b"]), &strings(&["a"])).unwrap_err()),
        "预检文件指纹集合与操作清单不一致"
    );
    assert!(check_fingerprint_coverage(&strings(&["a"]), &strings(&["a", "c"])).is_err());
}

#[test]
fn changed_files_refuse_the_manifest() {
    assert!(check_file_unchanged("a.png", 3, "abc", 3, "abc").is_ok());
    assert_eq!(message(check_file_unchanged("a.png", 4, "abc", 3, "abc").unwrap_err()), "预检后文件已变化: a.png");
    assert!(check_file_unchanged("a.png", 3, "abd", 3, "abc").is_err());
}

#[test]
fn quarantine_moves_refuse_bad_paths_and_the_quarantine_itself() {
    let items = quarantine_items(&strings(&["b/x.png", "a.png", "b/x.png"])).unwrap();
    assert_eq!(items.len(), 3);
    assert_eq!(items[0].components, strings(&["b", "x.png"]));
    assert_eq!(selected_media_set(&items), strings(&["a.png", "b/x.png"]));
    assert!(matches!(quarantine_items(&strings(&["a.png", "../x.png"])).unwrap_err(), ToolError::InvalidRelativePath));
    assert_eq!(
        message(quarantine_items(&strings(&[".danbooru-quarantine/old/a.png"])).unwrap_err()),
        "操作清单不能引用隔离区自身"
    );
}

#[test]
fn rollbacks_must_restore_the_whole_batch() {
    let restored = |restored: usize, remaining: usize, conflicts: usize| RestoreResult {
        batch_id: "b".to_string(),
        restored,
        conflicts: vec![PathBuf::from("c"); conflicts],
        remaining,
    };
    assert!(check_rollback(RollbackStage::HeicConversion, &restored(2, 0, 0), 2).is_ok());
    assert_eq!(
        message(check_rollback(RollbackStage::HeicConversion, &restored(1, 0, 0), 2).unwrap_err()),
        "HEIC 转换失败，且原文件回滚不完整"
    );
    assert_eq!(
        message(check_rollback(RollbackStage::HeicRecording, &restored(2, 1, 0), 2).unwrap_err()),
        "HEIC 数据库写入失败，且原文件回滚不完整"
    );
    assert!(check_rollback(RollbackStage::TagReplacement, &restored(1, 0, 0), 5).is_ok());
    assert_eq!(
        message(check_rollback(RollbackStage::TagReplacement, &restored(1, 0, 1), 5).unwrap_err()),
        "标签替换失败，且原文件回滚不完整"
    );
}

#[test]
fn size_and_format_limits_of_tool_files() {
    assert!(check_tag_sidecar_size(8 * 1024 * 1024, "a.txt").is_ok());
    assert_eq!(message(check_tag_sidecar_size(8 * 1024 * 1024 + 1, "a.txt").unwrap_err()), "标签文件过大: a.txt");
    assert!(check_decode_source_size(512 * 1024 * 1024).is_ok());
    assert_eq!(
        message(check_decode_source_size(512 * 1024 * 1024 + 1).unwrap_err()),
        "图片源文件超过 512 MiB 安全上限"
    );
    assert!(check_converter_output(true, 1).is_ok());
    assert_eq!(message(check_converter_output(true, 0).unwrap_err()), "HEIC 转换器输出不是安全的普通 JPEG 文件");
    assert!(check_converter_output(false, 10).is_err());
    assert!(check_converter_format(true).is_ok());
    assert_eq!(message(check_converter_format(false).unwrap_err()), "HEIC 转换器输出格式不是 JPEG");
}

#[test]
fn temporary_names_sit_beside_the_target() {
    assert_eq!(temporary_file_name("a.jpg", "id", ".jpg"), ".a.jpg.tmp-id.jpg");
    assert_eq!(temporary_file_name("tags.txt", "u1", ""), ".tags.txt.tmp-u1");
}

#[test]
fn lookup_tags_are_distinct_trimmed_pieces_in_first_seen_order() {
    let tags = pipeline_lookup_tags(&strings(&[" a, b;c\n", "b ,\r d", ""])).unwrap();
    assert_eq!(tags, strings(&["a", "b", "c", "d"]));
}

#[test]
fn lookup_tags_stop_after_fifty_thousand() {
    let content: Vec<String> = (0..50_001).map(|index| format!("tag{index}")).collect();
    let error = pipeline_lookup_tags(&vec![content.join(",")]).unwrap_err();
    assert_eq!(message(error), "标签分类查询单批最多 50000 个唯一标签");
    let exactly: Vec<String> = (0..50_000).map(|index| format!("tag{index}")).collect();
    assert_eq!(pipeline_lookup_tags(&vec![exactly.join(",")]).unwrap().len(), 50_000);
}

#[test]
fn difference_hash_sets_a_bit_for_each_brighter_left_pixel() {
    let flat = vec![7u8; 72];
    assert_eq!(difference_hash_bits(&flat), 0);
    let falling: Vec<u8> = (0..72).map(|index| 100 - (index % 9) as u8).collect();
    assert_eq!(difference_hash_bits(&falling), u64::MAX);
    let mut first_only = vec![0u8; 72];
    first_only[0] = 1;
    assert_eq!(difference_hash_bits(&first_only), 1u64 << 63);
}

#[test]
fn flattened_channels_round_to_nearest() {
    assert_eq!(flatten_channel(0, 255), 0);
    assert_eq!(flatten_channel(0, 0), 255);
    assert_eq!(flatten_channel(100, 128), ((100u32 * 128 + 255 * 127 + 127) / 255) as u8);
}

#[test]
fn tag_categories_list_their_entries() {
    let table = TagCategories::from_pairs(vec![("a".to_string(), Some(1)), ("b".to_string(), None)]);
    assert_eq!(table.to_pairs(), vec![("a".to_string(), Some(1)), ("b".to_string(), None)]);
}

#[test]
fn retagged_captions_must_not_be_blank() {
    assert!(check_retagged_caption(" tags ", "s1").is_ok());
    assert_eq!(message(check_retagged_caption(" \n ", "s1").unwrap_err()), "重新打标结果为空，不能加入训练: s1");
}
