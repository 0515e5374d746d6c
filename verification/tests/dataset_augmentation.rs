use std::path::PathBuf;

use danbooru_tools::dataset_augmentation::{
    attempt_directory_name, augmentation_directories_for_attempt, augmentation_metadata_directory,
    crop_does_not_clip_parts, crop_keeps_critical_parts, enabled_smart_crop_variants,
    expand_crop_to_minimum_size, family_id, no_free_augmentation_directory, safe_task_id,
    sample_id, short_digest, source_rejection_reason, split_for_family,
    validate_augmentation_settings, CropRect, DatasetAugmentationSource, SmartCropConfig,
};
use danbooru_tools::image_processor::ToolError;

fn strings(items: &[&str]) -> Vec<String> {
    items.iter().map(|item| item.to_string()).collect()
}

fn manifest_message(error: ToolError) -> String {
    match error {
        ToolError::InvalidManifest(message) => message,
        other => panic!("unexpected error {other:?}"),
    }
}

fn source(media_id: &str, sha256: Option<&str>) -> DatasetAugmentationSource {
    DatasetAugmentationSource {
        media_id: media_id.to_string(),
        relative_path: PathBuf::from("images/a.png"),
        sha256: sha256.map(str::to_string),
        fallback_caption: String::new(),
    }
}

#[test]
fn family_split_is_stable_for_every_derivative() {
    assert_eq!(split_for_family("family_01", 5, 5), split_for_family("family_01", 5, 5));
}

#[test]
fn split_percentages_must_total_one_hundred() {
    let result = validate_augmentation_settings(
        ".augmentation",
        true,
        1536,
        768,
        80,
        10,
        9,
        95,
        &SmartCropConfig::default(),
    );
    assert!(result.is_err());
}

#[test]
fn smart_crop_defaults_enable_all_anime_compositions() {
    let config = SmartCropConfig::default();
    assert!(config.enabled);
    assert!(config.portrait);
    assert!(config.upper_body);
    assert!(config.cowboy_shot);
    assert!(config.full_body_tight);
    assert!(config.lower_body);
    assert!(config.feet);
    assert!(!config.require_both_feet);
    assert_eq!(config.max_derived_per_family, 6);
}

#[test]
fn legacy_three_variant_config_does_not_silently_enable_and_starve_new_variants() {
    let config = SmartCropConfig {
        enabled: true,
        runtime_profile_id: "conda:lora".to_string(),
        gpu_id: "0".to_string(),
        quality_profile: "anime-quality".to_string(),
        portrait: true,
        upper_body: true,
        cowboy_shot: false,
        full_body_tight: true,
        lower_body: false,
        feet: false,
        require_both_feet: false,
        max_derived_per_family: 3,
    };

    assert!(config.portrait && config.upper_body && config.full_body_tight);
    assert!(!config.cowboy_shot && !config.lower_body && !config.feet);
    assert_eq!(enabled_smart_crop_variants(&config).len(), 3);
    assert_eq!(enabled_smart_crop_variants(&config), vec!["portrait", "upper_body", "full_body_tight"]);
}

#[test]
fn default_settings_are_accepted() {
    let result = validate_augmentation_settings(
        ".augmentation",
        true,
        1536,
        768,
        90,
        5,
        5,
        95,
        &SmartCropConfig::default(),
    );
    assert!(result.is_ok());
    let absolute = validate_augmentation_settings(
        "/abs",
        true,
        1536,
        768,
        90,
        5,
        5,
        95,
        &SmartCropConfig::default(),
    );
    assert_eq!(absolute.unwrap_err(), "输出目录必须是媒体根内的规范相对路径");
}

#[test]
fn smart_crop_settings_are_checked_in_order() {
    let mut config = SmartCropConfig { gpu_id: "gpu0".to_string(), ..SmartCropConfig::default() };
    assert_eq!(config.validate().unwrap_err(), "智能裁剪 GPU 必须是非负整数编号");
    config.gpu_id = "1".to_string();
    config.max_derived_per_family = 7;
    assert_eq!(config.validate().unwrap_err(), "每个 family 的智能裁剪数量必须在 1..=6 之间");
    config.enabled = false;
    assert!(config.validate().is_ok());
}

#[test]
fn family_ids_and_splits_follow_the_digest() {
    assert_eq!(short_digest(b"abc"), "ba7816bf8f01cfea");
    assert_eq!(family_id(&source("post-1", Some("deadbeef"))), "family_2baf1f40105d9501");
    assert_eq!(family_id(&source("abc", None)), "family_ba7816bf8f01cfea");
    assert_eq!(split_for_family("family_01", 5, 5), "train");
    assert_eq!(split_for_family("family_01", 34, 0), "test");
    assert_eq!(split_for_family("family_01", 30, 4), "validation");
}

#[test]
fn sample_and_directory_names() {
    assert_eq!(sample_id("abc123", "flip"), "abc123_flip");
    assert_eq!(safe_task_id("task/../9 x").unwrap(), "task9x");
    assert!(safe_task_id("///").is_err());
    assert_eq!(attempt_directory_name("task", 1), "task");
    assert_eq!(attempt_directory_name("task", 12), "task-12");
}

#[test]
fn metadata_directory_sits_beside_the_output_directory() {
    assert_eq!(
        augmentation_metadata_directory(&strings(&["set", ".augmentation"])).unwrap(),
        strings(&["set", ".augmentation-metadata"])
    );
    assert_eq!(
        manifest_message(augmentation_metadata_directory(&Vec::new()).unwrap_err()),
        "增广输出目录必须位于原数据目录的 .augmentation 子目录"
    );
    let (image, metadata) =
        augmentation_directories_for_attempt(&strings(&[".augmentation"]), "job-7", 2).unwrap();
    assert_eq!(image, strings(&[".augmentation", "job-7-2"]));
    assert_eq!(metadata, strings(&[".augmentation-metadata", "job-7-2"]));
    assert_eq!(
        manifest_message(augmentation_directories_for_attempt(&Vec::new(), "???", 1).unwrap_err()),
        "任务 ID 无效"
    );
    assert_eq!(
        manifest_message(no_free_augmentation_directory()),
        "无法创建新的数据集输出目录，请选择其他目录"
    );
}

#[test]
fn small_sources_are_rejected_with_the_first_failed_threshold() {
    assert_eq!(
        source_rejection_reason(20_000, 20_000, true, 1536, 768).as_deref(),
        Some("图片像素数超过安全上限")
    );
    assert_eq!(
        source_rejection_reason(1000, 1000, false, 1536, 768).as_deref(),
        Some("图片未达到最小像素数门槛")
    );
    assert_eq!(
        source_rejection_reason(1000, 2000, true, 2048, 768).as_deref(),
        Some("图片未达到最小长边门槛")
    );
    assert_eq!(
        source_rejection_reason(2000, 700, true, 1536, 768).as_deref(),
        Some("图片未达到原生短边门槛")
    );
    assert_eq!(source_rejection_reason(2048, 1536, true, 1536, 768), None);
}

#[test]
fn crop_rectangles_measure_contain_and_join() {
    let a = CropRect { x0: 10, y0: 20, x1: 110, y1: 220 };
    let b = CropRect { x0: 50, y0: 0, x1: 300, y1: 100 };
    assert_eq!((a.width(), a.height()), (100, 200));
    assert_eq!(CropRect { x0: 5, y0: 5, x1: 1, y1: 1 }.width(), 0);
    assert!(a.contains(CropRect { x0: 20, y0: 30, x1: 100, y1: 200 }));
    assert!(!a.contains(b));
    assert_eq!(a.union(b), CropRect { x0: 10, y0: 0, x1: 300, y1: 220 });
    assert!(crop_keeps_critical_parts(a, &vec![CropRect { x0: 20, y0: 30, x1: 40, y1: 40 }]));
    assert!(!crop_keeps_critical_parts(a, &vec![b]));
    assert!(crop_does_not_clip_parts(a, &vec![CropRect { x0: 500, y0: 500, x1: 600, y1: 600 }]));
}

#[test]
fn small_crops_grow_around_their_centre_inside_the_image() {
    let grown = expand_crop_to_minimum_size(CropRect { x0: 90, y0: 90, x1: 110, y1: 110 }, 100, 1000, 1000);
    assert_eq!(grown, CropRect { x0: 50, y0: 50, x1: 150, y1: 150 });
    let edge = expand_crop_to_minimum_size(CropRect { x0: 0, y0: 0, x1: 10, y1: 10 }, 100, 1000, 50);
    assert_eq!(edge, CropRect { x0: 0, y0: 0, x1: 100, y1: 50 });
}
