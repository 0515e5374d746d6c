use std::path::PathBuf;

use danbooru_tools::image_processor::{
    check_selected_media_file, check_similarity_scan, decodable_images,
    has_supported_media_extension, is_decodable_image, normalize_tag_token, plan_delete_by_tag,
    plan_exact_duplicates, plan_near_duplicates, plan_similar_images, selected_media_set,
    sidecar_contains_tag, transform_tag_content, transform_tag_content_with_categories,
    validate_batch_id, validate_relative_path, ArtistPrefix, ScannedMedia, SelectedMedia,
    TagCategories, ToolError,
};

fn scanned(name: &str, size: u64) -> ScannedMedia {
    let stem = name.rsplit_once('.').map(|(stem, _)| stem).unwrap_or(name);
    ScannedMedia {
        path: PathBuf::from(name),
        display: name.to_string(),
        file_name: name.to_string(),
        size,
        sidecar: None,
        sidecar_key: format!("{stem}.txt"),
    }
}

fn manifest_message(error: ToolError) -> String {
    match error {
        ToolError::InvalidManifest(message) => message,
        other => panic!("unexpected error {other:?}"),
    }
}

#[test]
fn tag_pipeline_normalizes_deduplicates_and_escapes_tokens() {
    assert_eq!(
        transform_tag_content("blue_hair, smile\nblue_hair; character_(series)\r\n"),
        "blue hair,smile,character \\(series\\)"
    );
}

#[test]
fn tag_pipeline_preserves_legacy_category_order_filtering_and_artist_prefix() {
    let categories = TagCategories::from_pairs(vec![
        ("alice".to_string(), Some(4)),
        ("highres".to_string(), Some(6)),
        ("john_doe".to_string(), Some(1)),
        ("landscape".to_string(), Some(0)),
        ("series_name".to_string(), Some(3)),
        ("studio_name".to_string(), Some(5)),
    ]);

    assert_eq!(
        transform_tag_content_with_categories(
            "landscape,alice,john_doe,series_name,studio_name,highres",
            &categories,
            ArtistPrefix::Artist,
        ),
        "artist:john doe,alice,landscape"
    );
}

#[test]
fn processed_caption_reads_back_as_distinct_clean_tags() {
    let categories = TagCategories::from_pairs(vec![("some_artist".to_string(), Some(1))]);
    let caption = transform_tag_content_with_categories(
        " long_hair ;; some_artist,\r\nlong_hair, (smile), x_(y)\n\n",
        &categories,
        ArtistPrefix::At,
    );
    assert_eq!(caption, "@some artist,long hair,\\(smile\\),x \\(y\\)");
    let tags: Vec<&str> = caption.split(',').collect();
    for (i, tag) in tags.iter().enumerate() {
        assert!(!tag.is_empty());
        assert!(!tag.contains(['_', '\n', '\r', ';']));
        for other in &tags[i + 1..] {
            assert_ne!(tag, other);
        }
    }
    assert_eq!(transform_tag_content(" ;\n, "), "");
}

#[test]
fn relative_paths_reject_parent_components() {
    assert!(validate_relative_path("../outside.jpg").is_err());
}

#[test]
fn similar_image_scan_returns_candidates_without_mutating_files() {
    let images = vec![PathBuf::from("a.png"), PathBuf::from("b.png")];
    let hashes = vec![0_u64, 0_u64];

    let pairs = plan_similar_images(&images, &hashes, 0).expect("similar image plan");

    assert_eq!(pairs.len(), 1);
    assert_eq!(pairs[0].distance, 0);
    assert_eq!(pairs[0].left, PathBuf::from("a.png"));
    assert_eq!(pairs[0].right, PathBuf::from("b.png"));
}

#[test]
fn near_duplicate_plan_keeps_the_lexicographically_first_image() {
    let files = vec![scanned("a.png", 10), scanned("b.png", 10), scanned("c.png", 10)];
    let images = decodable_images(&files);
    let pairs = vec![(0_usize, 1_usize, 0_u32), (0, 2, 0), (1, 2, 0)];

    let (candidates, media) = plan_near_duplicates(&files, &images, &pairs, 0);

    assert_eq!(images, vec![0, 1, 2]);
    assert_eq!(media, vec![1, 2]);
    assert_eq!(
        candidates
            .iter()
            .map(|candidate| candidate.relative_path.clone())
            .collect::<Vec<_>>(),
        [PathBuf::from("b.png"), PathBuf::from("c.png")]
    );
    assert!(candidates
        .iter()
        .all(|candidate| candidate.reason.contains("near_duplicate_cluster_keeper:a.png")));
}

#[test]
fn similar_image_scan_stops_before_an_unbounded_pair_manifest() {
    let images = (0..142).map(|index| PathBuf::from(format!("{index}.png"))).collect::<Vec<_>>();
    let hashes = vec![0_u64; 142];

    let error = plan_similar_images(&images, &hashes, 0).expect_err("pair manifest must be capped");

    assert!(manifest_message(error).contains("10000"));
}

#[test]
fn near_duplicate_reason_names_keeper_and_threshold() {
    let files = vec![scanned("a.png", 1), scanned("b.png", 1), scanned("notes.txt", 1)];
    let images = decodable_images(&files);
    let pairs = vec![(0_usize, 1_usize, 3_u32)];

    let (candidates, media) = plan_near_duplicates(&files, &images, &pairs, 5);

    assert_eq!(images, vec![0, 1]);
    assert_eq!(media, vec![1]);
    assert_eq!(candidates[0].reason, "near_duplicate_cluster_keeper:a.png;dhash_threshold:5");
}

#[test]
fn chained_near_duplicates_share_the_smallest_keeper() {
    let files = vec![scanned("a.png", 1), scanned("b.png", 1), scanned("c.png", 1)];
    let images = decodable_images(&files);
    let pairs = vec![(1_usize, 2_usize, 1_u32), (0, 1, 1)];

    let (candidates, _) = plan_near_duplicates(&files, &images, &pairs, 2);

    assert_eq!(candidates.len(), 2);
    assert!(candidates.iter().all(|candidate| candidate.reason.starts_with("near_duplicate_cluster_keeper:a.png;")));
}

#[test]
fn exact_duplicates_keep_the_first_file_of_each_content() {
    let files = vec![scanned("a.jpg", 4), scanned("b.jpg", 4), scanned("c.jpg", 5)];
    let hashes = vec![Some("aa".to_string()), Some("aa".to_string()), Some("cc".to_string())];

    let (candidates, media) = plan_exact_duplicates(&files, &hashes);

    assert_eq!(media, vec![1]);
    assert_eq!(candidates[0].relative_path, PathBuf::from("b.jpg"));
    assert_eq!(candidates[0].sha256.as_deref(), Some("aa"));
}

#[test]
fn delete_by_tag_matches_normalized_tokens() {
    let files = vec![scanned("a.jpg", 1), scanned("b.jpg", 1), scanned("c.jpg", 1)];
    let contents = vec![
        Some("Blue Hair, smile".to_string()),
        Some("red_hair".to_string()),
        None,
    ];

    let (candidates, media) = plan_delete_by_tag(&files, "blue_hair", &contents);

    assert_eq!(media, vec![0]);
    assert_eq!(candidates[0].relative_path, PathBuf::from("a.jpg"));
}

#[test]
fn tag_tokens_are_lowercased_with_underscores() {
    assert_eq!(normalize_tag_token("  Blue   Hair "), "blue_hair");
    assert!(sidecar_contains_tag("smile, Blue Hair", "blue_hair"));
    assert!(!sidecar_contains_tag("smile", "blue_hair"));
}

#[test]
fn media_extensions_are_recognised_ignoring_case() {
    assert!(has_supported_media_extension("a.JPG"));
    assert!(has_supported_media_extension("clip.webm"));
    assert!(!has_supported_media_extension("notes.txt"));
    assert!(!has_supported_media_extension(".jpg"));
    assert!(is_decodable_image("a.PNG"));
    assert!(!is_decodable_image("a.heic"));
}

#[test]
fn batch_ids_allow_only_safe_characters() {
    assert!(validate_batch_id("batch_2024-01").is_ok());
    assert!(validate_batch_id("").is_err());
    assert!(validate_batch_id("../x").is_err());
    assert!(validate_batch_id(&"a".repeat(129)).is_err());
}

#[test]
fn relative_paths_keep_normal_components() {
    assert_eq!(validate_relative_path("a//b/./c.jpg").unwrap(), vec!["a", "b", "c.jpg"]);
    assert_eq!(validate_relative_path("").unwrap_err(), "媒体路径必须是非空相对路径");
    assert_eq!(
        validate_relative_path("./a.jpg").unwrap_err(),
        "媒体路径不能包含根目录、盘符、点段或父目录"
    );
}

#[test]
fn selected_media_must_be_relative_and_supported() {
    assert_eq!(check_selected_media_file("a/b.jpg").unwrap(), vec!["a", "b.jpg"]);
    assert!(matches!(check_selected_media_file("../b.jpg"), Err(ToolError::InvalidRelativePath)));
    assert_eq!(
        manifest_message(check_selected_media_file("a/notes.txt").unwrap_err()),
        "不支持的媒体格式: a/notes.txt"
    );
}

#[test]
fn selected_media_form_a_sorted_set_of_paths() {
    let item = |path: &str| SelectedMedia {
        path: path.to_string(),
        components: validate_relative_path(path).unwrap(),
    };
    let items = vec![item("b.jpg"), item("a/c.jpg"), item("a//c.jpg"), item("a.jpg"), item("b.jpg")];

    assert_eq!(selected_media_set(&items), vec!["a/c.jpg", "a.jpg", "b.jpg"]);
}

#[test]
fn similarity_scan_bounds_are_checked() {
    assert!(check_similarity_scan(64, 5000).is_ok());
    assert_eq!(manifest_message(check_similarity_scan(65, 1).unwrap_err()), "dHash 距离必须在 0..=64");
    assert!(check_similarity_scan(0, 5001).is_err());
}

#[test]
fn tag_delete_plan_matches_normalized_tokens_not_substrings() {
    let files = vec![scanned("cat.jpg", 5), scanned("catgirl.jpg", 5)];
    let contents = vec![Some("portrait,\n Cat ".to_string()), Some("catgirl, blue_eyes".to_string())];

    let (candidates, _) = plan_delete_by_tag(&files, "cat", &contents);

    assert_eq!(candidates.len(), 1);
    assert_eq!(candidates[0].relative_path, PathBuf::from("cat.jpg"));
}

#[test]
fn tag_delete_plan_accepts_legacy_space_delimited_tokens() {
    let files = vec![scanned("legacy.jpg", 5)];
    let contents = vec![Some("dog cat fox".to_string())];

    let (candidates, _) = plan_delete_by_tag(&files, "cat", &contents);

    assert_eq!(candidates.len(), 1);
    assert_eq!(candidates[0].relative_path, PathBuf::from("legacy.jpg"));
}

#[test]
fn exact_dedup_keeps_a_sidecar_still_used_by_the_surviving_media() {
    let mut jpg = scanned("a.jpg", 10);
    jpg.sidecar = Some(PathBuf::from("a.txt"));
    let mut png = scanned("a.png", 10);
    png.sidecar = Some(PathBuf::from("a.txt"));
    let files = vec![jpg, png];
    let hashes = vec![Some("same".to_string()), Some("same".to_string())];

    let (candidates, _) = plan_exact_duplicates(&files, &hashes);

    assert_eq!(candidates.len(), 1);
    assert_eq!(candidates[0].relative_path, PathBuf::from("a.png"));
    assert!(candidates[0].companion_paths.is_empty());
}
