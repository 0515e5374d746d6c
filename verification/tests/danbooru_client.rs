use std::path::PathBuf;
use std::time::Duration;

use danbooru_tools::danbooru_client::{
    check_declared_size, check_received_length, download_lock_key, download_size_limit,
    extension_from_url, io_error, is_loopback_host, is_static_image_extension,
    is_windows_reserved_filename, map_status, network_error, normalized_extension,
    parse_content_range, part_file_name, part_path_for, render_filename, validate_content_range,
    validate_content_type, validate_filename_template, validate_rendered_filename,
    DanbooruClientConfig, DanbooruErrorKind, FilenameContext, MediaAsset, MediaAssetVariant,
    MediaPolicy, MediaVariant, Post, DEFAULT_BASE_URL,
};

fn default_policy() -> MediaPolicy {
    let config = DanbooruClientConfig::default();
    MediaPolicy::for_client(DEFAULT_BASE_URL, &config.trusted_media_hosts)
        .unwrap()
        .1
}

fn context(rating: &str) -> FilenameContext<'_> {
    FilenameContext { id: 42, score: 9, rating, extension: "jpg" }
}

#[test]
fn config_debug_redacts_api_key() {
    let config = DanbooruClientConfig {
        api_key: "top-secret".into(),
        ..DanbooruClientConfig::default()
    };

    let debug = config.debug_text();

    assert!(!debug.contains("top-secret"));
    assert!(debug.contains("<redacted>"));
}

#[test]
fn media_url_rejects_untrusted_hosts_and_plain_http() {
    let policy = default_policy();

    let host_error = policy
        .validate_media_url("https://example.com/data/secret.jpg")
        .unwrap_err();
    let scheme_error = policy
        .validate_media_url("http://cdn.donmai.us/data/image.jpg")
        .unwrap_err();

    assert_eq!(host_error.kind, DanbooruErrorKind::UnsafeMediaUrl);
    assert_eq!(scheme_error.kind, DanbooruErrorKind::UnsafeMediaUrl);
}

#[test]
fn render_filename_rejects_rating_outside_danbooru_domain() {
    let error = render_filename("{id}_{rating}.{ext}", context("../outside")).unwrap_err();

    assert_eq!(error.kind, DanbooruErrorKind::InvalidTemplate);
}

#[test]
fn rendered_filename_must_be_one_normal_path_component() {
    let error = validate_rendered_filename("nested/file.jpg").unwrap_err();

    assert_eq!(error.kind, DanbooruErrorKind::InvalidTemplate);
}

#[test]
fn rendered_filename_rejects_windows_reserved_device_basename_with_extension() {
    let error = render_filename("CON.{ext}.{id}", context("s")).unwrap_err();

    assert_eq!(error.kind, DanbooruErrorKind::InvalidTemplate);
}

#[test]
fn rendered_filename_rejects_windows_trailing_dot() {
    let error = render_filename("{id}.{ext}.", context("s")).unwrap_err();

    assert_eq!(error.kind, DanbooruErrorKind::InvalidTemplate);
}

#[test]
fn rendered_filename_rejects_windows_trailing_space() {
    let error = render_filename("{id}.{ext} ", context("s")).unwrap_err();

    assert_eq!(error.kind, DanbooruErrorKind::InvalidTemplate);
}

#[test]
fn sample_media_falls_back_to_large_for_posts_without_asset_variants() {
    let policy = default_policy();
    let post = Post {
        id: 41,
        large_file_url: Some("https://cdn.donmai.us/fallback-large.jpg".into()),
        preview_file_url: Some("https://cdn.donmai.us/fallback-preview.jpg".into()),
        ..Post::default()
    };

    let source = policy.resolve_media(&post, MediaVariant::Sample).unwrap();

    assert_eq!(source.url.as_str(), "https://cdn.donmai.us/fallback-large.jpg");
    assert_eq!(source.extension, "jpg");
}

#[test]
fn mp4_sample_resolves_to_the_largest_static_poster_variant() {
    let policy = default_policy();
    let post = Post {
        id: 42,
        file_ext: Some("mp4".into()),
        file_url: Some("https://cdn.donmai.us/original/video.mp4".into()),
        large_file_url: Some("https://cdn.donmai.us/original/video.mp4".into()),
        preview_file_url: Some("https://cdn.donmai.us/180x180/poster.jpg".into()),
        media_asset: Some(MediaAsset {
            variants: vec![
                MediaAssetVariant {
                    variant_type: "360x360".into(),
                    url: Some("https://cdn.donmai.us/360x360/poster.jpg".into()),
                    file_ext: Some("jpg".into()),
                    width: Some(360),
                    height: Some(202),
                    ..MediaAssetVariant::default()
                },
                MediaAssetVariant {
                    variant_type: "720x720".into(),
                    url: Some("https://cdn.donmai.us/720x720/poster.webp".into()),
                    file_ext: Some("webp".into()),
                    width: Some(720),
                    height: Some(404),
                    ..MediaAssetVariant::default()
                },
                MediaAssetVariant {
                    variant_type: "original".into(),
                    url: Some("https://cdn.donmai.us/original/video.mp4".into()),
                    file_ext: Some("mp4".into()),
                    width: Some(1280),
                    height: Some(720),
                    ..MediaAssetVariant::default()
                },
            ],
            ..MediaAsset::default()
        }),
        ..Post::default()
    };

    let source = policy.resolve_media(&post, MediaVariant::Sample).unwrap();

    assert_eq!(source.url.as_str(), "https://cdn.donmai.us/720x720/poster.webp");
    assert_eq!(source.extension, "webp");
}

#[test]
fn legacy_mp4_sample_falls_back_to_the_static_preview_not_the_video() {
    let policy = default_policy();
    let post = Post {
        id: 43,
        file_ext: Some("mp4".into()),
        large_file_url: Some("https://cdn.donmai.us/original/video.mp4".into()),
        preview_file_url: Some("https://cdn.donmai.us/preview/poster.jpg".into()),
        ..Post::default()
    };

    let source = policy.resolve_media(&post, MediaVariant::Sample).unwrap();

    assert_eq!(source.url.as_str(), "https://cdn.donmai.us/preview/poster.jpg");
    assert_eq!(source.extension, "jpg");
}

#[test]
fn media_resolution_rejects_a_known_file_over_the_global_limit() {
    let policy = default_policy();
    let post = Post {
        id: 42,
        file_ext: Some("webm".into()),
        file_size: Some(16 * 1024 * 1024 * 1024 + 1),
        file_url: Some("https://cdn.donmai.us/oversized.webm".into()),
        ..Post::default()
    };

    let error = policy
        .resolve_media(&post, MediaVariant::Original)
        .expect_err("oversized media must be rejected before streaming");

    assert_eq!(error.kind, DanbooruErrorKind::InvalidResponse);
    assert!(error.message.contains("大小上限"));
}

#[test]
fn media_content_type_is_required() {
    let error = validate_content_type("jpg", None).expect_err("缺失 Content-Type 的媒体响应必须 fail-closed");

    assert_eq!(error.kind, DanbooruErrorKind::InvalidResponse);
    assert!(error.message.contains("Content-Type"));
}

#[test]
fn generic_binary_content_type_is_not_accepted_for_trusted_media_extension() {
    let error = validate_content_type("jpg", Some("application/octet-stream"))
        .expect_err("泛化 MIME 不能代替可验证的扩展名映射");

    assert_eq!(error.kind, DanbooruErrorKind::InvalidResponse);
}

#[test]
fn ugoira_recommends_webm_and_original_zip_but_swf_is_rejected() {
    let policy = default_policy();
    let post = Post {
        id: 7,
        file_ext: Some("zip".into()),
        file_url: Some("https://cdn.donmai.us/original.zip".into()),
        media_asset: Some(MediaAsset {
            variants: vec![MediaAssetVariant {
                variant_type: "sample".into(),
                url: Some("https://cdn.donmai.us/playable.webm".into()),
                file_ext: Some("webm".into()),
                ..MediaAssetVariant::default()
            }],
            ..MediaAsset::default()
        }),
        ..Post::default()
    };

    let media = policy.recommended_media(&post).unwrap();
    let swf = Post {
        id: 8,
        file_ext: Some("swf".into()),
        file_url: Some("https://cdn.donmai.us/legacy.swf".into()),
        ..Post::default()
    };

    assert_eq!(media.len(), 2);
    assert_eq!(media[0].extension, "webm");
    assert_eq!(media[1].extension, "zip");
    assert_eq!(
        policy.resolve_media(&swf, MediaVariant::Original).unwrap_err().kind,
        DanbooruErrorKind::UnsupportedMedia
    );
}

#[test]
fn render_filename_fills_every_placeholder() {
    let rendered = render_filename("{id}_score_{score}_{rating}.{ext}", context("s")).unwrap();
    assert_eq!(rendered, "42_score_9_s.jpg");
}

#[test]
fn filename_template_needs_an_extension_placeholder_and_known_names() {
    assert!(validate_filename_template("{id}_score_{score}.{ext}").is_ok());
    assert_eq!(
        validate_filename_template("{id}").unwrap_err().kind,
        DanbooruErrorKind::InvalidTemplate
    );
    assert_eq!(
        validate_filename_template("{id}_{unknown}.{ext}").unwrap_err().kind,
        DanbooruErrorKind::InvalidTemplate
    );
}

#[test]
fn windows_reserved_names_ignore_case_and_extension() {
    assert!(is_windows_reserved_filename("con.jpg"));
    assert!(is_windows_reserved_filename("LPT1"));
    assert!(!is_windows_reserved_filename("console.jpg"));
    assert!(validate_rendered_filename("42.jpg").is_ok());
}

#[test]
fn status_codes_map_to_error_kinds() {
    assert_eq!(map_status(401, None).kind, DanbooruErrorKind::InvalidCredentials);
    assert_eq!(map_status(404, None).kind, DanbooruErrorKind::NotFound);
    let limited = map_status(429, Some(Duration::from_secs(3)));
    assert_eq!(limited.kind, DanbooruErrorKind::RateLimited);
    assert!(limited.retryable);
    assert_eq!(limited.status, Some(429));
    assert_eq!(limited.retry_after, Some(Duration::from_secs(3)));
    assert!(map_status(503, None).retryable);
}

#[test]
fn extensions_are_normalized_and_classified() {
    assert_eq!(normalized_extension(Some(".JPEG")).unwrap(), "jpg");
    assert!(normalized_extension(None).is_err());
    assert!(normalized_extension(Some("exe")).is_err());
    assert!(is_static_image_extension("png"));
    assert!(!is_static_image_extension("mp4"));
    assert_eq!(extension_from_url("https://cdn.donmai.us/a/b.PNG?x=1").as_deref(), Some("png"));
}

#[test]
fn content_range_is_parsed_and_checked() {
    let range = parse_content_range(Some("bytes 100-199/1000")).unwrap();
    assert_eq!((range.start, range.end, range.total), (100, 199, 1000));
    assert!(parse_content_range(Some("items 1-2/3")).is_err());
    assert!(parse_content_range(None).is_err());
    assert!(validate_content_range(Some("bytes 100-199/1000"), 100, Some(1000)).is_ok());
    assert!(validate_content_range(Some("bytes 100-199/1000"), 100, Some(999)).is_err());
    assert!(validate_content_range(Some("bytes 0-99/1000"), 100, Some(1000)).is_err());
}

#[test]
fn declared_sizes_are_bounded() {
    let limit = download_size_limit(None);
    assert_eq!(limit, 16 * 1024 * 1024 * 1024);
    assert_eq!(download_size_limit(Some(10)), 10);
    assert!(check_declared_size(Some(limit)).is_ok());
    assert!(check_declared_size(Some(limit + 1)).is_err());
    assert!(check_received_length(Some(10), 10).is_ok());
    assert_eq!(
        check_received_length(Some(10), 9).unwrap_err().kind,
        DanbooruErrorKind::Integrity
    );
}

#[test]
fn loopback_hosts_are_recognised() {
    assert!(is_loopback_host("localhost"));
    assert!(is_loopback_host("127.0.0.1"));
    assert!(is_loopback_host("[::1]"));
    assert!(!is_loopback_host("danbooru.donmai.us"));
}

#[test]
fn io_and_network_errors_carry_their_detail() {
    let error = io_error("写入失败", "disk full", false);
    assert_eq!(error.kind, DanbooruErrorKind::Io);
    assert_eq!(error.message, "写入失败: disk full");
    assert!(!error.retryable);
    assert!(io_error("读取失败", "interrupted", true).retryable);
    let network = network_error("timed out");
    assert_eq!(network.kind, DanbooruErrorKind::Network);
    assert_eq!(network.message, "Danbooru 网络请求失败: timed out");
    assert!(network.retryable);
}

#[test]
fn part_files_sit_beside_the_target() {
    assert_eq!(part_file_name("42.jpg"), "42.jpg.part");
    let part = part_path_for(&PathBuf::from("/data/posts/42.jpg")).unwrap();
    assert_eq!(part, PathBuf::from("/data/posts/42.jpg.part"));
    assert_eq!(
        part_path_for(&PathBuf::from("/")).unwrap_err().kind,
        DanbooruErrorKind::InvalidTemplate
    );
    assert_eq!(download_lock_key(&PathBuf::from("/data/A.jpg")), PathBuf::from("/data/A.jpg"));
}
