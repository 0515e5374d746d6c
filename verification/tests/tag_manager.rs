use std::path::PathBuf;

use danbooru_tools::tag_manager::{
    accepts_cache_version, format_tag, kuohao_report, kuohao_text, pipeline_report, sort_file_tags,
    sort_report, split_file_elements, ArtistPrefix, TagCache, CACHE_VERSION,
};

fn cache() -> TagCache {
    TagCache::from_pairs(
        PathBuf::from("tag_cache.json"),
        vec![
            ("john_doe".to_string(), Some(1)),
            ("alice".to_string(), Some(4)),
            ("landscape".to_string(), Some(0)),
            ("series_name".to_string(), Some(3)),
            ("highres".to_string(), None),
        ],
    )
}

#[test]
fn artist_prefix_formats_tags() {
    assert_eq!(ArtistPrefix::Artist.format("john_doe"), "artist:john_doe");
    assert_eq!(ArtistPrefix::At.format("john_doe"), "@john_doe");
    assert_eq!(ArtistPrefix::default(), ArtistPrefix::Artist);
}

#[test]
fn tags_are_formatted_by_category() {
    assert_eq!(format_tag(ArtistPrefix::At, "jd", Some(1)), Some(("@jd".to_string(), 0)));
    assert_eq!(format_tag(ArtistPrefix::At, "alice", Some(4)), Some(("alice".to_string(), 1)));
    assert_eq!(format_tag(ArtistPrefix::At, "sky", None), Some(("sky".to_string(), 2)));
    assert_eq!(format_tag(ArtistPrefix::At, "series", Some(3)), None);
    assert_eq!(format_tag(ArtistPrefix::At, "studio", Some(5)), None);
    assert_eq!(format_tag(ArtistPrefix::At, "highres", Some(6)), None);
}

#[test]
fn cache_reads_back_what_was_written() {
    let mut cache = TagCache::empty(PathBuf::from("tag_cache.json"));
    assert!(!cache.is_dirty());
    assert_eq!(cache.get("cat"), None);

    cache.set("cat", Some(0));
    cache.set("dog", None);
    cache.set("cat", Some(4));

    assert!(cache.is_dirty());
    assert_eq!(cache.get("cat"), Some(Some(4)));
    assert_eq!(cache.get("dog"), Some(None));
    assert_eq!(cache.len(), 2);
    let data = cache.to_data();
    assert_eq!(data.version, CACHE_VERSION);
    assert_eq!(data.data.len(), 2);
}

#[test]
fn cache_versions_are_checked() {
    assert!(accepts_cache_version(CACHE_VERSION));
    assert!(!accepts_cache_version(CACHE_VERSION + 1));
}

#[test]
fn caption_files_split_into_trimmed_tags() {
    assert_eq!(
        split_file_elements(" a ,b\n;; c \n"),
        vec!["a".to_string(), "b".to_string(), "c".to_string()]
    );
}

#[test]
fn sorting_puts_artists_then_characters_then_the_rest() {
    let elements = split_file_elements("landscape, alice, unknown_tag, john_doe, series_name, highres");

    let sorted = sort_file_tags(&elements, &cache(), ArtistPrefix::Artist);

    assert_eq!(sorted, vec!["artist:john_doe", "alice", "landscape", "unknown_tag", "highres"]);
}

#[test]
fn bracket_pass_escapes_parentheses_and_spaces_underscores() {
    assert_eq!(kuohao_text("character_(series), \\(kept\\)"), "character \\(series\\), \\(kept\\)");
}

#[test]
fn reports_count_each_step() {
    assert_eq!(
        sort_report(2, 10, 7, 5),
        "标签排序完成!\n文件: 2\n标签: 10 -> 7 (过滤 3)\n缓存: 5 条"
    );
    assert_eq!(kuohao_report(3, 1, 2, 0), "括号/下划线处理完成!\n文件: 3\n修改: 1, 未变: 2, 错误: 0");
    assert_eq!(
        pipeline_report("A", "B"),
        "全流程处理完成!\n\n[步骤 1 - API 排序]\nA\n\n[步骤 2 - 括号/下划线]\nB"
    );
}
