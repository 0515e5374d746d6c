use danbooru_tools::danbooru_client::{
    autocomplete_request, check_api_json_size, check_downloaded_md5, check_downloaded_size,
    check_media_redirect, check_part_file, check_requests_per_second, configured_proxy,
    count_media_chunk, md5_to_check, post_count, post_path, posts_request,
    should_wait_for_rate_limit, tag_category_request, DanbooruErrorKind, PostQuery,
    MAX_API_JSON_BYTES, MAX_MEDIA_REDIRECTS,
};

fn pairs(items: &[(&str, &str)]) -> Vec<(String, String)> {
    items.iter().map(|(k, v)| (k.to_string(), v.to_string())).collect()
}

#[test]
fn posts_request_lists_tags_page_and_limit() {
    let query = PostQuery { tags: "1girl solo".into(), page: "b123".into(), limit: 20 };
    assert_eq!(
        posts_request(&query).unwrap(),
        pairs(&[("tags", "1girl solo"), ("page", "b123"), ("limit", "20")])
    );
}

#[test]
fn posts_request_refuses_limits_and_pages_out_of_range() {
    let zero = PostQuery { tags: String::new(), page: "1".into(), limit: 0 };
    let error = posts_request(&zero).unwrap_err();
    assert_eq!(error.kind, DanbooruErrorKind::InvalidRequest);
    assert_eq!(error.message, "limit 必须在 1..=200 之间");
    let too_many = PostQuery { tags: String::new(), page: "1".into(), limit: 201 };
    assert!(posts_request(&too_many).is_err());
    let empty_page = PostQuery { tags: String::new(), page: String::new(), limit: 1 };
    assert_eq!(posts_request(&empty_page).unwrap_err().kind, DanbooruErrorKind::InvalidRequest);
    let long_page = PostQuery { tags: String::new(), page: "9".repeat(65), limit: 1 };
    assert!(posts_request(&long_page).is_err());
}

#[test]
fn post_path_names_the_post_json() {
    assert_eq!(post_path(1234).unwrap(), "posts/1234.json");
    assert_eq!(post_path(0).unwrap_err().message, "post id 必须大于 0");
}

#[test]
fn autocomplete_request_checks_query_and_limit() {
    assert_eq!(
        autocomplete_request("hatsune", 10).unwrap(),
        pairs(&[("search[query]", "hatsune"), ("search[type]", "tag_query"), ("limit", "10")])
    );
    assert_eq!(autocomplete_request("   ", 10).unwrap_err().message, "自动补全参数无效");
    assert!(autocomplete_request("a", 0).is_err());
    assert!(autocomplete_request("a", 21).is_err());
}

#[test]
fn tag_category_request_trims_the_tag() {
    assert_eq!(
        tag_category_request("  blue_eyes ").unwrap(),
        pairs(&[("search[name]", "blue_eyes"), ("limit", "1")])
    );
    assert_eq!(
        tag_category_request("  ").unwrap_err().message,
        "标签名称长度必须在 1..=256 字节之间"
    );
}

#[test]
fn post_count_prefers_counts_posts() {
    assert_eq!(post_count(Some(7), Some(3)).unwrap(), 7);
    assert_eq!(post_count(None, Some(3)).unwrap(), 3);
    assert_eq!(post_count(None, None).unwrap_err().kind, DanbooruErrorKind::InvalidResponse);
}

#[test]
fn requests_per_second_must_be_between_one_and_a_thousand() {
    assert!(check_requests_per_second(1).is_ok());
    assert!(check_requests_per_second(1000).is_ok());
    assert_eq!(
        check_requests_per_second(0).unwrap_err().message,
        "requests_per_second 必须在 1..=1000 之间"
    );
    assert!(check_requests_per_second(1001).is_err());
}

#[test]
fn blank_proxy_means_no_proxy() {
    assert_eq!(configured_proxy(Some("http://127.0.0.1:7890")), Some("http://127.0.0.1:7890"));
    assert_eq!(configured_proxy(Some("   ")), None);
    assert_eq!(configured_proxy(None), None);
}

#[test]
fn media_chunks_are_counted_up_to_the_limit() {
    assert_eq!(count_media_chunk(10, 5, 20).unwrap(), 15);
    assert_eq!(count_media_chunk(10, 10, 20).unwrap(), 20);
    let error = count_media_chunk(10, 11, 20).unwrap_err();
    assert_eq!(error.kind, DanbooruErrorKind::InvalidResponse);
    assert_eq!(error.message, "媒体响应超过可信大小上限");
    assert!(count_media_chunk(u64::MAX, 1, u64::MAX).is_ok());
}

#[test]
fn api_json_size_is_bounded() {
    assert!(check_api_json_size(MAX_API_JSON_BYTES).is_ok());
    assert_eq!(
        check_api_json_size(MAX_API_JSON_BYTES + 1).unwrap_err().message,
        "Danbooru JSON 响应过大"
    );
}

#[test]
fn media_redirects_need_a_location_and_stop_at_the_limit() {
    assert!(check_media_redirect(0, true).is_ok());
    assert_eq!(check_media_redirect(0, false).unwrap_err().message, "媒体重定向缺少 Location");
    assert_eq!(
        check_media_redirect(MAX_MEDIA_REDIRECTS, true).unwrap_err().message,
        "媒体重定向次数过多"
    );
}

#[test]
fn rate_limited_requests_wait_once_for_at_most_a_minute() {
    assert!(should_wait_for_rate_limit(429, false, 5, 0));
    assert!(should_wait_for_rate_limit(429, false, 60, 0));
    assert!(!should_wait_for_rate_limit(429, false, 60, 1));
    assert!(!should_wait_for_rate_limit(429, true, 5, 0));
    assert!(!should_wait_for_rate_limit(503, false, 5, 0));
}

#[test]
fn empty_md5_is_not_checked() {
    assert_eq!(md5_to_check(Some("abc")), Some("abc"));
    assert_eq!(md5_to_check(Some("")), None);
    assert_eq!(md5_to_check(None), None);
}

#[test]
fn downloaded_md5_compares_without_ascii_case() {
    assert!(check_downloaded_md5("ABCDEF", "abcdef").is_ok());
    let error = check_downloaded_md5("aaaa", "bbbb").unwrap_err();
    assert_eq!(error.kind, DanbooruErrorKind::Integrity);
    assert!(error.retryable);
    assert_eq!(error.message, "下载文件 MD5 不匹配: 期望 aaaa，实际 bbbb");
}

#[test]
fn downloaded_size_must_match_when_known() {
    assert!(check_downloaded_size(None, 12).is_ok());
    assert!(check_downloaded_size(Some(12), 12).is_ok());
    assert_eq!(
        check_downloaded_size(Some(12), 10).unwrap_err().message,
        "下载文件长度不匹配: 期望 Some(12)，实际 10"
    );
}

#[test]
fn part_files_must_be_regular_and_unshared() {
    assert!(check_part_file(true, 1).is_ok());
    assert_eq!(check_part_file(false, 1).unwrap_err().message, "临时下载路径不是普通文件");
    assert_eq!(check_part_file(true, 2).unwrap_err().message, "临时下载文件存在额外硬链接");
}
