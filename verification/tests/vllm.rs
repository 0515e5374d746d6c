use danbooru_tools::vllm::{
    attempt_count, check_batch_size, check_sidecar_content, classify_http_error,
    image_decode_error, image_io_error, merge_caption_tags, normalized_api_key, parse_model_output,
    parse_tag_output, request_transport_error, retry_delay_millis, retry_item, should_retry,
    sidecar_io_error, sidecar_text, validate_endpoint, ImageConstraints, TagWriteMode, VllmError,
    VllmErrorKind, VllmLanguage, VllmOutputOptions, VllmServiceConfig,
};

fn service_config(endpoint: &str, concurrency: usize) -> VllmServiceConfig {
    VllmServiceConfig {
        endpoint: endpoint.to_string(),
        allowed_hosts: Vec::new(),
        model: "vision-model".to_string(),
        system_prompt: "tag the image".to_string(),
        concurrency,
        batch_limit: 100,
        max_attempts: 3,
        max_output_tokens: 1024,
        timeout_seconds: 120,
        image: ImageConstraints::default(),
        tag_mode: TagWriteMode::Overwrite,
    }
}

#[test]
fn caption_prefixes_stay_first_and_are_comma_deduplicated() {
    let tags = merge_caption_tags(
        vec!["artist:origin".to_string(), "character_a".to_string()],
        vec!["1girl".to_string(), "character_a".to_string(), " blue_hair, ".to_string()],
    );

    assert_eq!(tags, vec!["artist:origin", "character_a", "1girl", "blue_hair"]);
}

#[test]
fn endpoint_policy_rejects_non_loopback_http() {
    let result = validate_endpoint("http://192.168.1.50:8000/v1", &Vec::new());

    assert!(result.is_err());
}

#[test]
fn endpoint_allowlist_requires_the_exact_effective_port() {
    let endpoint = "https://vision.example.test:8443/v1";

    assert!(validate_endpoint(endpoint, &vec!["vision.example.test".to_string()]).is_err());
    assert!(validate_endpoint(endpoint, &vec!["vision.example.test:443".to_string()]).is_err());
    assert!(validate_endpoint(endpoint, &vec!["vision.example.test:8443".to_string()]).is_ok());
}

#[test]
fn plain_danbooru_tag_list_is_accepted_when_model_omits_tag_wrapper() {
    assert_eq!(
        parse_tag_output("cat, blue hair, solo").expect("plain tag list"),
        vec!["cat", "blue_hair", "solo"]
    );
}

#[test]
fn english_and_chinese_modes_preserve_natural_language_descriptions() {
    assert_eq!(
        parse_model_output(
            "<tag>A woman with blue hair standing beside a red car.</tag>",
            VllmLanguage::English,
            60,
            400,
        )
        .unwrap(),
        vec!["A woman with blue hair standing beside a red car."]
    );
    assert_eq!(
        parse_model_output("画面中是一位蓝发少女，站在红色汽车旁。", VllmLanguage::Chinese, 60, 400)
            .unwrap(),
        vec!["画面中是一位蓝发少女，站在红色汽车旁。"]
    );
}

#[test]
fn context_and_other_deterministic_4xx_errors_are_not_retryable() {
    let error = classify_http_error(400, "maximum context length exceeded");

    assert_eq!(error.kind, VllmErrorKind::ContextLength);
    assert!(!error.retryable);
}

#[test]
fn redirects_are_not_followed_or_retried() {
    let error = classify_http_error(302, "redirect");

    assert_eq!(error.kind, VllmErrorKind::InvalidEndpoint);
    assert!(!error.retryable);
}

#[test]
fn service_config_enforces_bounded_concurrency() {
    let config = service_config("http://127.0.0.1:8000/v1", 0);

    assert!(config.validate().is_err());
}

#[test]
fn bounded_service_config_is_accepted() {
    assert!(service_config("http://127.0.0.1:8000/v1", 4).validate().is_ok());
    assert!(service_config("http://192.168.1.50:8000/v1", 4).validate().is_err());
}

#[test]
fn rate_limits_and_server_errors_are_retryable() {
    let limited = classify_http_error(429, "retry later");
    assert_eq!(limited.kind, VllmErrorKind::RateLimited);
    assert!(limited.retryable);
    assert_eq!(limited.message, "vLLM 返回 HTTP 429: retry later");
    assert_eq!(classify_http_error(401, "").kind, VllmErrorKind::Authentication);
    assert!(classify_http_error(503, "busy").retryable);
}

#[test]
fn deterministic_failures_are_attempted_only_once() {
    let attempts = attempt_count(3);
    assert_eq!(attempts, 3);
    assert!(!should_retry(false, 0, attempts));
    assert!(should_retry(true, 0, attempts));
    assert!(should_retry(true, 1, attempts));
    assert!(!should_retry(true, 2, attempts));
    assert_eq!(attempt_count(0), 1);
}

#[test]
fn retry_delays_double_up_to_a_cap() {
    let delays = (0..6).map(retry_delay_millis).collect::<Vec<_>>();
    assert_eq!(delays, vec![100, 200, 400, 800, 1600, 1600]);
}

#[test]
fn batch_size_is_capped() {
    assert!(check_batch_size(10, 10).is_ok());
    assert_eq!(check_batch_size(11, 10).unwrap_err().kind, VllmErrorKind::InvalidRequest);
}

#[test]
fn sidecar_append_keeps_the_existing_caption() {
    assert_eq!(sidecar_text(" new_tag ", TagWriteMode::Append, "old_tag"), "old_tag,\nnew_tag");
    assert_eq!(sidecar_text(" new_tag ", TagWriteMode::Overwrite, "old_tag"), "new_tag");
    assert!(check_sidecar_content("  ").is_err());
    assert!(check_sidecar_content("tag").is_ok());
}

#[test]
fn blank_api_keys_are_dropped() {
    assert_eq!(normalized_api_key(Some("   ".to_string())), None);
    assert_eq!(normalized_api_key(Some(" key ".to_string())).as_deref(), Some("key"));
    assert_eq!(normalized_api_key(None), None);
}

#[test]
fn output_options_are_bounded() {
    assert!(VllmOutputOptions::default().validate().is_ok());
}

#[test]
fn transport_and_file_errors_are_classified() {
    let timeout = request_transport_error(true, "ignored");
    assert_eq!(timeout.kind, VllmErrorKind::Timeout);
    assert_eq!(timeout.message, "vLLM 请求超时");
    assert!(timeout.retryable);
    let refused = request_transport_error(false, "connection refused");
    assert_eq!(refused.kind, VllmErrorKind::Upstream);
    assert_eq!(refused.message, "vLLM 连接失败: connection refused");
    assert_eq!(sidecar_io_error("denied").message, "标签文件写入失败: denied");
    assert_eq!(image_io_error("missing").kind, VllmErrorKind::Io);
    assert_eq!(image_decode_error("bad header").kind, VllmErrorKind::InvalidImage);
}

#[test]
fn retry_items_carry_the_error() {
    let item = retry_item(
        "media-1",
        VllmError { kind: VllmErrorKind::Timeout, message: "slow".to_string(), retryable: true },
    );
    assert_eq!(item.media_id, "media-1");
    assert_eq!(item.code, VllmErrorKind::Timeout);
    assert_eq!(item.message, "slow");
}

#[test]
fn tags_without_content_are_refused() {
    assert!(parse_tag_output("<tag></tag>").is_err());
}
