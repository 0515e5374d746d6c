use std::path::PathBuf;

use danbooru_tools::danbooru_client::{parse_base_url, DanbooruClientConfig, MediaPolicy, DEFAULT_BASE_URL};
use danbooru_tools::dataset_augmentation::{short_digest, source_token, DatasetAugmentationSource};
use danbooru_tools::tag_manager::{tag_lookup_step, TagLookupAction, TagLookupResponse};
use danbooru_tools::vllm::{jpeg_data_url, service_endpoint, validate_endpoint};

#[test]
fn base_url_paths_end_with_a_slash() {
    let (url, host) = parse_base_url("https://example.com/api").unwrap();
    assert_eq!(url.as_str(), "https://example.com/api/");
    assert_eq!(host, "example.com");
    let (kept, _) = parse_base_url("https://example.com/api/").unwrap();
    assert_eq!(kept.as_str(), "https://example.com/api/");
    let (base, _) = MediaPolicy::for_client("https://example.com/v2", &Vec::new()).unwrap();
    assert_eq!(base.as_str(), "https://example.com/v2/");
}

#[test]
fn validated_media_urls_are_the_parsed_candidate() {
    let config = DanbooruClientConfig::default();
    let (_, policy) = MediaPolicy::for_client(DEFAULT_BASE_URL, &config.trusted_media_hosts).unwrap();
    let url = policy.validate_media_url("https://cdn.donmai.us/original/ab/cd/abcd.jpg").unwrap();
    assert_eq!(url.as_str(), "https://cdn.donmai.us/original/ab/cd/abcd.jpg");
}

#[test]
fn vllm_endpoints_keep_their_address_and_gain_a_slash() {
    let url = validate_endpoint("http://127.0.0.1:8000/v1", &Vec::new()).unwrap();
    assert_eq!(url.as_str(), "http://127.0.0.1:8000/v1");
    let service = service_endpoint("http://127.0.0.1:8000/v1", &Vec::new()).unwrap();
    assert_eq!(service.as_str(), "http://127.0.0.1:8000/v1/");
}

#[test]
fn sources_without_a_usable_media_id_are_named_by_their_path() {
    let source = DatasetAugmentationSource {
        media_id: "---".to_string(),
        relative_path: PathBuf::from("images/cat.png"),
        sha256: None,
        fallback_caption: String::new(),
    };
    assert_eq!(source_token(&source), short_digest(b"images/cat.png"));
    let named = DatasetAugmentationSource { media_id: "post-42".to_string(), ..source };
    assert_eq!(source_token(&named), "post42");
}

#[test]
fn jpeg_data_urls_carry_base64_bytes() {
    assert_eq!(jpeg_data_url(&vec![1, 2, 3]), "data:image/jpeg;base64,AQID");
    assert_eq!(jpeg_data_url(&Vec::new()), "data:image/jpeg;base64,");
}

#[test]
fn tag_lookups_wait_retry_and_give_up() {
    assert_eq!(tag_lookup_step(0, &TagLookupResponse::Answered), TagLookupAction::Read);
    assert_eq!(
        tag_lookup_step(1, &TagLookupResponse::RateLimited(Some("12".to_string()))),
        TagLookupAction::WaitSeconds(12)
    );
    assert_eq!(
        tag_lookup_step(3, &TagLookupResponse::RateLimited(Some("soon".to_string()))),
        TagLookupAction::WaitSeconds(5)
    );
    assert_eq!(tag_lookup_step(0, &TagLookupResponse::RateLimited(None)), TagLookupAction::WaitSeconds(5));
    assert_eq!(tag_lookup_step(0, &TagLookupResponse::Failed), TagLookupAction::WaitMillis(250));
    assert_eq!(tag_lookup_step(2, &TagLookupResponse::Failed), TagLookupAction::WaitMillis(750));
    assert_eq!(tag_lookup_step(3, &TagLookupResponse::Failed), TagLookupAction::GiveUp);
}
