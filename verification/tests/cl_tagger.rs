use std::path::PathBuf;

use danbooru_tools::cl_tagger::{
    category_from_name, hf_hub_cache_candidates, include_category, order_tag_mapping,
    primary_hf_hub_cache, resolve_model_dir, ClMappingItem, ClTagCategory, HfCacheEnv,
    ModelDirRequest,
};

fn item(key: &str, tag: Option<&str>, category: Option<&str>) -> ClMappingItem {
    ClMappingItem {
        key: key.to_string(),
        tag: tag.map(str::to_string),
        category: category.map(str::to_string),
    }
}

fn empty_env() -> HfCacheEnv {
    HfCacheEnv {
        hf_hub_cache: None,
        huggingface_hub_cache: None,
        hf_home: None,
        huggingface_home: None,
        user_profile: None,
        home: None,
    }
}

#[test]
fn tag_mapping_parses_numeric_index_order_and_categories() {
    let items = vec![
        item("0", Some("general"), Some("Rating")),
        item("1", Some("explicit"), Some("Rating")),
        item("10", Some("1girl"), Some("General")),
        item("100", Some("hatsune_miku"), Some("Character")),
        item("11", Some("vocaloid"), Some("Copyright")),
        item("2", Some("solo"), Some("General")),
    ];

    let entries = order_tag_mapping(&items).expect("mapping parses");

    let tags = entries.iter().map(|entry| entry.tag.as_str()).collect::<Vec<_>>();
    assert_eq!(tags, vec!["general", "explicit", "solo", "1girl", "vocaloid", "hatsune_miku"]);
    let category = |tag: &str| entries.iter().find(|entry| entry.tag == tag).map(|entry| entry.category);
    assert_eq!(category("1girl"), Some(ClTagCategory::General));
    assert_eq!(category("hatsune_miku"), Some(ClTagCategory::Character));
    assert_eq!(category("vocaloid"), Some(ClTagCategory::Copyright));
    assert_eq!(category("explicit"), Some(ClTagCategory::Rating));
}

#[test]
fn non_numeric_keys_come_last_in_their_given_order() {
    let items = vec![
        item("b", Some("second"), None),
        item("7", Some("seven"), Some("Quality")),
        item("a", Some("third"), Some("Unknown")),
    ];

    let entries = order_tag_mapping(&items).unwrap();

    assert_eq!(
        entries.iter().map(|entry| entry.tag.as_str()).collect::<Vec<_>>(),
        vec!["seven", "second", "third"]
    );
    assert_eq!(entries[0].category, ClTagCategory::Quality);
    assert_eq!(entries[1].category, ClTagCategory::Meta);
    assert_eq!(entries[2].category, ClTagCategory::Meta);
}

#[test]
fn tag_mapping_errors_name_the_first_entry_without_a_tag() {
    let items = vec![item("5", None, None), item("1", None, None)];
    assert_eq!(order_tag_mapping(&items).unwrap_err(), "标签映射条目 1 缺少 tag");
    assert_eq!(order_tag_mapping(&Vec::new()).unwrap_err(), "标签映射为空");
}

#[test]
fn categories_are_read_by_name() {
    assert_eq!(category_from_name(&Some("Model".to_string())), ClTagCategory::Model);
    assert_eq!(category_from_name(&Some("general".to_string())), ClTagCategory::Meta);
    assert_eq!(category_from_name(&None), ClTagCategory::Meta);
    assert!(include_category(ClTagCategory::Quality));
    assert!(!include_category(ClTagCategory::Rating));
    assert!(!include_category(ClTagCategory::Meta));
}

#[test]
fn explicit_model_directory_wins_over_cache_detection() {
    match resolve_model_dir("  /models/cl_tagger  ") {
        ModelDirRequest::Explicit(path) => assert_eq!(path, "/models/cl_tagger"),
        other => panic!("unexpected {other:?}"),
    }
    assert!(matches!(resolve_model_dir(" \t "), ModelDirRequest::DetectInCache));
}

#[test]
fn hub_cache_candidates_follow_the_variable_priority() {
    let env = HfCacheEnv {
        hf_home: Some(PathBuf::from("/hf")),
        home: Some(PathBuf::from("/home/u")),
        ..empty_env()
    };

    let candidates = hf_hub_cache_candidates(&env);

    assert_eq!(candidates.len(), 2);
    assert_eq!(candidates[0].base, PathBuf::from("/hf"));
    assert_eq!(candidates[0].subdirs, vec!["hub"]);
    assert_eq!(candidates[1].base, PathBuf::from("/home/u"));
    assert_eq!(candidates[1].subdirs, vec![".cache", "huggingface", "hub"]);
    let primary = primary_hf_hub_cache(&env).unwrap();
    assert_eq!(primary.base, PathBuf::from("/hf"));
    assert!(primary_hf_hub_cache(&empty_env()).is_none());
}
