use danbooru_tools::vllm::{
    answer_content, batch_result, check_answer_size, check_can_shrink, check_image_file,
    check_image_pixels, check_image_request, check_sidecar_write, health_report,
    next_jpeg_quality, over_white, route_error, sidecar_place_error, sidecar_replace_error,
    verified_tags, worker_error, ImageConstraints, SidecarFacts, SidecarPlaceProblem,
    VllmError, VllmErrorKind, VllmRetryItem, VllmTagSuccess, WorkerFailure,
};

fn strings(items: &[&str]) -> Vec<String> {
    items.iter().map(|item| item.to_string()).collect()
}

#[test]
fn verified_tags_keep_only_known_tags_in_order() {
    let kept = verified_tags(strings(&["a", "b", "c"]), &vec![true, false, true]).unwrap();
    assert_eq!(kept, strings(&["a", "c"]));
    let error = verified_tags(strings(&["a"]), &vec![false]).unwrap_err();
    assert_eq!(error.kind, VllmErrorKind::InvalidResponse);
    assert_eq!(error.message, "模型返回的标签均未通过 Danbooru 在线校验");
}

#[test]
fn health_report_counts_models_or_passes_the_error_on() {
    let health = health_report(Ok(strings(&["m1", "m2"])));
    assert!(health.available);
    assert_eq!(health.models, strings(&["m1", "m2"]));
    assert_eq!(health.message, "vLLM 可用，发现 2 个模型");
    let failed = health_report(Err(VllmError {
        kind: VllmErrorKind::Upstream,
        message: "down".to_string(),
        retryable: true,
    }));
    assert!(!failed.available);
    assert!(failed.models.is_empty());
    assert_eq!(failed.message, "down");
}

#[test]
fn sidecar_writes_are_checked_in_order() {
    let regular = SidecarFacts { is_symlink: false, is_file: true, len: 10 };
    assert!(check_sidecar_write(true, None, None).is_ok());
    assert!(check_sidecar_write(true, Some(regular), Some(false)).is_ok());
    let message = |image, existing, quarantine| check_sidecar_write(image, existing, quarantine).unwrap_err().message;
    assert_eq!(message(false, None, None), "标签目标不是普通媒体文件");
    let link = SidecarFacts { is_symlink: true, is_file: true, len: 1 };
    assert_eq!(message(true, Some(link), Some(false)), "拒绝替换非普通标签文件");
    let big = SidecarFacts { is_symlink: false, is_file: true, len: 8 * 1024 * 1024 + 1 };
    assert_eq!(message(true, Some(big), Some(false)), "现有标签文件超过 8 MiB 限制");
    assert_eq!(message(true, Some(regular), None), "替换现有标签文件必须提供隔离目标");
    assert_eq!(message(true, None, Some(true)), "标签文件与隔离目标不能相同");
    assert_eq!(check_sidecar_write(false, None, None).unwrap_err().kind, VllmErrorKind::SidecarWrite);
}

#[test]
fn jpeg_quality_steps_down_by_ten_to_fifty() {
    assert_eq!(next_jpeg_quality(85), Some(75));
    assert_eq!(next_jpeg_quality(55), Some(50));
    assert_eq!(next_jpeg_quality(51), Some(50));
    assert_eq!(next_jpeg_quality(50), None);
}

#[test]
fn over_white_blends_towards_white() {
    assert_eq!(over_white(0, 255), 0);
    assert_eq!(over_white(0, 0), 255);
    assert_eq!(over_white(100, 128), ((100u32 * 128 + 255 * 127) / 255) as u8);
}

#[test]
fn batch_results_are_ordered_by_media_id() {
    let success = |id: &str| VllmTagSuccess { media_id: id.to_string(), tags: Vec::new(), sidecar_written: false };
    let failure = |id: &str| VllmRetryItem {
        media_id: id.to_string(),
        code: VllmErrorKind::Upstream,
        message: String::new(),
        retryable: true,
    };
    let result = batch_result(vec![success("b"), success("a"), success("c")], vec![failure("z"), failure("y")], 99);
    let ids: Vec<&str> = result.successes.iter().map(|s| s.media_id.as_str()).collect();
    assert_eq!(ids, vec!["a", "b", "c"]);
    let retry: Vec<&str> = result.retry_manifest.items.iter().map(|i| i.media_id.as_str()).collect();
    assert_eq!(retry, vec!["y", "z"]);
    assert_eq!(result.retry_manifest.created_at, 99);
}

#[test]
fn answers_need_text_and_a_bounded_size() {
    assert_eq!(answer_content(Some("tags")).unwrap(), "tags");
    assert_eq!(answer_content(None).unwrap_err().message, "vLLM 响应没有文本内容");
    assert!(check_answer_size(10, 10).is_ok());
    assert_eq!(check_answer_size(11, 10).unwrap_err().message, "vLLM 响应超过大小限制");
}

#[test]
fn worker_and_route_errors_say_what_failed() {
    let closed = worker_error(WorkerFailure::QueueClosed, "ignored");
    assert_eq!(closed.message, "vLLM 并发队列已关闭");
    assert!(closed.retryable);
    assert_eq!(worker_error(WorkerFailure::Preparation, "boom").message, "图片预处理线程异常: boom");
    assert_eq!(worker_error(WorkerFailure::SidecarWrite, "x").message, "标签写入线程异常: x");
    assert_eq!(route_error(true).message, "无法构造 vLLM models 地址");
    assert_eq!(route_error(false).message, "无法构造 vLLM chat/completions 地址");
    assert_eq!(route_error(true).kind, VllmErrorKind::InvalidEndpoint);
}

#[test]
fn sidecar_placement_errors_name_the_problem() {
    assert_eq!(sidecar_place_error(SidecarPlaceProblem::QuarantineTaken).message, "标签隔离目标已存在");
    assert_eq!(sidecar_place_error(SidecarPlaceProblem::NoParent).message, "标签文件缺少父目录");
    assert_eq!(sidecar_place_error(SidecarPlaceProblem::NoQuarantineParent).message, "标签隔离目标缺少父目录");
    assert_eq!(sidecar_replace_error("e", None).message, "无法原子替换标签文件: e");
    assert_eq!(sidecar_replace_error("e", Some("r")).message, "无法原子替换标签文件: e；旧标签回滚失败: r");
}

#[test]
fn image_requests_need_a_model_format_and_sane_constraints() {
    let constraints = ImageConstraints::default();
    assert!(check_image_request("PNG", &constraints).is_ok());
    let video = check_image_request("mp4", &constraints).unwrap_err();
    assert_eq!(video.kind, VllmErrorKind::UnsupportedMedia);
    let broken = ImageConstraints { jpeg_quality: 0, ..ImageConstraints::default() };
    let error = check_image_request("jpg", &broken).unwrap_err();
    assert_eq!(error.kind, VllmErrorKind::InvalidRequest);
    assert_eq!(error.message, "图片约束参数无效");
}

#[test]
fn image_files_and_pixels_are_bounded() {
    let constraints = ImageConstraints::default();
    assert!(check_image_file(true, constraints.max_source_bytes, &constraints).is_ok());
    assert!(check_image_file(false, 1, &constraints).is_err());
    assert!(check_image_file(true, constraints.max_source_bytes + 1, &constraints).is_err());
    assert!(check_image_pixels(10_000, 10_000, &constraints).is_ok());
    assert_eq!(
        check_image_pixels(10_001, 10_000, &constraints).unwrap_err().message,
        "图片像素数量超过模型输入限制"
    );
    assert!(check_can_shrink(129, 10).is_ok());
    assert_eq!(check_can_shrink(128, 128).unwrap_err().message, "压缩后图片仍超过模型输入字节限制");
}
