use gelbooru::indexing::{
    compute_thumb_filename, decide_index_action, needs_thumbnails, indexed_images_result, indexed_page_window,
    is_card_job, normalize_index_path, thumbnail_jobs, IndexAction, ScanResult, ThumbnailSize,
};

#[test]
fn thumbnail_sizes_have_dimensions_and_names() {
    assert_eq!(ThumbnailSize::Card.dimensions(), (320, 320));
    assert_eq!(ThumbnailSize::Filmstrip.dimensions(), (60, 72));
    assert_eq!(ThumbnailSize::Card.size_name(), "card");
    assert_eq!(ThumbnailSize::Filmstrip.size_name(), "filmstrip");
    assert_eq!(ThumbnailSize::from_size_type("filmstrip"), ThumbnailSize::Filmstrip);
    assert_eq!(ThumbnailSize::from_size_type("other"), ThumbnailSize::Card);
    assert_eq!(ThumbnailSize::for_request(None, None), ThumbnailSize::Card);
    assert_eq!(ThumbnailSize::for_request(Some(60), Some(72)), ThumbnailSize::Filmstrip);
    assert_eq!(ThumbnailSize::Card.other(), ThumbnailSize::Filmstrip);
}

#[test]
fn thumb_filename_is_hash_and_size() {
    let card = compute_thumb_filename("/a/b.jpg", &ThumbnailSize::Card);
    let again = compute_thumb_filename("/a/b.jpg", &ThumbnailSize::Card);
    let strip = compute_thumb_filename("/a/b.jpg", &ThumbnailSize::Filmstrip);
    assert_eq!(card, again);
    assert!(card.ends_with("_card.jpg"));
    assert!(strip.ends_with("_filmstrip.jpg"));
    let digits = card.trim_end_matches("_card.jpg");
    assert!(!digits.is_empty() && digits.chars().all(|c| c.is_ascii_digit()));
}

#[test]
fn index_actions_and_counts() {
    assert_eq!(decide_index_action(None, 5), IndexAction::Insert);
    assert_eq!(decide_index_action(Some((3, 4)), 5), IndexAction::Reindex(3));
    assert_eq!(decide_index_action(Some((3, 5)), 5), IndexAction::Keep(3));
    let mut r = ScanResult::new();
    r.record(IndexAction::Insert);
    r.record(IndexAction::Reindex(1));
    r.record(IndexAction::Keep(2));
    assert_eq!(r, ScanResult { new_images: 1, updated_images: 1, total_images: 3 });
}

#[test]
fn index_paths_use_slashes() {
    assert_eq!(normalize_index_path("C:\\pics\\a.jpg"), "C:/pics/a.jpg");
}

#[test]
fn jobs_for_both_sizes() {
    let jobs = thumbnail_jobs(7, &"s.jpg".to_string(), Some("c.jpg".to_string()), Some("f.jpg".to_string()));
    assert_eq!(jobs.len(), 2);
    assert_eq!((jobs[0].max_width, jobs[0].max_height), (320, 320));
    assert_eq!((jobs[1].max_width, jobs[1].max_height), (60, 72));
    assert!(is_card_job(&jobs[0]));
    assert!(!is_card_job(&jobs[1]));
    let one = thumbnail_jobs(7, &"s.jpg".to_string(), None, Some("f.jpg".to_string()));
    assert_eq!(one.len(), 1);
    assert_eq!(one[0].dest_path, "f.jpg");
}

#[test]
fn indexed_pages() {
    assert_eq!(indexed_page_window(None, None), (0, 50));
    assert_eq!(indexed_page_window(Some(3), Some(10)), (20, 10));
    assert_eq!(indexed_page_window(Some(0), Some(10)), (0, 10));
    let r = indexed_images_result(Vec::new(), 25, 20, 10);
    assert!(!r.has_more);
    let r = indexed_images_result(Vec::new(), 31, 20, 10);
    assert!(r.has_more);
}

#[test]
fn only_new_images_get_thumbnail_jobs() {
    assert!(needs_thumbnails(&IndexAction::Insert));
    assert!(!needs_thumbnails(&IndexAction::Reindex(3)));
    assert!(!needs_thumbnails(&IndexAction::Keep(3)));
}
