use gelbooru::gallery::{
    choose_folder, content_type_of_path, content_type_of_url, dir_node, dir_summary,
    directory_listing, file_name_of, is_image, make_data_url, paginate_images, root_tree,
    sanitize_path, validate_path, validate_path_within_base, TreeNode,
};
use std::path::Path;

#[test]
fn sanitize_path_removes_null_bytes() {
    assert_eq!(sanitize_path("path\0with\0null"), "pathwithnull");
}

#[test]
fn sanitize_path_normalizes_backslashes() {
    assert_eq!(sanitize_path("path\\to\\file"), "path/to/file");
}

#[test]
fn sanitize_path_preserves_normal_path() {
    assert_eq!(sanitize_path("/normal/path/to/file.png"), "/normal/path/to/file.png");
}

#[test]
fn sanitize_path_handles_mixed_separators() {
    assert_eq!(sanitize_path("C:\\users\\test/path\\file.jpg"), "C:/users/test/path/file.jpg");
}

#[test]
fn validate_path_traversal_detection() {
    let cases: Vec<(&str, bool)> = vec![
        ("safe/path/to/file.png", true),
        ("/absolute/path/file.jpg", true),
        ("relative/path/file.gif", true),
        ("C:\\windows\\path\\file.webp", true),
        ("path/with..double/dots/file.png", false),
        ("../parent/path/file.jpg", false),
        ("path/../../../etc/passwd", false),
        ("path\\..\\parent\\file.png", false),
    ];
    for (path, should_pass) in cases {
        let result = validate_path(path);
        if should_pass {
            assert!(result.is_ok(), "Expected path '{path}' to be valid, got: {:?}", result);
        } else {
            assert!(result.is_err(), "Expected path '{path}' to be invalid");
        }
    }
}

#[test]
fn validate_path_detects_null_bytes() {
    assert!(validate_path("safe/path\0with\0null").is_ok());
}

#[test]
fn validate_path_empty_path_is_valid() {
    assert!(validate_path("").is_ok());
}

#[test]
fn validate_path_root_path_is_valid() {
    assert!(validate_path("/").is_ok());
}

#[test]
fn validate_path_windows_drive_letter() {
    assert!(validate_path("C:/Users/Test/Documents/image.png").is_ok());
}

#[test]
fn validate_path_long_nested_path() {
    let deep_path = "a/b/c/d/e/f/g/h/i/j/k/l/m/n/o/p/q/r/s/t/u/v/w/x/y/z/file.png";
    assert!(validate_path(deep_path).is_ok());
}

#[test]
fn validate_path_with_special_characters() {
    assert!(validate_path("path/to/my-file_123.EXT").is_ok());
}

#[test]
fn validate_path_error_message() {
    assert_eq!(validate_path("../x").unwrap_err(), "路径包含非法字符或路径遍历尝试");
}

#[test]
fn is_image_supports_supported_extensions() {
    for ext in &["jpg", "jpeg", "png", "gif", "webp"] {
        let p = Path::new("test.").join(format!("file.{}", ext));
        assert!(is_image(p.to_str().unwrap()), "Extension '{}' should be recognized as image", ext);
    }
}

#[test]
fn is_image_rejects_unsupported_extensions() {
    for ext in &["txt", "pdf", "html", "exe"] {
        let p = Path::new("test.").join(format!("file.{}", ext));
        assert!(!is_image(p.to_str().unwrap()), "Extension '{}' should NOT be recognized as image", ext);
    }
}

#[test]
fn is_image_ignores_case_and_needs_an_extension() {
    assert!(is_image("a/b/PHOTO.JPG"));
    assert!(is_image("x.WebP"));
    assert!(!is_image("a/jpg"));
    assert!(!is_image(".png"));
}

#[test]
fn content_types_by_extension_and_url() {
    assert_eq!(content_type_of_path("a/b.PNG"), "image/png");
    assert_eq!(content_type_of_path("a/b.gif"), "image/gif");
    assert_eq!(content_type_of_path("a/b.webp"), "image/webp");
    assert_eq!(content_type_of_path("a/b.jpeg"), "image/jpeg");
    assert_eq!(content_type_of_path("a/b.bmp"), "image/jpeg");
    assert_eq!(content_type_of_path("a/b"), "image/jpeg");
    assert_eq!(content_type_of_url("https://x/y.png"), "image/png");
    assert_eq!(content_type_of_url("https://x/y.PNG"), "image/jpeg");
    assert_eq!(content_type_of_url("https://x/y.gif"), "image/gif");
    assert_eq!(content_type_of_url("https://x/y.webp"), "image/webp");
}

#[test]
fn data_url_encodes_standard_base64() {
    assert_eq!(make_data_url("image/png", &b"hello".to_vec()), "data:image/png;base64,aGVsbG8=");
    assert_eq!(make_data_url("image/gif", &vec![0xfb, 0xff]), "data:image/gif;base64,+/8=");
    assert_eq!(make_data_url("image/jpeg", &Vec::new()), "data:image/jpeg;base64,");
}

#[test]
fn file_name_is_last_segment() {
    assert_eq!(file_name_of(&"a/b\\c.jpg".to_string()), "c.jpg");
    assert_eq!(file_name_of(&"plain.png".to_string()), "plain.png");
    assert_eq!(file_name_of(&"dir/".to_string()), "");
}

fn timed(items: &[(&str, i128)]) -> Vec<(String, i128)> {
    items.iter().map(|(p, t)| (p.to_string(), *t)).collect()
}

#[test]
fn paginate_images_newest_first_and_pages() {
    let items = timed(&[("d/a.jpg", 1), ("d/b.jpg", 3), ("d/c.jpg", 2), ("d/e.jpg", 3)]);
    let page = paginate_images(items.clone(), Some(1), Some(2));
    assert_eq!(page.total, 4);
    assert!(page.has_more);
    let names: Vec<&str> = page.images.iter().map(|i| i.name.as_str()).collect();
    // equal times keep their order: b before e
    assert_eq!(names, vec!["b.jpg", "e.jpg"]);
    let page2 = paginate_images(items.clone(), Some(2), Some(2));
    assert!(!page2.has_more);
    let names2: Vec<&str> = page2.images.iter().map(|i| i.name.as_str()).collect();
    assert_eq!(names2, vec!["c.jpg", "a.jpg"]);
    assert_eq!(page2.images[1].path, "d/a.jpg");
    let beyond = paginate_images(items.clone(), Some(5), Some(2));
    assert!(beyond.images.is_empty());
    let defaults = paginate_images(items, None, None);
    assert_eq!(defaults.images.len(), 4);
    assert!(!defaults.has_more);
}

#[test]
fn choose_folder_checks_user_folder() {
    assert_eq!(choose_folder(Some("x/y".to_string()), "db".to_string()).unwrap(), "x/y");
    assert!(choose_folder(Some("../y".to_string()), "db".to_string()).is_err());
    assert_eq!(choose_folder(None, "db".to_string()).unwrap(), "db");
    assert_eq!(choose_folder(None, String::new()).unwrap(), "");
}

#[test]
fn directory_listing_keeps_folders_with_images() {
    let scans = vec![
        ("r/a".to_string(), Some("a".to_string()), 2, Some("r/a/1.jpg".to_string())),
        ("r/b".to_string(), Some("b".to_string()), 0, None),
        ("r/..".to_string(), None, 1, None),
    ];
    let listing = directory_listing(scans, timed(&[("r/x.gif", 5), ("r/y.jpg", 9)]));
    assert_eq!(listing.total, 2);
    assert_eq!(listing.subdirs.len(), 2);
    assert_eq!(listing.subdirs[0].name, "a");
    assert_eq!(listing.subdirs[0].image_count, 2);
    assert_eq!(listing.subdirs[1].name, "未命名");
    assert_eq!(listing.images[0].name, "y.jpg");
}

fn leaf(path: &str, label: &str, count: usize, thumb: Option<&str>) -> TreeNode {
    TreeNode {
        key: path.to_string(),
        label: label.to_string(),
        path: path.to_string(),
        is_leaf: true,
        image_count: count,
        children: Some(Vec::new()),
        thumbnail: thumb.map(|t| t.to_string()),
    }
}

#[test]
fn dir_node_sums_counts_and_takes_first_image() {
    let own = vec!["d/1.jpg".to_string(), "d/2.jpg".to_string()];
    let node = dir_node("d".to_string(), "d".to_string(), &own, vec![leaf("d/s", "s", 3, Some("d/s/x.jpg"))])
        .unwrap();
    assert_eq!(node.image_count, 5);
    assert!(!node.is_leaf);
    assert_eq!(node.thumbnail.as_deref(), Some("d/1.jpg"));
    let only_children = dir_node("e".to_string(), "e".to_string(), &Vec::new(), vec![
        leaf("e/a", "a", 1, None),
        leaf("e/b", "b", 1, Some("e/b/1.png")),
    ])
    .unwrap();
    assert_eq!(only_children.thumbnail.as_deref(), Some("e/b/1.png"));
    assert!(dir_node("f".to_string(), "f".to_string(), &Vec::new(), Vec::new()).is_none());
}

#[test]
fn root_tree_sorts_children_by_label() {
    let own = vec!["r/root.jpg".to_string()];
    let tree = root_tree("r".to_string(), "r".to_string(), &own, vec![
        leaf("r/b", "b", 2, Some("r/b/1.jpg")),
        leaf("r/a", "a", 3, None),
        leaf("r/B", "B", 1, None),
    ]);
    assert_eq!(tree.len(), 1);
    assert_eq!(tree[0].image_count, 7);
    assert!(!tree[0].is_leaf);
    let labels: Vec<&str> = tree[0].children.as_ref().unwrap().iter().map(|c| c.label.as_str()).collect();
    assert_eq!(labels, vec!["B", "a", "b"]);
    let empty = root_tree("r".to_string(), "r".to_string(), &Vec::new(), Vec::new());
    assert_eq!(empty[0].image_count, 0);
    assert!(empty[0].is_leaf);
    assert!(empty[0].children.is_none());
    assert!(empty[0].thumbnail.is_none());
}

#[test]
fn dir_summary_counts_nested_images() {
    let own = vec![];
    let (count, first) = dir_summary(&own, &vec![(2, None), (3, Some("x/1.jpg".to_string()))]);
    assert_eq!(count, 5);
    assert_eq!(first.as_deref(), Some("x/1.jpg"));
}

#[test]
fn validate_path_within_base_decisions() {
    let ok = validate_path_within_base("/base/dir/a.jpg", true, Ok("/base/dir/a.jpg".to_string()), Ok("/base".to_string()));
    assert_eq!(ok.unwrap(), "/base/dir/a.jpg");
    let outside = validate_path_within_base("/other/a.jpg", true, Ok("/other/a.jpg".to_string()), Ok("/base".to_string()));
    assert_eq!(outside.unwrap_err(), "路径超出允许范围");
    let traversal = validate_path_within_base("../a.jpg", true, Ok("/a.jpg".to_string()), Ok("/base".to_string()));
    assert!(traversal.is_err());
    let missing = validate_path_within_base("new/a.jpg", false, Err("gone".to_string()), Ok("/base".to_string()));
    assert_eq!(missing.unwrap(), "/base/new/a.jpg");
    let bad_base = validate_path_within_base("new/a.jpg", false, Err("gone".to_string()), Err("denied".to_string()));
    assert_eq!(bad_base.unwrap_err(), "无法访问基础目录: denied");
    let bad_path = validate_path_within_base("a.jpg", true, Err("denied".to_string()), Ok("/base".to_string()));
    assert_eq!(bad_path.unwrap_err(), "无法访问路径: denied");
}

#[test]
fn validate_path_within_base_compares_whole_components() {
    let sibling = validate_path_within_base("/d/dl2/x.jpg", true, Ok("/d/dl2/x.jpg".to_string()), Ok("/d/dl".to_string()));
    assert_eq!(sibling.unwrap_err(), "路径超出允许范围");
    let itself = validate_path_within_base("/d/dl", true, Ok("/d/dl".to_string()), Ok("/d/dl".to_string()));
    assert_eq!(itself.unwrap(), "/d/dl");
    let slash_base = validate_path_within_base("/d/dl/x.jpg", true, Ok("/d/dl/x.jpg".to_string()), Ok("/d/dl/".to_string()));
    assert_eq!(slash_base.unwrap(), "/d/dl/x.jpg");
    let absolute_new = validate_path_within_base("/elsewhere/x.jpg", false, Err("gone".to_string()), Ok("/d/dl".to_string()));
    assert_eq!(absolute_new.unwrap_err(), "路径超出允许范围");
}
