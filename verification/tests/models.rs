use gelbooru::models::{GelbooruPage, GelbooruPost, GelbooruPostStatistics, GelbooruTag};

#[test]
fn gelbooru_page_new_creates_page() {
    let tags = vec!["1girl".to_string(), "solo".to_string()];
    let page = GelbooruPage::new(tags.clone(), 1);

    assert_eq!(page.page, "post");
    assert_eq!(page.s, "list");
    assert_eq!(page.tags, tags);
    assert_eq!(page.page_num, 1);
    assert!(page.tag_list.is_empty());
    assert!(page.post_list.is_empty());
}

#[test]
fn gelbooru_page_index_request() {
    let tags = vec!["blue_eyes".to_string()];
    let page = GelbooruPage::index_request(tags.clone(), 5);

    assert_eq!(page.tags, tags);
    assert_eq!(page.page_num, 5);
}

#[test]
fn gelbooru_page_empty_tags() {
    let page = GelbooruPage::new(Vec::new(), 1);

    assert!(page.tags.is_empty());
}

#[test]
fn gelbooru_page_with_posts() {
    let mut page = GelbooruPage::new(vec!["1girl".to_string()], 1);
    page.post_list.push(GelbooruPost::new(1, "url1".to_string(), "post1".to_string()));
    page.post_list.push(GelbooruPost::new(2, "url2".to_string(), "post2".to_string()));

    assert_eq!(page.post_list.len(), 2);
}

#[test]
fn gelbooru_page_with_tag_list() {
    let mut page = GelbooruPage::new(vec!["sakura_kinomoto".to_string()], 1);
    page.tag_list.push(GelbooruTag::new("artist_tag".to_string(), "artist".to_string(), 100));

    assert_eq!(page.tag_list.len(), 1);
    assert_eq!(page.tag_list[0].text, "artist_tag");
}

#[test]
fn gelbooru_page_various_page_numbers() {
    let cases: Vec<(Vec<&str>, u32)> = vec![
        (vec![], 1),
        (vec!["1girl"], 1),
        (vec!["blue_eyes", "blonde_hair", "1girl"], 10),
        (vec!["rating:safe", "order:score"], 5),
    ];
    for (tags, page_num) in cases {
        let tags_owned: Vec<String> = tags.into_iter().map(|s| s.to_string()).collect();
        let page = GelbooruPage::new(tags_owned.clone(), page_num);
        assert_eq!(page.page_num, page_num);
        assert_eq!(page.tags, tags_owned);
    }
}

#[test]
fn gelbooru_post_new_creates_post() {
    let post = GelbooruPost::new(
        12345,
        "https://example.com/post".to_string(),
        "Test Post".to_string(),
    );

    assert_eq!(post.id, 12345);
    assert_eq!(post.url, "https://example.com/post");
    assert_eq!(post.title, "Test Post");
    assert!(post.tag_list.is_empty());
    assert!(post.thumbnail.is_none());
}

#[test]
fn gelbooru_post_statistics_default() {
    let stats = GelbooruPostStatistics::default();

    assert_eq!(stats.size, "");
    assert_eq!(stats.rating, "");
    assert_eq!(stats.posted, "");
    assert_eq!(stats.source, "");
    assert_eq!(stats.score, 0);
    assert_eq!(stats.image, "");
    assert_eq!(stats.sample, "");
}

#[test]
fn gelbooru_post_statistics_with_values() {
    let stats = GelbooruPostStatistics {
        size: "1920x1080".to_string(),
        rating: "s".to_string(),
        posted: "2024-01-15".to_string(),
        source: "original".to_string(),
        score: 1500,
        image: "https://example.com/image.jpg".to_string(),
        sample: "https://example.com/sample.jpg".to_string(),
    };

    assert_eq!(stats.size, "1920x1080");
    assert_eq!(stats.rating, "s");
    assert_eq!(stats.score, 1500);
}

#[test]
fn gelbooru_post_with_thumbnail() {
    let mut post = GelbooruPost::new(1, "url".to_string(), "title".to_string());
    post.thumbnail = Some("https://example.com/thumb.jpg".to_string());

    assert!(post.thumbnail.is_some());
    assert_eq!(post.thumbnail.unwrap(), "https://example.com/thumb.jpg");
}

#[test]
fn gelbooru_post_with_tags() {
    let mut post = GelbooruPost::new(1, "url".to_string(), "title".to_string());
    post.tag_list.push(GelbooruTag::new("1girl".to_string(), "general".to_string(), 100));
    post.tag_list.push(GelbooruTag::new("solo".to_string(), "general".to_string(), 200));

    assert_eq!(post.tag_list.len(), 2);
    assert_eq!(post.tag_list[0].text, "1girl");
    assert_eq!(post.tag_list[1].text, "solo");
}

#[test]
fn gelbooru_post_various_ids() {
    let cases: Vec<(u32, &str, &str)> = vec![
        (1, "url1", "title1"),
        (999999, "https://gelbooru.com/index.php?page=post&s=view&id=123", "Sample Post"),
        (0, "", "Minimal Post"),
    ];
    for (id, url, title) in cases {
        let post = GelbooruPost::new(id, url.to_string(), title.to_string());
        assert_eq!(post.id, id);
        assert_eq!(post.url, url);
        assert_eq!(post.title, title);
    }
}

#[test]
fn gelbooru_tag_new_creates_tag() {
    let tag = GelbooruTag::new("sakura_kinomoto".to_string(), "artist".to_string(), 1234);

    assert_eq!(tag.text, "sakura_kinomoto");
    assert_eq!(tag.tag_type, "artist");
    assert_eq!(tag.count, 1234);
}

#[test]
fn gelbooru_tag_default_values() {
    let tag = GelbooruTag {
        text: "test".to_string(),
        tag_type: "character".to_string(),
        count: 100,
    };

    assert_eq!(tag.text, "test");
    assert_eq!(tag.tag_type, "character");
    assert_eq!(tag.count, 100);
}

#[test]
fn gelbooru_tag_various_types() {
    let cases: Vec<(&str, &str, u32)> = vec![
        ("blue_eyes", "character", 5000),
        ("solo", "general", 100000),
        ("1girl", "general", 50000),
        ("copyright", "copyright", 10),
    ];
    for (text, tag_type, count) in cases {
        let tag = GelbooruTag::new(text.to_string(), tag_type.to_string(), count);
        assert_eq!(tag.text, text);
        assert_eq!(tag.tag_type, tag_type);
        assert_eq!(tag.count, count);
    }
}
