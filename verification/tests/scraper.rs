use gelbooru::scraping::GelbooruScraper;

#[test]
fn test_parse_page_extracts_post() {
    let html = r#"
        <html>
        <body>
        <article class="thumbnail-preview">
            <a id="p12345" href="/post/12345">
                <img title="Beautiful Sakura" src="thumb.jpg">
            </a>
        </article>
        </body>
        </html>
    "#;

    let scraper = GelbooruScraper::new();
    let (posts, _, _) = scraper.parse_page(html);

    assert_eq!(posts.len(), 1);
    assert_eq!(posts[0].id, 12345);
    assert_eq!(posts[0].url, "/post/12345");
    assert_eq!(posts[0].title, "Beautiful Sakura");
}

#[test]
fn test_parse_page_extracts_multiple_posts() {
    let html = r#"
        <html>
        <body>
        <article class="thumbnail-preview">
            <a id="p100" href="/post/100">
                <img title="Post 100" src="thumb1.jpg">
            </a>
        </article>
        <article class="thumbnail-preview">
            <a id="p200" href="/post/200">
                <img title="Post 200" src="thumb2.jpg">
            </a>
        </article>
        <article class="thumbnail-preview">
            <a id="p300" href="/post/300">
                <img title="Post 300" src="thumb3.jpg">
            </a>
        </article>
        </body>
        </html>
    "#;

    let scraper = GelbooruScraper::new();
    let (posts, _, _) = scraper.parse_page(html);

    assert_eq!(posts.len(), 3);
    assert_eq!(posts[0].id, 100);
    assert_eq!(posts[1].id, 200);
    assert_eq!(posts[2].id, 300);
}

#[test]
fn test_parse_page_extracts_tags() {
    let html = r#"
        <html>
        <body>
        <ul id="tag-list">
            <li class="tag-type-artist">
                <a>artist_name</a>
                <span style="color: #a0a0a0;">100</span>
            </li>
            <li class="tag-type-character">
                <a>saber</a>
                <span style="color: #a0a0a0;">500</span>
            </li>
            <li class="tag-type-copyright">
                <a>fate_series</a>
                <span style="color: #a0a0a0;">200</span>
            </li>
        </ul>
        </body>
        </html>
    "#;

    let scraper = GelbooruScraper::new();
    let (_, tags, _) = scraper.parse_page(html);

    assert_eq!(tags.len(), 3);
    assert!(tags
        .iter()
        .any(|t| t.text == "artist_name" && t.tag_type == "artist"));
    assert!(tags
        .iter()
        .any(|t| t.text == "saber" && t.tag_type == "character"));
    assert!(tags
        .iter()
        .any(|t| t.text == "fate_series" && t.tag_type == "copyright"));
}

#[test]
fn test_parse_page_handles_empty_html() {
    let html = "<html><body></body></html>";
    let scraper = GelbooruScraper::new();
    let (posts, tags, pages) = scraper.parse_page(html);

    assert!(posts.is_empty());
    assert!(tags.is_empty());
    assert_eq!(pages, 1); // default minimum
}

#[test]
fn test_parse_page_extracts_thumbnail() {
    let html = r#"
        <html>
        <body>
        <article class="thumbnail-preview">
            <a id="p12345" href="/post/12345">
                <img title="Test" src="https://img2.gelbooru.com/thumbnails/123/thumbnail.jpg">
            </a>
        </article>
        </body>
        </html>
    "#;

    let scraper = GelbooruScraper::new();
    let (posts, _, _) = scraper.parse_page(html);

    assert!(posts[0].thumbnail.is_some());
    assert_eq!(
        posts[0].thumbnail.as_ref().unwrap(),
        "https://img2.gelbooru.com/thumbnails/123/thumbnail.jpg"
    );
}

#[test]
fn test_fix_image_url_protocol_relative() {
    let scraper = GelbooruScraper::new();
    assert_eq!(
        scraper.fix_image_url("//example.com/image.jpg"),
        "https://example.com/image.jpg"
    );
}

#[test]
fn test_fix_image_url_root_relative() {
    let scraper = GelbooruScraper::new();
    assert_eq!(
        scraper.fix_image_url("/images/sample.png"),
        "https://img2.gelbooru.com/images/sample.png"
    );
}

#[test]
fn test_fix_image_url_already_absolute() {
    let scraper = GelbooruScraper::new();
    assert_eq!(
        scraper.fix_image_url("https://img2.gelbooru.com/images/abc.jpg"),
        "https://img2.gelbooru.com/images/abc.jpg"
    );
}

#[test]
fn test_fix_image_url_empty_string() {
    let scraper = GelbooruScraper::new();
    assert_eq!(scraper.fix_image_url(""), "");
}

#[test]
fn test_fix_image_url_removes_double_slashes() {
    let scraper = GelbooruScraper::new();
    assert_eq!(
        scraper.fix_image_url("https://example.com//images//test.jpg"),
        "https://example.com/images/test.jpg"
    );
}

#[test]
fn test_fix_image_url_preserves_https() {
    let scraper = GelbooruScraper::new();
    assert_eq!(
        scraper.fix_image_url("https://img2.gelbooru.com/samples/abc.jpg"),
        "https://img2.gelbooru.com/samples/abc.jpg"
    );
}

#[test]
fn test_build_search_url() {
    let scraper = GelbooruScraper::new();
    let tags = vec!["saber".to_string(), "blue_eyes".to_string()];
    let url = scraper.build_search_url(&tags, 1);

    assert!(url.contains("tags=saber+blue_eyes"));
    assert!(url.contains("pid=0"));
    assert!(url.contains("highres")); // included tag
    assert!(url.contains("-video")); // excluded tag
    assert!(url.contains("https://gelbooru.com"));
}

#[test]
fn test_build_search_url_pagination() {
    let scraper = GelbooruScraper::new();
    let tags = vec!["tag".to_string()];
    let url = scraper.build_search_url(&tags, 3);

    // page 3 -> pid = (3-1) * 42 = 84
    assert!(url.contains("pid=84"));
}

#[test]
fn test_build_search_url_page_one() {
    let scraper = GelbooruScraper::new();
    let tags = vec!["1girl".to_string()];
    let url = scraper.build_search_url(&tags, 1);

    // page 1 -> pid = 0
    assert!(url.contains("pid=0"));
}

#[test]
fn test_build_search_url_empty_tags() {
    let scraper = GelbooruScraper::new();
    let tags: Vec<String> = vec![];
    let url = scraper.build_search_url(&tags, 1);

    assert!(url.contains("tags="));
    assert!(url.contains("highres"));
    assert!(url.contains("-video"));
}

#[test]
fn test_build_post_url() {
    let scraper = GelbooruScraper::new();
    let url = scraper.build_post_url(12345);
    assert_eq!(
        url,
        "https://gelbooru.com/index.php?page=post&s=view&id=12345"
    );
}

#[test]
fn test_build_post_url_zero() {
    let scraper = GelbooruScraper::new();
    let url = scraper.build_post_url(0);
    assert_eq!(url, "https://gelbooru.com/index.php?page=post&s=view&id=0");
}

#[test]
fn test_build_post_url_large_id() {
    let scraper = GelbooruScraper::new();
    let url = scraper.build_post_url(99999999);
    assert_eq!(
        url,
        "https://gelbooru.com/index.php?page=post&s=view&id=99999999"
    );
}

#[test]
fn test_new_and_default() {
    let scraper = GelbooruScraper::new();
    let default = GelbooruScraper::default();
    // Both should work identically
    let html = "<html><body></body></html>";
    let (posts1, _, _) = scraper.parse_page(html);
    let (posts2, _, _) = default.parse_page(html);
    assert_eq!(posts1.len(), posts2.len());
}

#[test]
fn test_parse_page_extracts_tag_counts() {
    let html = r#"
        <html>
        <body>
        <ul id="tag-list">
            <li class="tag-type-general">
                <a>1girl</a>
                <span style="color: #a0a0a0;">50000</span>
            </li>
            <li class="tag-type-meta">
                <a>absres</a>
                <span style="color: #a0a0a0;">25000</span>
            </li>
        </ul>
        </body>
        </html>
    "#;

    let scraper = GelbooruScraper::new();
    let (_, tags, _) = scraper.parse_page(html);

    assert_eq!(tags.len(), 2);
    // Find the 1girl tag and verify its count
    let general_tag = tags.iter().find(|t| t.text == "1girl").unwrap();
    assert_eq!(general_tag.count, 50000);
}

#[test]
fn parse_page_reads_pages_from_pid_links() {
    let html = r#"
        <html><body>
        <div id="paginator">
            <a href="index.php?page=post&s=list&tags=x&pid=42">2</a>
            <a href="index.php?page=post&s=list&tags=x&pid=84">3</a>
            <a href="index.php?page=post&s=list&tags=x&pid=420">11</a>
        </div>
        </body></html>
    "#;
    let scraper = GelbooruScraper::new();
    let (_, _, pages) = scraper.parse_page(html);
    // pid 420 -> page 420 / 42 + 1 = 11
    assert_eq!(pages, 11);
}

#[test]
fn parse_page_next_link_counts_one_more_page() {
    let html = r#"
        <html><body>
        <a href="index.php?page=post&s=list&tags=x&pid=84"> Next </a>
        </body></html>
    "#;
    let scraper = GelbooruScraper::new();
    let (_, _, pages) = scraper.parse_page(html);
    // an ordinary link gives 84 / 42 + 1 = 3, a "next" link 84 / 42 + 2 = 4
    assert_eq!(pages, 4);
}

#[test]
fn parse_page_ignores_links_without_numeric_pid() {
    let html = r#"<html><body><a href="index.php?pid=abc">x</a><a href="other">y</a></body></html>"#;
    let scraper = GelbooruScraper::new();
    let (_, _, pages) = scraper.parse_page(html);
    assert_eq!(pages, 1);
}

#[test]
fn parse_page_skips_links_without_numeric_id() {
    let html = r#"
        <article class="thumbnail-preview">
            <a id="x1" href="/post/1"><img title="a" src="t.jpg"></a>
            <a id="pp77" href="/post/77"><img title="b" src="u.jpg"></a>
        </article>
    "#;
    let scraper = GelbooruScraper::new();
    let (posts, _, _) = scraper.parse_page(html);
    assert_eq!(posts.len(), 1);
    assert_eq!(posts[0].id, 77);
    assert_eq!(posts[0].title, "b");
    // the thumbnail is the article's first image
    assert_eq!(posts[0].thumbnail.as_deref(), Some("t.jpg"));
}

#[test]
fn parse_page_tag_skips_control_links_and_unstyled_spans() {
    let html = r#"
        <ul id="tag-list">
            <li class="tag-type-general">
                <a>?</a> <a> + </a> <a>-</a>
                <a> long_hair </a>
                <span>999</span>
                <span style="color: #a0a0a0;"> 1234 </span>
            </li>
            <li class="sidebar">
                <a>not_a_tag</a>
            </li>
            <li class="tag-type-meta">
                <a>?</a>
            </li>
        </ul>
    "#;
    let scraper = GelbooruScraper::new();
    let (_, tags, _) = scraper.parse_page(html);
    assert_eq!(tags.len(), 1);
    assert_eq!(tags[0].text, "long_hair");
    assert_eq!(tags[0].tag_type, "general");
    assert_eq!(tags[0].count, 1234);
}

#[test]
fn parse_page_tag_without_count_has_zero() {
    let html = r#"<ul id="tag-list"><li class="tag-type-artist"><a>someone</a></li></ul>"#;
    let scraper = GelbooruScraper::new();
    let (_, tags, _) = scraper.parse_page(html);
    assert_eq!(tags.len(), 1);
    assert_eq!(tags[0].count, 0);
}

#[test]
fn parse_post_reads_statistics() {
    let html = r#"
        <html><head>
        <meta property="og:image" content="https://img2.gelbooru.com//images/ab/cd/full.jpg">
        </head><body>
        <img id="image" src="//img2.gelbooru.com/samples/ab/cd/sample.jpg">
        <ul id="tag-list">
            <li class="tag-type-character"><a>saber</a><span style="color: #a0a0a0;">500</span></li>
            <li>Size: 1920x1080 </li>
            <li>Rating: Safe</li>
            <li>Posted: 2024-01-15 10:00:00 Uploader: someone</li>
            <li>Source: <a href="https://example.com/src">link</a></li>
            <li>Score: <span>42</span></li>
        </ul>
        </body></html>
    "#;
    let scraper = GelbooruScraper::new();
    let (tags, stats) = scraper.parse_post(html).unwrap();
    assert_eq!(tags.len(), 1);
    assert_eq!(tags[0].text, "saber");
    assert_eq!(stats.size, "1920x1080");
    assert_eq!(stats.rating, "Safe");
    assert_eq!(stats.posted, "2024-01-15 10:00:00");
    assert_eq!(stats.source, "https://example.com/src");
    assert_eq!(stats.score, 42);
    assert_eq!(stats.sample, "https://img2.gelbooru.com/samples/ab/cd/sample.jpg");
    assert_eq!(stats.image, "https://img2.gelbooru.com/images/ab/cd/full.jpg");
}

#[test]
fn parse_post_original_image_link_and_negative_score() {
    let html = r#"
        <ul id="tag-list">
            <li>Original image <a href="/images/x/y/z.png">here</a></li>
            <li>Score: <span> -3 </span></li>
        </ul>
    "#;
    let scraper = GelbooruScraper::new();
    let (_, stats) = scraper.parse_post(html).unwrap();
    assert_eq!(stats.image, "https://img2.gelbooru.com/images/x/y/z.png");
    assert_eq!(stats.score, -3);
    assert_eq!(stats.sample, "");
}

#[test]
fn parse_post_image_falls_back_to_sample() {
    let html = r#"<div class="image-container"><img src="/samples/s.jpg"></div>"#;
    let scraper = GelbooruScraper::new();
    let (tags, stats) = scraper.parse_post(html).unwrap();
    assert!(tags.is_empty());
    assert_eq!(stats.sample, "https://img2.gelbooru.com/samples/s.jpg");
    assert_eq!(stats.image, stats.sample);
}

#[test]
fn build_search_url_exact_value() {
    let scraper = GelbooruScraper::new();
    let tags = vec!["rating:safe".to_string(), "long hair".to_string()];
    let url = scraper.build_search_url(&tags, 2);
    assert_eq!(
        url,
        "https://gelbooru.com/index.php?page=post&s=list&tags=rating%3Asafe+long+hair+highres+-video+-animated&pid=42"
    );
}

#[test]
fn build_search_url_page_zero_is_first_page() {
    let scraper = GelbooruScraper::new();
    let url = scraper.build_search_url(&["a".to_string()], 0);
    assert!(url.ends_with("&pid=0"));
}

#[test]
fn build_search_url_encodes_non_ascii_as_utf8() {
    let scraper = GelbooruScraper::new();
    let url = scraper.build_search_url(&["é".to_string()], 1);
    assert!(url.contains("tags=%C3%A9+highres"));
}

#[test]
fn fix_image_url_collapses_only_after_scheme() {
    let scraper = GelbooruScraper::new();
    assert_eq!(scraper.fix_image_url("//a.com///b"), "https://a.com//b");
    assert_eq!(scraper.fix_image_url("no-scheme//x"), "no-scheme//x");
}

#[test]
fn post_page_statistics_are_always_read() {
    let scraper = GelbooruScraper::new();
    assert!(scraper.parse_post("").is_some());
    assert!(scraper.parse_post_statistics("<html><body>nothing here</body></html>").is_some());
}
