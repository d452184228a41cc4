use gelbooru::scraping::GelbooruScraper;
use gelbooru::search::{choose_proxy, cookie_for_jar, post_detail, remote_image_data_url, search_result, wait_before_request, RateLimiter};

#[test]
fn search_result_holds_posts_and_tags() {
    let html = r#"<article class="thumbnail-preview"><a id="p5" href="/p/5"><img title="t" src="s"></a></article>
        <ul id="tag-list"><li class="tag-type-general"><a>x</a></li></ul>"#;
    let r = search_result(&GelbooruScraper::new(), html);
    assert_eq!(r.post_list.len(), 1);
    assert_eq!(r.tag_list.len(), 1);
}

#[test]
fn post_detail_assembles_post() {
    let html = r#"<ul id="tag-list"><li>Rating: Safe</li></ul>"#;
    let p = post_detail(&GelbooruScraper::new(), 12, html).unwrap();
    assert_eq!(p.id, 12);
    assert_eq!(p.url, "https://gelbooru.com/index.php?page=post&s=view&id=12");
    assert_eq!(p.title, "");
    assert_eq!(p.statistics.rating, "Safe");
    assert!(p.thumbnail.is_none());
}

#[test]
fn remote_image_is_typed_by_url() {
    assert_eq!(remote_image_data_url("https://x/a.webp", &vec![1, 2, 3]), "data:image/webp;base64,AQID");
}

#[test]
fn rate_limit_waits_out_the_gap() {
    assert_eq!(wait_before_request(0), 500_000_000);
    assert_eq!(wait_before_request(200_000_000), 300_000_000);
    assert_eq!(wait_before_request(600_000_000), 0);
}

#[test]
fn cookies_for_the_jar() {
    let (text, url) = cookie_for_jar("sid", "abc", "..gelbooru.com");
    assert_eq!(text, "sid=abc");
    assert_eq!(url, "https://gelbooru.com");
}

#[test]
fn proxy_only_when_it_parses() {
    assert_eq!(choose_proxy(Some("http://127.0.0.1:7897".to_string())).as_deref(), Some("http://127.0.0.1:7897"));
    assert_eq!(choose_proxy(Some(String::new())), None);
    assert_eq!(choose_proxy(Some("not a url".to_string())), None);
    assert_eq!(choose_proxy(None), None);
}

#[test]
fn rate_limiter_keeps_requests_apart() {
    let mut limiter = RateLimiter::new(0);
    assert_eq!(limiter.begin(100_000_000), 400_000_000);
    assert_eq!(limiter.last_request(), 500_000_000);
    // arriving while the first still waits: queued a full gap behind it
    assert_eq!(limiter.begin(200_000_000), 800_000_000);
    assert_eq!(limiter.last_request(), 1_000_000_000);
    // long after: no wait at all
    assert_eq!(limiter.begin(2_000_000_000), 0);
    assert_eq!(limiter.last_request(), 2_000_000_000);
}
