use gelbooru::html::{descendants_named_exec, element_attr_exec, element_end_exec, element_text_exec, HtmlToken};
use gelbooru::scraping::{posts_from_articles, statistics_from, tags_from_lists, total_pages_from};

fn open(name: &str, attrs: &[(&str, &str)]) -> HtmlToken {
    HtmlToken::Open(
        name.to_string(),
        attrs.iter().map(|(k, v)| (String::new(), k.to_string(), v.to_string())).collect(),
    )
}

fn text(t: &str) -> Vec<HtmlToken> {
    vec![HtmlToken::Text(t.to_string()), HtmlToken::Close]
}

/// `<a href=..>` with `inner` inside.
fn element(name: &str, attrs: &[(&str, &str)], inner: Vec<HtmlToken>) -> Vec<HtmlToken> {
    let mut v = vec![open(name, attrs)];
    v.extend(inner);
    v.push(HtmlToken::Close);
    v
}

#[test]
fn navigation_in_token_streams() {
    // <div id="d"><a>x</a>y<a href="h">z</a></div>
    let mut inner = element("a", &[], text("x"));
    inner.extend(text("y"));
    inner.extend(element("a", &[("href", "h")], text("z")));
    let ts = element("div", &[("id", "d")], inner);
    assert_eq!(element_end_exec(&ts, 0), ts.len() - 1);
    assert_eq!(element_end_exec(&ts, 1), 4);
    let text_chars: String = element_text_exec(&ts, 0).into_iter().collect();
    assert_eq!(text_chars, "xyz");
    let links = descendants_named_exec(&ts, 0, "a");
    assert_eq!(links, vec![1, 7]);
    let href: Option<String> = element_attr_exec(&ts, 7, "href").map(|v| v.into_iter().collect());
    assert_eq!(href.as_deref(), Some("h"));
    assert!(element_attr_exec(&ts, 1, "href").is_none());
    let id: Option<String> = element_attr_exec(&ts, 0, "id").map(|v| v.into_iter().collect());
    assert_eq!(id.as_deref(), Some("d"));
}

#[test]
fn attributes_in_a_namespace_are_not_plain_attributes() {
    let ts = vec![
        HtmlToken::Open("a".to_string(), vec![("xlink".to_string(), "href".to_string(), "x".to_string())]),
        HtmlToken::Close,
    ];
    assert!(element_attr_exec(&ts, 0, "href").is_none());
}

#[test]
fn posts_from_token_streams() {
    let img = element("img", &[("title", "T"), ("src", "s.jpg")], vec![]);
    let link = element("a", &[("id", "p42"), ("href", "/p/42")], img);
    let article = element("article", &[("class", "thumbnail-preview")], link);
    let posts = posts_from_articles(&vec![article, vec![]]);
    assert_eq!(posts.len(), 1);
    assert_eq!(posts[0].id, 42);
    assert_eq!(posts[0].url, "/p/42");
    assert_eq!(posts[0].title, "T");
    assert_eq!(posts[0].thumbnail.as_deref(), Some("s.jpg"));
}

#[test]
fn tags_and_pages_from_token_streams() {
    let mut inner = element("a", &[], text(" cat "));
    inner.extend(element("span", &[("style", "color: #a0a0a0;")], text("7")));
    let li = element("li", &[("class", "tag-type-general")], inner);
    let ul = element("ul", &[("id", "tag-list")], li);
    let tags = tags_from_lists(&vec![ul]);
    assert_eq!(tags.len(), 1);
    assert_eq!(tags[0].text, "cat");
    assert_eq!(tags[0].count, 7);

    let anchor = element("a", &[("href", "x?pid=126&tags=y")], text("4"));
    let next = element("a", &[("href", "x?pid=126")], text(" > "));
    assert_eq!(total_pages_from(&vec![anchor.clone()], &vec![]), 4);
    assert_eq!(total_pages_from(&vec![anchor, next], &vec![]), 5);
    assert_eq!(total_pages_from(&vec![], &vec![]), 1);
}

#[test]
fn statistics_from_token_streams() {
    let sample = element("img", &[("src", "/s/a.jpg")], vec![]);
    let meta = element("meta", &[("property", "og:image"), ("content", "")], vec![]);
    let li = element("li", &[], text("Rating: Explicit"));
    let ul = element("ul", &[("id", "tag-list")], li);
    let st = statistics_from(&vec![sample], &vec![meta], &vec![ul]);
    assert_eq!(st.rating, "Explicit");
    assert_eq!(st.sample, "https://img2.gelbooru.com/s/a.jpg");
    assert_eq!(st.image, st.sample);
}
