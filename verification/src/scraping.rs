//! Reading Gelbooru result and post pages, and building their URLs.
//!
//! A page is parsed by `scraper`; each query below selects the elements it
//! needs with [`select_elements`] and interprets their token streams. The
//! interpretation of a selection is a public function of its own with an
//! exact contract, so that it can be checked on any token stream.
use vstd::prelude::*;
use vstd::utf8::encode_utf8;
use crate::html::{
    descendants_named, descendants_named_exec, element_attr, element_attr_exec, element_text,
    element_text_exec, positions, select_elements, selected_elements, tokens_view, HtmlToken,
    TokenView,
};
use crate::models::{
    empty_stats, posts_view, tags_view, GelbooruPost, GelbooruPostStatistics, GelbooruTag,
    PostView, StatsView, TagView,
};
use crate::text::{
    decimal, decimal_u64, push_all,
    parse_i32, parse_i32_spec,
    concat, find, lemma_find_from_occurs, occurs_at, replace_all, replace_all_exec, slice_chars,
    before_first, before_first_exec, contains, find_exec, lowercase, second_piece,
    second_piece_exec, to_lowercase, chars_eq, chars_of, starts_with, parse_u32, parse_u32_spec, string_of, trim, trim_chars, trim_start_matches,
    trim_start_matches_exec,
};

verus! {

/// Reads Gelbooru pages and builds Gelbooru URLs.
pub struct GelbooruScraper;

impl GelbooruScraper {
    /// A scraper.
    pub fn new() -> (res: Self) {
        GelbooruScraper
    }
}

impl Default for GelbooruScraper {
    /// The same as [`GelbooruScraper::new`].
    fn default() -> (res: Self) {
        GelbooruScraper::new()
    }
}

/// Number of posts on one result page; the `pid` query parameter counts posts.
pub const PAGE_SIZE: u32 = 42;

// ---------------------------------------------------------------------------
// Shared helpers
// ---------------------------------------------------------------------------

/// The first position of a list, if any.
pub open spec fn first_pos(s: Seq<int>) -> Option<int> {
    if s.len() > 0 {
        Some(s[0])
    } else {
        None
    }
}

/// The first descendant of the element at `i` named `name`
/// (`ElementRef::select(..).next()` with a type selector).
pub open spec fn first_descendant(ts: Seq<TokenView>, i: int, name: Seq<char>) -> Option<int> {
    first_pos(descendants_named(ts, i, name))
}

/// The attribute `name` of the element at `pos`, when there is one.
pub open spec fn attr_at(ts: Seq<TokenView>, pos: Option<int>, name: Seq<char>) -> Option<
    Seq<char>,
> {
    match pos {
        Some(p) => element_attr(ts, p, name),
        None => None,
    }
}

/// `unwrap_or("")`.
pub open spec fn or_empty(o: Option<Seq<char>>) -> Seq<char> {
    match o {
        Some(v) => v,
        None => Seq::empty(),
    }
}

/// The first descendant of the element at `i` named `name`, executable.
fn first_descendant_exec(ts: &Vec<HtmlToken>, i: usize, name: &str) -> (res: Option<usize>)
    requires
        i < ts.len(),
    ensures
        match res {
            Some(p) => first_descendant(tokens_view(ts@), i as int, name@) == Some(p as int) && p
                < ts.len(),
            None => first_descendant(tokens_view(ts@), i as int, name@) is None,
        },
{
    let found = descendants_named_exec(ts, i, name);
    if found.len() > 0 {
        assert(positions(found@)[0] == found@[0] as int);
        Some(found[0])
    } else {
        None
    }
}

/// The attribute `name` of the element at `pos`, executable.
fn attr_at_exec(ts: &Vec<HtmlToken>, pos: Option<usize>, name: &str) -> (res: Option<Vec<char>>)
    requires
        pos matches Some(p) ==> p < ts.len(),
    ensures
        match res {
            Some(v) => attr_at(
                tokens_view(ts@),
                match pos {
                    Some(p) => Some(p as int),
                    None => None,
                },
                name@,
            ) == Some(v@),
            None => attr_at(
                tokens_view(ts@),
                match pos {
                    Some(p) => Some(p as int),
                    None => None,
                },
                name@,
            ) is None,
        },
{
    match pos {
        Some(p) => element_attr_exec(ts, p, name),
        None => None,
    }
}

/// `unwrap_or("")` on characters.
fn or_empty_exec(o: Option<Vec<char>>) -> (res: Vec<char>)
    ensures
        res@ == or_empty(
            match o {
                Some(v) => Some(v@),
                None => None,
            },
        ),
{
    match o {
        Some(v) => v,
        None => Vec::new(),
    }
}

// ---------------------------------------------------------------------------
// Post list
// ---------------------------------------------------------------------------

/// The post id of a link: its `id` attribute without leading `p`s, as a `u32`.
pub open spec fn link_id(ts: Seq<TokenView>, l: int) -> Option<u32> {
    match element_attr(ts, l, "id"@) {
        Some(v) => parse_u32_spec(trim_start_matches(v, "p"@)),
        None => None,
    }
}

/// The post read from the link at `l` inside the article whose tokens are
/// `ts`: the link's id, its `href`, the `title` of its first image, and the
/// `src` of the article's first image as the thumbnail. Links without a
/// numeric id give no post.
pub open spec fn link_post(ts: Seq<TokenView>, l: int) -> Option<PostView> {
    match link_id(ts, l) {
        Some(id) => Some(
            PostView {
                id,
                url: or_empty(element_attr(ts, l, "href"@)),
                title: or_empty(attr_at(ts, first_descendant(ts, l, "img"@), "title"@)),
                tag_list: Seq::empty(),
                statistics: empty_stats(),
                thumbnail: attr_at(ts, first_descendant(ts, 0, "img"@), "src"@),
            },
        ),
        None => None,
    }
}

/// The posts of the links at `links`, in order.
pub open spec fn posts_from_links(ts: Seq<TokenView>, links: Seq<int>) -> Seq<PostView>
    decreases links.len(),
{
    if links.len() == 0 {
        Seq::empty()
    } else {
        posts_from_links(ts, links.drop_last()) + match link_post(ts, links.last()) {
            Some(p) => seq![p],
            None => Seq::empty(),
        }
    }
}

/// The posts of one `article.thumbnail-preview` element: one per link inside
/// it that has a numeric id.
pub open spec fn article_posts(ts: Seq<TokenView>) -> Seq<PostView> {
    posts_from_links(ts, descendants_named(ts, 0, "a"@))
}

/// The posts of the selected articles, in document order.
pub open spec fn post_list(articles: Seq<Seq<TokenView>>) -> Seq<PostView>
    decreases articles.len(),
{
    if articles.len() == 0 {
        Seq::empty()
    } else {
        post_list(articles.drop_last()) + article_posts(articles.last())
    }
}

/// The view of an optional `Vec<char>`.
pub open spec fn opt_chars(o: Option<Vec<char>>) -> Option<Seq<char>> {
    match o {
        Some(v) => Some(v@),
        None => None,
    }
}

/// The post read from the link at `l` of an article.
fn link_post_exec(ts: &Vec<HtmlToken>, l: usize) -> (res: Option<GelbooruPost>)
    requires
        0 < l < ts.len(),
    ensures
        match res {
            Some(p) => link_post(tokens_view(ts@), l as int) == Some(p@),
            None => link_post(tokens_view(ts@), l as int) is None,
        },
{
    let ghost tv = tokens_view(ts@);
    let id_attr = element_attr_exec(ts, l, "id");
    let id = match id_attr {
        Some(v) => {
            let p: Vec<char> = vec!['p'];
            assert(p@ =~= "p"@) by {
                reveal_strlit("p");
            }
            let digits = trim_start_matches_exec(&v, &p);
            parse_u32(&digits)
        },
        None => None,
    };
    assert(id == link_id(tv, l as int));
    match id {
        Some(id) => {
            let url = or_empty_exec(element_attr_exec(ts, l, "href"));
            let img = first_descendant_exec(ts, l, "img");
            let title = or_empty_exec(attr_at_exec(ts, img, "title"));
            let thumb_img = first_descendant_exec(ts, 0, "img");
            let thumbnail = attr_at_exec(ts, thumb_img, "src");
            let mut post = GelbooruPost::new(id, string_of(&url), string_of(&title));
            post.thumbnail = match thumbnail {
                Some(t) => Some(string_of(&t)),
                None => None,
            };
            assert(post@.tag_list =~= Seq::<TagView>::empty());
            Some(post)
        },
        None => None,
    }
}

/// Appends the posts of one article whose tokens are `ts` to `res`.
fn push_article_posts(ts: &Vec<HtmlToken>, res: &mut Vec<GelbooruPost>)
    ensures
        posts_view(final(res)@) == posts_view(old(res)@) + article_posts(tokens_view(ts@)),
{
    let ghost tv = tokens_view(ts@);
    let ghost start = posts_view(res@);
    if ts.len() == 0 {
        assert(descendants_named(tv, 0, "a"@) =~= Seq::<int>::empty());
        assert(posts_view(res@) =~= start + Seq::<PostView>::empty());
        return;
    }
    let links = descendants_named_exec(ts, 0, "a");
    let ghost lv = positions(links@);
    let mut j: usize = 0;
    while j < links.len()
        invariant
            0 < ts.len(),
            tv == tokens_view(ts@),
            j <= links.len(),
            lv == positions(links@),
            lv == descendants_named(tv, 0, "a"@),
            forall|k: int| 0 <= k < links@.len() ==> 0 < #[trigger] links@[k] < ts.len(),
            posts_view(res@) == start + posts_from_links(tv, lv.take(j as int)),
        decreases links.len() - j,
    {
        let l = links[j];
        assert(lv.take(j + 1).drop_last() =~= lv.take(j as int));
        assert(lv.take(j + 1).last() == l as int);
        let ghost before = res@;
        match link_post_exec(ts, l) {
            Some(p) => {
                res.push(p);
                assert(posts_view(res@) =~= posts_view(before) + seq![p@]);
            },
            None => {
                assert(posts_view(res@) =~= posts_view(before) + Seq::<PostView>::empty());
            },
        }
        j += 1;
    }
    assert(lv.take(j as int) =~= lv);
}

/// The posts of the selected `article.thumbnail-preview` elements, in order:
/// for each article, one post per link inside it that has a numeric id.
pub fn posts_from_articles(articles: &Vec<Vec<HtmlToken>>) -> (res: Vec<GelbooruPost>)
    ensures
        posts_view(res@) == post_list(articles@.map_values(|a: Vec<HtmlToken>| tokens_view(a@))),
{
    let ghost av = articles@.map_values(|a: Vec<HtmlToken>| tokens_view(a@));
    let mut res: Vec<GelbooruPost> = Vec::new();
    let mut j: usize = 0;
    while j < articles.len()
        invariant
            j <= articles.len(),
            av == articles@.map_values(|a: Vec<HtmlToken>| tokens_view(a@)),
            posts_view(res@) == post_list(av.take(j as int)),
        decreases articles.len() - j,
    {
        push_article_posts(&articles[j], &mut res);
        assert(av.take(j + 1).drop_last() =~= av.take(j as int));
        assert(av.take(j + 1).last() == tokens_view(articles@[j as int]@));
        j += 1;
    }
    assert(av.take(j as int) =~= av);
    res
}

// ---------------------------------------------------------------------------
// Tag list
// ---------------------------------------------------------------------------

/// A link text that names a tag: not one of the `?`, `+` and `-` controls, and
/// not empty.
pub open spec fn is_tag_text(t: Seq<char>) -> bool {
    t != "?"@ && t != "+"@ && t != "-"@ && t.len() > 0
}

/// The trimmed text of the first link among `links` whose trimmed text names
/// a tag.
pub open spec fn first_tag_text(ts: Seq<TokenView>, links: Seq<int>) -> Option<Seq<char>>
    decreases links.len(),
{
    if links.len() == 0 {
        None
    } else {
        match first_tag_text(ts, links.drop_last()) {
            Some(t) => Some(t),
            None => {
                let t = trim(element_text(ts, links.last()));
                if is_tag_text(t) {
                    Some(t)
                } else {
                    None
                }
            },
        }
    }
}

/// The post count shown by the span at `sp`: only a span styled
/// `color: #a0a0a0;` whose trimmed text is a `u32` gives one.
pub open spec fn span_count(ts: Seq<TokenView>, sp: int) -> Option<u32> {
    if element_attr(ts, sp, "style"@) == Some("color: #a0a0a0;"@) {
        parse_u32_spec(trim(element_text(ts, sp)))
    } else {
        None
    }
}

/// The count of the first span among `spans` that gives one.
pub open spec fn first_count(ts: Seq<TokenView>, spans: Seq<int>) -> Option<u32>
    decreases spans.len(),
{
    if spans.len() == 0 {
        None
    } else {
        match first_count(ts, spans.drop_last()) {
            Some(c) => Some(c),
            None => span_count(ts, spans.last()),
        }
    }
}

/// The tag of the list item at `li`: items whose class starts with
/// `tag-type-` give a tag whose type is the rest of the class, whose text is
/// the first link text naming a tag (no such link: no tag), and whose count
/// is the first count shown by a span, 0 when none is.
pub open spec fn item_tag(ts: Seq<TokenView>, li: int) -> Option<TagView> {
    let class = or_empty(element_attr(ts, li, "class"@));
    if "tag-type-"@.is_prefix_of(class) {
        match first_tag_text(ts, descendants_named(ts, li, "a"@)) {
            Some(text) => Some(
                TagView {
                    text,
                    tag_type: trim_start_matches(class, "tag-type-"@),
                    count: match first_count(ts, descendants_named(ts, li, "span"@)) {
                        Some(c) => c,
                        None => 0,
                    },
                },
            ),
            None => None,
        }
    } else {
        None
    }
}

/// The tags of the list items at `items`, in order.
pub open spec fn tags_from_items(ts: Seq<TokenView>, items: Seq<int>) -> Seq<TagView>
    decreases items.len(),
{
    if items.len() == 0 {
        Seq::empty()
    } else {
        tags_from_items(ts, items.drop_last()) + match item_tag(ts, items.last()) {
            Some(t) => seq![t],
            None => Seq::empty(),
        }
    }
}

/// The tags of one `ul#tag-list` element: one per list item inside it that
/// gives a tag.
pub open spec fn list_tags(ts: Seq<TokenView>) -> Seq<TagView> {
    tags_from_items(ts, descendants_named(ts, 0, "li"@))
}

/// The tags of the selected tag lists, in document order.
pub open spec fn tag_list(lists: Seq<Seq<TokenView>>) -> Seq<TagView>
    decreases lists.len(),
{
    if lists.len() == 0 {
        Seq::empty()
    } else {
        tag_list(lists.drop_last()) + list_tags(lists.last())
    }
}

/// Whether `t` names a tag.
fn is_tag_text_exec(t: &Vec<char>) -> (res: bool)
    ensures
        res == is_tag_text(t@),
{
    proof {
        reveal_strlit("?");
        reveal_strlit("+");
        reveal_strlit("-");
    }
    if t.len() == 0 {
        return false;
    }
    if t.len() == 1 && (t[0] == '?' || t[0] == '+' || t[0] == '-') {
        assert(t@ =~= seq![t@[0]]);
        assert("?"@ =~= seq!['?'] && "+"@ =~= seq!['+'] && "-"@ =~= seq!['-']);
        return false;
    }
    assert(t@.len() == 1 ==> t@ =~= seq![t@[0]]);
    true
}

/// The first link text naming a tag among the links at `links`.
fn first_tag_text_exec(ts: &Vec<HtmlToken>, links: &Vec<usize>) -> (res: Option<Vec<char>>)
    requires
        forall|k: int| 0 <= k < links@.len() ==> #[trigger] links@[k] < ts.len(),
    ensures
        opt_chars(res) == first_tag_text(tokens_view(ts@), positions(links@)),
{
    let ghost tv = tokens_view(ts@);
    let ghost lv = positions(links@);
    let mut res: Option<Vec<char>> = None;
    let mut j: usize = 0;
    while j < links.len()
        invariant
            j <= links.len(),
            tv == tokens_view(ts@),
            lv == positions(links@),
            forall|k: int| 0 <= k < links@.len() ==> #[trigger] links@[k] < ts.len(),
            opt_chars(res) == first_tag_text(tv, lv.take(j as int)),
        decreases links.len() - j,
    {
        assert(lv.take(j + 1).drop_last() =~= lv.take(j as int));
        assert(lv.take(j + 1).last() == links@[j as int] as int);
        if res.is_none() {
            let text = element_text_exec(ts, links[j]);
            let t = trim_chars(&text);
            if is_tag_text_exec(&t) {
                res = Some(t);
            }
        }
        j += 1;
    }
    assert(lv.take(j as int) =~= lv);
    res
}

/// The count of the first span among `spans` that shows one.
fn first_count_exec(ts: &Vec<HtmlToken>, spans: &Vec<usize>) -> (res: Option<u32>)
    requires
        forall|k: int| 0 <= k < spans@.len() ==> #[trigger] spans@[k] < ts.len(),
    ensures
        res == first_count(tokens_view(ts@), positions(spans@)),
{
    let ghost tv = tokens_view(ts@);
    let ghost sv = positions(spans@);
    let style = chars_of("color: #a0a0a0;");
    let mut res: Option<u32> = None;
    let mut j: usize = 0;
    while j < spans.len()
        invariant
            j <= spans.len(),
            tv == tokens_view(ts@),
            sv == positions(spans@),
            style@ == "color: #a0a0a0;"@,
            forall|k: int| 0 <= k < spans@.len() ==> #[trigger] spans@[k] < ts.len(),
            res == first_count(tv, sv.take(j as int)),
        decreases spans.len() - j,
    {
        assert(sv.take(j + 1).drop_last() =~= sv.take(j as int));
        assert(sv.take(j + 1).last() == spans@[j as int] as int);
        if res.is_none() {
            let sp = spans[j];
            match element_attr_exec(ts, sp, "style") {
                Some(v) => {
                    if chars_eq(&v, &style) {
                        let text = element_text_exec(ts, sp);
                        let t = trim_chars(&text);
                        res = parse_u32(&t);
                    }
                },
                None => {},
            }
        }
        j += 1;
    }
    assert(sv.take(j as int) =~= sv);
    res
}

/// The tag of the list item at `li`.
fn item_tag_exec(ts: &Vec<HtmlToken>, li: usize) -> (res: Option<GelbooruTag>)
    requires
        li < ts.len(),
    ensures
        match res {
            Some(t) => item_tag(tokens_view(ts@), li as int) == Some(t@),
            None => item_tag(tokens_view(ts@), li as int) is None,
        },
{
    let class = or_empty_exec(element_attr_exec(ts, li, "class"));
    let prefix = chars_of("tag-type-");
    if !starts_with(&class, &prefix) {
        return None;
    }
    let links = descendants_named_exec(ts, li, "a");
    match first_tag_text_exec(ts, &links) {
        Some(text) => {
            let tag_type = trim_start_matches_exec(&class, &prefix);
            let spans = descendants_named_exec(ts, li, "span");
            let count = match first_count_exec(ts, &spans) {
                Some(c) => c,
                None => 0,
            };
            Some(GelbooruTag::new(string_of(&text), string_of(&tag_type), count))
        },
        None => None,
    }
}

/// Appends the tags of one tag list whose tokens are `ts` to `res`.
fn push_list_tags(ts: &Vec<HtmlToken>, res: &mut Vec<GelbooruTag>)
    ensures
        tags_view(final(res)@) == tags_view(old(res)@) + list_tags(tokens_view(ts@)),
{
    let ghost tv = tokens_view(ts@);
    let ghost start = tags_view(res@);
    if ts.len() == 0 {
        assert(descendants_named(tv, 0, "li"@) =~= Seq::<int>::empty());
        assert(tags_view(res@) =~= start + Seq::<TagView>::empty());
        return;
    }
    let items = descendants_named_exec(ts, 0, "li");
    let ghost iv = positions(items@);
    let mut j: usize = 0;
    while j < items.len()
        invariant
            tv == tokens_view(ts@),
            j <= items.len(),
            iv == positions(items@),
            iv == descendants_named(tv, 0, "li"@),
            forall|k: int| 0 <= k < items@.len() ==> #[trigger] items@[k] < ts.len(),
            tags_view(res@) == start + tags_from_items(tv, iv.take(j as int)),
        decreases items.len() - j,
    {
        assert(iv.take(j + 1).drop_last() =~= iv.take(j as int));
        assert(iv.take(j + 1).last() == items@[j as int] as int);
        let ghost before = res@;
        match item_tag_exec(ts, items[j]) {
            Some(t) => {
                res.push(t);
                assert(tags_view(res@) =~= tags_view(before) + seq![t@]);
            },
            None => {
                assert(tags_view(res@) =~= tags_view(before) + Seq::<TagView>::empty());
            },
        }
        j += 1;
    }
    assert(iv.take(j as int) =~= iv);
}

/// The tags of the selected `ul#tag-list` elements, in order: for each list
/// item whose class starts with `tag-type-` and that has a link naming a tag,
/// that tag with its type and count.
pub fn tags_from_lists(lists: &Vec<Vec<HtmlToken>>) -> (res: Vec<GelbooruTag>)
    ensures
        tags_view(res@) == tag_list(lists@.map_values(|a: Vec<HtmlToken>| tokens_view(a@))),
{
    let ghost lv = lists@.map_values(|a: Vec<HtmlToken>| tokens_view(a@));
    let mut res: Vec<GelbooruTag> = Vec::new();
    let mut j: usize = 0;
    while j < lists.len()
        invariant
            j <= lists.len(),
            lv == lists@.map_values(|a: Vec<HtmlToken>| tokens_view(a@)),
            tags_view(res@) == tag_list(lv.take(j as int)),
        decreases lists.len() - j,
    {
        push_list_tags(&lists[j], &mut res);
        assert(lv.take(j + 1).drop_last() =~= lv.take(j as int));
        assert(lv.take(j + 1).last() == tokens_view(lists@[j as int]@));
        j += 1;
    }
    assert(lv.take(j as int) =~= lv);
    res
}

// ---------------------------------------------------------------------------
// Pagination
// ---------------------------------------------------------------------------

/// The `pid` a link points to: when `href` contains `pid=`, the `u32` between
/// the first `pid=` and the next `&`.
pub open spec fn href_pid(href: Seq<char>) -> Option<u32> {
    if contains(href, "pid="@) {
        match second_piece(href, "pid="@) {
            Some(p) => parse_u32_spec(before_first(p, "&"@)),
            None => None,
        }
    } else {
        None
    }
}

/// The page number that a link at `p` points to, `pid / 42 + 1`; 0 for a link
/// without a `pid`.
pub open spec fn link_page(ts: Seq<TokenView>, p: int) -> nat {
    match element_attr(ts, p, "href"@) {
        Some(h) => match href_pid(h) {
            Some(pid) => (pid / PAGE_SIZE + 1) as nat,
            None => 0,
        },
        None => 0,
    }
}

/// The texts of a link to the next page, once trimmed and lowercased.
pub open spec fn is_next_text(t: Seq<char>) -> bool {
    t == "next"@ || t == ">"@ || t == "\u{203a}"@ || t == "\u{2192}"@
}

/// For a link to the next page at `p`, the page after the one it points to,
/// `pid / 42 + 2`; 0 for any other link.
pub open spec fn next_link_page(ts: Seq<TokenView>, p: int) -> nat {
    match element_attr(ts, p, "href"@) {
        Some(h) => if is_next_text(lowercase(trim(element_text(ts, p)))) {
            match href_pid(h) {
                Some(pid) => (pid / PAGE_SIZE + 2) as nat,
                None => 0,
            }
        } else {
            0
        },
        None => 0,
    }
}

/// The larger of two numbers.
pub open spec fn max_nat(a: nat, b: nat) -> nat {
    if a < b {
        b
    } else {
        a
    }
}

/// The largest of `start` and `vals`.
pub open spec fn max_of(start: nat, vals: Seq<nat>) -> nat
    decreases vals.len(),
{
    if vals.len() == 0 {
        start
    } else {
        max_nat(max_of(start, vals.drop_last()), vals.last())
    }
}

/// The pages pointed to by the links at `links`.
pub open spec fn link_pages(ts: Seq<TokenView>, links: Seq<int>) -> Seq<nat> {
    links.map_values(|p: int| link_page(ts, p))
}

/// The pages pointed to by the links inside each pagination container.
pub open spec fn container_pages(containers: Seq<Seq<TokenView>>) -> Seq<nat>
    decreases containers.len(),
{
    if containers.len() == 0 {
        Seq::empty()
    } else {
        container_pages(containers.drop_last()) + link_pages(
            containers.last(),
            descendants_named(containers.last(), 0, "a"@),
        )
    }
}

/// The number of result pages: at least 1, and at least every page that a
/// link of the document (`anchors`) or of a pagination container points to,
/// and every page after the one a "next" link points to.
pub open spec fn total_pages(anchors: Seq<Seq<TokenView>>, containers: Seq<Seq<TokenView>>) -> nat {
    let by_links = max_of(1, anchors.map_values(|a: Seq<TokenView>| link_page(a, 0)));
    let by_containers = max_of(by_links, container_pages(containers));
    max_of(by_containers, anchors.map_values(|a: Seq<TokenView>| next_link_page(a, 0)))
}

/// The `pid` of a link's `href`.
fn href_pid_exec(href: &Vec<char>) -> (res: Option<u32>)
    ensures
        res == href_pid(href@),
{
    let key = chars_of("pid=");
    let amp = chars_of("&");
    match find_exec(href, &key) {
        Some(_) => match second_piece_exec(href, &key) {
            Some(piece) => {
                let digits = before_first_exec(&piece, &amp);
                parse_u32(&digits)
            },
            None => None,
        },
        None => None,
    }
}

/// The page that the link at `p` points to.
fn link_page_exec(ts: &Vec<HtmlToken>, p: usize) -> (res: u32)
    requires
        p < ts.len(),
    ensures
        res as nat == link_page(tokens_view(ts@), p as int),
        res <= 0xFFFF_FFFFu32 / 42 + 2,
{
    match element_attr_exec(ts, p, "href") {
        Some(h) => match href_pid_exec(&h) {
            Some(pid) => pid / PAGE_SIZE + 1,
            None => 0,
        },
        None => 0,
    }
}

/// Whether a trimmed, lowercased link text names the next page.
fn is_next_text_exec(t: &Vec<char>) -> (res: bool)
    ensures
        res == is_next_text(t@),
{
    chars_eq(t, &chars_of("next")) || chars_eq(t, &chars_of(">")) || chars_eq(
        t,
        &chars_of("\u{203a}"),
    ) || chars_eq(t, &chars_of("\u{2192}"))
}

/// The page after the one that a "next" link at `p` points to.
fn next_link_page_exec(ts: &Vec<HtmlToken>, p: usize) -> (res: u32)
    requires
        p < ts.len(),
    ensures
        res as nat == next_link_page(tokens_view(ts@), p as int),
        res <= 0xFFFF_FFFFu32 / 42 + 2,
{
    let text = element_text_exec(ts, p);
    let trimmed = string_of(&trim_chars(&text));
    let lower = to_lowercase(trimmed.as_str());
    let lower_chars = chars_of(lower.as_str());
    match element_attr_exec(ts, p, "href") {
        Some(h) => if is_next_text_exec(&lower_chars) {
            match href_pid_exec(&h) {
                Some(pid) => pid / PAGE_SIZE + 2,
                None => 0,
            }
        } else {
            0
        },
        None => 0,
    }
}

/// The number of result pages from the selected links of the document and
/// the selected pagination containers (see [`total_pages`]).
pub fn total_pages_from(anchors: &Vec<Vec<HtmlToken>>, containers: &Vec<Vec<HtmlToken>>) -> (res:
    u32)
    ensures
        res as nat == total_pages(
            anchors@.map_values(|a: Vec<HtmlToken>| tokens_view(a@)),
            containers@.map_values(|a: Vec<HtmlToken>| tokens_view(a@)),
        ),
{
    let ghost av = anchors@.map_values(|a: Vec<HtmlToken>| tokens_view(a@));
    let ghost cv = containers@.map_values(|a: Vec<HtmlToken>| tokens_view(a@));
    let ghost v1 = av.map_values(|a: Seq<TokenView>| link_page(a, 0));
    let ghost v3 = av.map_values(|a: Seq<TokenView>| next_link_page(a, 0));
    let mut max_page: u32 = 1;
    // Every link of the document that carries a `pid`.
    let mut j: usize = 0;
    while j < anchors.len()
        invariant
            j <= anchors.len(),
            av == anchors@.map_values(|a: Vec<HtmlToken>| tokens_view(a@)),
            v1 == av.map_values(|a: Seq<TokenView>| link_page(a, 0)),
            max_page as nat == max_of(1, v1.take(j as int)),
            max_page <= 0xFFFF_FFFFu32 / 42 + 2,
        decreases anchors.len() - j,
    {
        assert(v1.take(j + 1).drop_last() =~= v1.take(j as int));
        let a = &anchors[j];
        let page: u32 = if a.len() > 0 {
            link_page_exec(a, 0)
        } else {
            0
        };
        assert(page as nat == v1[j as int]);
        if page > max_page {
            max_page = page;
        }
        j += 1;
    }
    assert(v1.take(j as int) =~= v1);
    let ghost m1 = max_page as nat;
    // The links inside each pagination container.
    let mut c: usize = 0;
    while c < containers.len()
        invariant
            c <= containers.len(),
            cv == containers@.map_values(|a: Vec<HtmlToken>| tokens_view(a@)),
            max_page as nat == max_of(m1, container_pages(cv.take(c as int))),
            max_page <= 0xFFFF_FFFFu32 / 42 + 2,
        decreases containers.len() - c,
    {
        let ts = &containers[c];
        let ghost tv = tokens_view(ts@);
        assert(cv.take(c + 1).drop_last() =~= cv.take(c as int));
        assert(cv.take(c + 1).last() == tv);
        let ghost done = container_pages(cv.take(c as int));
        if ts.len() > 0 {
            let links = descendants_named_exec(ts, 0, "a");
            let ghost lp = link_pages(tv, positions(links@));
            let mut k: usize = 0;
            while k < links.len()
                invariant
                    k <= links.len(),
                    tv == tokens_view(ts@),
                    lp == link_pages(tv, positions(links@)),
                    forall|i: int| 0 <= i < links@.len() ==> #[trigger] links@[i] < ts.len(),
                    max_page as nat == max_of(m1, done + lp.take(k as int)),
                    max_page <= 0xFFFF_FFFFu32 / 42 + 2,
                decreases links.len() - k,
            {
                assert((done + lp.take(k + 1)).drop_last() =~= done + lp.take(k as int));
                let page = link_page_exec(ts, links[k]);
                assert(page as nat == lp[k as int]);
                if page > max_page {
                    max_page = page;
                }
                k += 1;
            }
            assert(lp.take(k as int) =~= lp);
            assert(container_pages(cv.take(c + 1)) == done + lp);
        } else {
            assert(descendants_named(tv, 0, "a"@) =~= Seq::<int>::empty());
            assert(container_pages(cv.take(c + 1)) =~= done);
        }
        c += 1;
    }
    assert(cv.take(c as int) =~= cv);
    let ghost m2 = max_page as nat;
    // Links to the next page.
    let mut j: usize = 0;
    while j < anchors.len()
        invariant
            j <= anchors.len(),
            av == anchors@.map_values(|a: Vec<HtmlToken>| tokens_view(a@)),
            v3 == av.map_values(|a: Seq<TokenView>| next_link_page(a, 0)),
            max_page as nat == max_of(m2, v3.take(j as int)),
            max_page <= 0xFFFF_FFFFu32 / 42 + 2,
        decreases anchors.len() - j,
    {
        assert(v3.take(j + 1).drop_last() =~= v3.take(j as int));
        let a = &anchors[j];
        let page: u32 = if a.len() > 0 {
            next_link_page_exec(a, 0)
        } else {
            0
        };
        assert(page as nat == v3[j as int]);
        if page > max_page {
            max_page = page;
        }
        j += 1;
    }
    assert(v3.take(j as int) =~= v3);
    max_page
}

// ---------------------------------------------------------------------------
// Image URLs
// ---------------------------------------------------------------------------

/// A protocol-relative URL (`//host/..`) gets `https:`, a root-relative one
/// (`/..`) the image host; any other URL is kept.
pub open spec fn absolute_url(u: Seq<char>) -> Seq<char> {
    if "//"@.is_prefix_of(u) {
        "https:"@ + u
    } else if "/"@.is_prefix_of(u) {
        "https://img2.gelbooru.com"@ + u
    } else {
        u
    }
}

/// An image URL made absolute, with every `//` after the scheme's `://`
/// collapsed to `/`; the empty URL stays empty.
pub open spec fn fixed_image_url(u: Seq<char>) -> Seq<char> {
    if u.len() == 0 {
        Seq::empty()
    } else {
        let f = absolute_url(u);
        match find(f, "://"@) {
            Some(pos) => f.take(pos + 3) + replace_all(f.skip(pos + 3), "//"@, "/"@),
            None => f,
        }
    }
}

/// Executable [`absolute_url`].
fn absolute_url_exec(u: &Vec<char>) -> (res: Vec<char>)
    ensures
        res@ == absolute_url(u@),
{
    if starts_with(u, &chars_of("//")) {
        concat(&chars_of("https:"), u)
    } else if starts_with(u, &chars_of("/")) {
        concat(&chars_of("https://img2.gelbooru.com"), u)
    } else {
        slice_chars(u, 0, u.len())
    }
}

/// Executable [`fixed_image_url`].
fn fixed_image_url_exec(u: &Vec<char>) -> (res: Vec<char>)
    ensures
        res@ == fixed_image_url(u@),
{
    if u.len() == 0 {
        return Vec::new();
    }
    let f = absolute_url_exec(u);
    let sep = chars_of("://");
    proof {
        reveal_strlit("://");
        reveal_strlit("//");
    }
    let flen = f.len();
    match find_exec(&f, &sep) {
        Some(pos) => {
            proof {
                lemma_find_from_occurs(f@, sep@, 0);
                assert(sep@.len() == 3);
                assert(occurs_at(f@, sep@, pos as int));
                assert(pos + 3 <= f@.len());
            }
            let prefix = slice_chars(&f, 0, pos + 3);
            let rest = slice_chars(&f, pos + 3, flen);
            let fixed_rest = replace_all_exec(&rest, &chars_of("//"), &chars_of("/"));
            assert(f@.subrange(0, pos + 3) =~= f@.take(pos + 3));
            assert(f@.subrange(pos + 3, f@.len() as int) =~= f@.skip(pos + 3));
            concat(&prefix, &fixed_rest)
        },
        None => f,
    }
}

impl GelbooruScraper {
    /// Completes an image URL: a protocol-relative URL gets `https:`, a
    /// root-relative one the image host, and doubled slashes after the
    /// scheme are collapsed; the empty URL stays empty.
    pub fn fix_image_url(&self, url: &str) -> (res: String)
        ensures
            res@ == fixed_image_url(url@),
    {
        string_of(&fixed_image_url_exec(&chars_of(url)))
    }
}

// ---------------------------------------------------------------------------
// Post statistics
// ---------------------------------------------------------------------------

/// The `src` of the first candidate sample image that has a non-empty one.
pub open spec fn first_src(candidates: Seq<Seq<TokenView>>) -> Option<Seq<char>>
    decreases candidates.len(),
{
    if candidates.len() == 0 {
        None
    } else {
        match first_src(candidates.drop_last()) {
            Some(s) => Some(s),
            None => match element_attr(candidates.last(), 0, "src"@) {
                Some(s) => if s.len() > 0 {
                    Some(s)
                } else {
                    None
                },
                None => None,
            },
        }
    }
}

/// The `content` of the first `og:image` meta element, when not empty.
pub open spec fn meta_image(metas: Seq<Seq<TokenView>>) -> Seq<char> {
    if metas.len() > 0 {
        match element_attr(metas[0], 0, "content"@) {
            Some(c) => c,
            None => Seq::empty(),
        }
    } else {
        Seq::empty()
    }
}

/// The `href` of the first link inside the element at `li`, or empty.
pub open spec fn first_link_href(ts: Seq<TokenView>, li: int) -> Seq<char> {
    or_empty(attr_at(ts, first_descendant(ts, li, "a"@), "href"@))
}

/// The score shown by the first span inside the element at `li`, or 0.
pub open spec fn first_span_score(ts: Seq<TokenView>, li: int) -> i32 {
    match first_descendant(ts, li, "span"@) {
        Some(sp) => match parse_i32_spec(trim(element_text(ts, sp))) {
            Some(v) => v,
            None => 0,
        },
        None => 0,
    }
}

/// `st` after reading the statistics line at `li`. Only items without a
/// class are read; the trimmed text says which field the line gives:
/// `Size:`, `Rating:`, `Posted:` (up to `Uploader:`), `Source:` (the first
/// link), `Score:` (the first span), and `Original image` (the first link,
/// made absolute, when no image URL is known yet).
pub open spec fn apply_item(st: StatsView, ts: Seq<TokenView>, li: int) -> StatsView {
    if or_empty(element_attr(ts, li, "class"@)).len() > 0 {
        st
    } else {
        let text = trim(element_text(ts, li));
        let st1 = if "Size:"@.is_prefix_of(text) {
            StatsView { size: trim(trim_start_matches(text, "Size:"@)), ..st }
        } else {
            st
        };
        let st2 = if "Rating:"@.is_prefix_of(text) {
            StatsView { rating: trim(trim_start_matches(text, "Rating:"@)), ..st1 }
        } else {
            st1
        };
        let st3 = if "Posted:"@.is_prefix_of(text) {
            StatsView {
                posted: trim(trim_start_matches(before_first(text, "Uploader:"@), "Posted:"@)),
                ..st2
            }
        } else {
            st2
        };
        let st4 = if "Source:"@.is_prefix_of(text) {
            StatsView { source: first_link_href(ts, li), ..st3 }
        } else {
            st3
        };
        let st5 = if "Score:"@.is_prefix_of(text) {
            StatsView { score: first_span_score(ts, li), ..st4 }
        } else {
            st4
        };
        if "Original image"@.is_prefix_of(text) && st5.image.len() == 0 {
            StatsView { image: absolute_url(first_link_href(ts, li)), ..st5 }
        } else {
            st5
        }
    }
}

/// `st` after reading the items at `items` in order.
pub open spec fn stats_over_items(st: StatsView, ts: Seq<TokenView>, items: Seq<int>) -> StatsView
    decreases items.len(),
{
    if items.len() == 0 {
        st
    } else {
        apply_item(stats_over_items(st, ts, items.drop_last()), ts, items.last())
    }
}

/// `st` after reading the items of each selected list in order.
pub open spec fn stats_over_lists(st: StatsView, lists: Seq<Seq<TokenView>>) -> StatsView
    decreases lists.len(),
{
    if lists.len() == 0 {
        st
    } else {
        let prev = stats_over_lists(st, lists.drop_last());
        stats_over_items(prev, lists.last(), descendants_named(lists.last(), 0, "li"@))
    }
}

/// The statistics of a post page: the sample is the first candidate image's
/// non-empty `src`, the image the `og:image` content; then the statistics
/// lines are read; both URLs are completed by [`fixed_image_url`], and an
/// empty image URL falls back to the sample.
pub open spec fn post_statistics(
    samples: Seq<Seq<TokenView>>,
    metas: Seq<Seq<TokenView>>,
    lists: Seq<Seq<TokenView>>,
) -> StatsView {
    let start = StatsView {
        sample: or_empty(first_src(samples)),
        image: meta_image(metas),
        ..empty_stats()
    };
    let read = stats_over_lists(start, lists);
    let sample = fixed_image_url(read.sample);
    let image = fixed_image_url(read.image);
    StatsView {
        sample,
        image: if image.len() == 0 {
            sample
        } else {
            image
        },
        ..read
    }
}

/// The `href` of the first link inside the element at `li`, or empty.
fn first_link_href_exec(ts: &Vec<HtmlToken>, li: usize) -> (res: Vec<char>)
    requires
        li < ts.len(),
    ensures
        res@ == first_link_href(tokens_view(ts@), li as int),
{
    let a = first_descendant_exec(ts, li, "a");
    or_empty_exec(attr_at_exec(ts, a, "href"))
}

/// The score shown by the first span inside the element at `li`, or 0.
fn first_span_score_exec(ts: &Vec<HtmlToken>, li: usize) -> (res: i32)
    requires
        li < ts.len(),
    ensures
        res == first_span_score(tokens_view(ts@), li as int),
{
    match first_descendant_exec(ts, li, "span") {
        Some(sp) => {
            let text = element_text_exec(ts, sp);
            match parse_i32(&trim_chars(&text)) {
                Some(v) => v,
                None => 0,
            }
        },
        None => 0,
    }
}

/// Reads the statistics line at `li` into `st`.
fn apply_item_exec(st: &mut GelbooruPostStatistics, ts: &Vec<HtmlToken>, li: usize)
    requires
        li < ts.len(),
    ensures
        final(st)@ == apply_item(old(st)@, tokens_view(ts@), li as int),
{
    let class = or_empty_exec(element_attr_exec(ts, li, "class"));
    if class.len() > 0 {
        return;
    }
    let raw = element_text_exec(ts, li);
    let text = trim_chars(&raw);
    let size = chars_of("Size:");
    if starts_with(&text, &size) {
        st.size = string_of(&trim_chars(&trim_start_matches_exec(&text, &size)));
    }
    let rating = chars_of("Rating:");
    if starts_with(&text, &rating) {
        st.rating = string_of(&trim_chars(&trim_start_matches_exec(&text, &rating)));
    }
    let posted = chars_of("Posted:");
    if starts_with(&text, &posted) {
        let head = before_first_exec(&text, &chars_of("Uploader:"));
        st.posted = string_of(&trim_chars(&trim_start_matches_exec(&head, &posted)));
    }
    if starts_with(&text, &chars_of("Source:")) {
        st.source = string_of(&first_link_href_exec(ts, li));
    }
    if starts_with(&text, &chars_of("Score:")) {
        st.score = first_span_score_exec(ts, li);
    }
    if starts_with(&text, &chars_of("Original image")) && st.image.as_str().is_empty() {
        st.image = string_of(&absolute_url_exec(&first_link_href_exec(ts, li)));
    }
}

/// Reads the items of one statistics list whose tokens are `ts` into `st`.
fn apply_list_exec(st: &mut GelbooruPostStatistics, ts: &Vec<HtmlToken>)
    ensures
        final(st)@ == stats_over_items(
            old(st)@,
            tokens_view(ts@),
            descendants_named(tokens_view(ts@), 0, "li"@),
        ),
{
    let ghost tv = tokens_view(ts@);
    let ghost start = st@;
    if ts.len() == 0 {
        assert(descendants_named(tv, 0, "li"@) =~= Seq::<int>::empty());
        return;
    }
    let items = descendants_named_exec(ts, 0, "li");
    let ghost iv = positions(items@);
    let mut j: usize = 0;
    while j < items.len()
        invariant
            tv == tokens_view(ts@),
            j <= items.len(),
            iv == positions(items@),
            iv == descendants_named(tv, 0, "li"@),
            forall|k: int| 0 <= k < items@.len() ==> #[trigger] items@[k] < ts.len(),
            st@ == stats_over_items(start, tv, iv.take(j as int)),
        decreases items.len() - j,
    {
        assert(iv.take(j + 1).drop_last() =~= iv.take(j as int));
        assert(iv.take(j + 1).last() == items@[j as int] as int);
        apply_item_exec(st, ts, items[j]);
        j += 1;
    }
    assert(iv.take(j as int) =~= iv);
}

/// The statistics of a post page from its selections: the first element of
/// each sample selector that matched (`samples`), the first `og:image` meta
/// element if any (`metas`), and the statistics lists (`lists`); see
/// [`post_statistics`].
pub fn statistics_from(
    samples: &Vec<Vec<HtmlToken>>,
    metas: &Vec<Vec<HtmlToken>>,
    lists: &Vec<Vec<HtmlToken>>,
) -> (res: GelbooruPostStatistics)
    ensures
        res@ == post_statistics(
            samples@.map_values(|a: Vec<HtmlToken>| tokens_view(a@)),
            metas@.map_values(|a: Vec<HtmlToken>| tokens_view(a@)),
            lists@.map_values(|a: Vec<HtmlToken>| tokens_view(a@)),
        ),
{
    let ghost sv = samples@.map_values(|a: Vec<HtmlToken>| tokens_view(a@));
    let ghost mv = metas@.map_values(|a: Vec<HtmlToken>| tokens_view(a@));
    let ghost lv = lists@.map_values(|a: Vec<HtmlToken>| tokens_view(a@));
    let mut st = GelbooruPostStatistics::default();
    // The sample image.
    let mut sample: Option<Vec<char>> = None;
    let mut j: usize = 0;
    while j < samples.len()
        invariant
            j <= samples.len(),
            sv == samples@.map_values(|a: Vec<HtmlToken>| tokens_view(a@)),
            opt_chars(sample) == first_src(sv.take(j as int)),
        decreases samples.len() - j,
    {
        assert(sv.take(j + 1).drop_last() =~= sv.take(j as int));
        assert(sv.take(j + 1).last() == tokens_view(samples@[j as int]@));
        if sample.is_none() && samples[j].len() > 0 {
            match element_attr_exec(&samples[j], 0, "src") {
                Some(s) => {
                    if s.len() > 0 {
                        sample = Some(s);
                    }
                },
                None => {},
            }
        }
        j += 1;
    }
    assert(sv.take(j as int) =~= sv);
    st.sample = string_of(&or_empty_exec(sample));
    // The original image from the `og:image` meta element.
    if metas.len() > 0 && metas[0].len() > 0 {
        match element_attr_exec(&metas[0], 0, "content") {
            Some(c) => {
                st.image = string_of(&c);
            },
            None => {},
        }
    }
    assert(st@ == StatsView {
        sample: or_empty(first_src(sv)),
        image: meta_image(mv),
        ..empty_stats()
    });
    // The statistics lines.
    let ghost start = st@;
    let mut c: usize = 0;
    while c < lists.len()
        invariant
            c <= lists.len(),
            lv == lists@.map_values(|a: Vec<HtmlToken>| tokens_view(a@)),
            st@ == stats_over_lists(start, lv.take(c as int)),
        decreases lists.len() - c,
    {
        assert(lv.take(c + 1).drop_last() =~= lv.take(c as int));
        assert(lv.take(c + 1).last() == tokens_view(lists@[c as int]@));
        apply_list_exec(&mut st, &lists[c]);
        c += 1;
    }
    assert(lv.take(c as int) =~= lv);
    // Completing the URLs.
    let sample_fixed = fixed_image_url_exec(&chars_of(st.sample.as_str()));
    let image_fixed = fixed_image_url_exec(&chars_of(st.image.as_str()));
    st.sample = string_of(&sample_fixed);
    if image_fixed.len() == 0 {
        st.image = string_of(&sample_fixed);
    } else {
        st.image = string_of(&image_fixed);
    }
    st
}

// ---------------------------------------------------------------------------
// Whole pages
// ---------------------------------------------------------------------------

/// The elements of a selection; none when the selector does not parse.
pub open spec fn selection_or_empty(r: Option<Seq<Seq<TokenView>>>) -> Seq<Seq<TokenView>> {
    match r {
        Some(v) => v,
        None => Seq::empty(),
    }
}

/// The first element of a selection, as a list of at most one element.
pub open spec fn first_selected(r: Option<Seq<Seq<TokenView>>>) -> Seq<Seq<TokenView>> {
    match r {
        Some(v) => if v.len() > 0 {
            seq![v[0]]
        } else {
            Seq::empty()
        },
        None => Seq::empty(),
    }
}

/// The posts of a result page.
pub open spec fn page_posts(html: Seq<char>) -> Seq<PostView> {
    post_list(selection_or_empty(selected_elements(html, "article.thumbnail-preview"@)))
}

/// The tags of a result or post page.
pub open spec fn page_tags(html: Seq<char>) -> Seq<TagView> {
    tag_list(selection_or_empty(selected_elements(html, "ul#tag-list"@)))
}

/// The pagination containers of a page: the first element of each of the
/// selectors `.pagination`, `#paginator`, `.paginator`, `nav.pagination`.
pub open spec fn page_containers(html: Seq<char>) -> Seq<Seq<TokenView>> {
    first_selected(selected_elements(html, ".pagination"@)) + first_selected(
        selected_elements(html, "#paginator"@),
    ) + first_selected(selected_elements(html, ".paginator"@)) + first_selected(
        selected_elements(html, "nav.pagination"@),
    )
}

/// The number of result pages of a page.
pub open spec fn page_count(html: Seq<char>) -> nat {
    total_pages(selection_or_empty(selected_elements(html, "a"@)), page_containers(html))
}

/// The candidate sample images of a post page: the first element of each of
/// the selectors `#image`, `img[alt='image']`, `.image-container img`.
pub open spec fn page_sample_candidates(html: Seq<char>) -> Seq<Seq<TokenView>> {
    first_selected(selected_elements(html, "#image"@)) + first_selected(
        selected_elements(html, "img[alt='image']"@),
    ) + first_selected(selected_elements(html, ".image-container img"@))
}

/// The statistics of a post page; none when the tag-list selector does not
/// parse.
pub open spec fn page_statistics(html: Seq<char>) -> Option<StatsView> {
    match selected_elements(html, "ul#tag-list"@) {
        Some(lists) => Some(
            post_statistics(
                page_sample_candidates(html),
                first_selected(selected_elements(html, "meta[property='og:image']"@)),
                lists,
            ),
        ),
        None => None,
    }
}

/// The views of a list of token streams.
pub open spec fn streams_view(v: Seq<Vec<HtmlToken>>) -> Seq<Seq<TokenView>> {
    v.map_values(|a: Vec<HtmlToken>| tokens_view(a@))
}

/// The elements selected by `selector` in `html`; none when the selector does
/// not parse.
fn select_or_empty(html: &str, selector: &str) -> (res: Vec<Vec<HtmlToken>>)
    ensures
        streams_view(res@) == selection_or_empty(selected_elements(html@, selector@)),
{
    match select_elements(html, selector) {
        Some(v) => v,
        None => {
            assert(streams_view(Seq::<Vec<HtmlToken>>::empty()) =~= Seq::<Seq<TokenView>>::empty());
            Vec::new()
        },
    }
}

/// Appends the first element selected by `selector` in `html`, if any.
fn push_first_selected(html: &str, selector: &str, out: &mut Vec<Vec<HtmlToken>>)
    ensures
        streams_view(final(out)@) == streams_view(old(out)@) + first_selected(
            selected_elements(html@, selector@),
        ),
{
    let ghost start = out@;
    match select_elements(html, selector) {
        Some(mut v) => {
            if v.len() > 0 {
                let ghost first = v@[0];
                let e = v.swap_remove(0);
                assert(e == first);
                out.push(e);
                assert(streams_view(out@) =~= streams_view(start) + seq![tokens_view(e@)]);
            } else {
                assert(streams_view(out@) =~= streams_view(start) + Seq::<Seq<TokenView>>::empty());
            }
        },
        None => {
            assert(streams_view(out@) =~= streams_view(start) + Seq::<Seq<TokenView>>::empty());
        },
    }
}

impl GelbooruScraper {
    /// The posts of the result page `html`: for each
    /// `article.thumbnail-preview`, one post per link with a numeric id.
    pub fn parse_post_list(&self, html: &str) -> (res: Vec<GelbooruPost>)
        ensures
            posts_view(res@) == page_posts(html@),
    {
        let articles = select_or_empty(html, "article.thumbnail-preview");
        posts_from_articles(&articles)
    }

    /// The tags of the tag lists (`ul#tag-list`) of `html`.
    pub fn parse_tag_list(&self, html: &str) -> (res: Vec<GelbooruTag>)
        ensures
            tags_view(res@) == page_tags(html@),
    {
        let lists = select_or_empty(html, "ul#tag-list");
        tags_from_lists(&lists)
    }

    /// The number of result pages that the links of `html` show.
    pub fn parse_pagination(&self, html: &str) -> (res: u32)
        ensures
            res as nat == page_count(html@),
    {
        let anchors = select_or_empty(html, "a");
        let mut containers: Vec<Vec<HtmlToken>> = Vec::new();
        push_first_selected(html, ".pagination", &mut containers);
        push_first_selected(html, "#paginator", &mut containers);
        push_first_selected(html, ".paginator", &mut containers);
        push_first_selected(html, "nav.pagination", &mut containers);
        assert(streams_view(containers@) =~= page_containers(html@));
        total_pages_from(&anchors, &containers)
    }

    /// The statistics of the post page `html`. The result has the shape of
    /// the original's (`None` when the tag-list selector does not parse),
    /// but that selector always parses, so it is always present.
    pub fn parse_post_statistics(&self, html: &str) -> (res: Option<GelbooruPostStatistics>)
        ensures
            match res {
                Some(st) => page_statistics(html@) == Some(st@),
                None => page_statistics(html@) is None,
            },
            res is Some,
    {
        let mut samples: Vec<Vec<HtmlToken>> = Vec::new();
        push_first_selected(html, "#image", &mut samples);
        push_first_selected(html, "img[alt='image']", &mut samples);
        push_first_selected(html, ".image-container img", &mut samples);
        assert(streams_view(samples@) =~= page_sample_candidates(html@));
        let mut metas: Vec<Vec<HtmlToken>> = Vec::new();
        push_first_selected(html, "meta[property='og:image']", &mut metas);
        assert(streams_view(metas@) =~= first_selected(
            selected_elements(html@, "meta[property='og:image']"@),
        ));
        match select_elements(html, "ul#tag-list") {
            Some(lists) => Some(statistics_from(&samples, &metas, &lists)),
            None => None,
        }
    }

    /// Reads a result page: its posts, its tags and its number of pages.
    pub fn parse_page(&self, html: &str) -> (res: (Vec<GelbooruPost>, Vec<GelbooruTag>, u32))
        ensures
            posts_view(res.0@) == page_posts(html@),
            tags_view(res.1@) == page_tags(html@),
            res.2 as nat == page_count(html@),
    {
        let posts = self.parse_post_list(html);
        let tags = self.parse_tag_list(html);
        let total_pages = self.parse_pagination(html);
        (posts, tags, total_pages)
    }

    /// Reads a post page: its tags and its statistics. As the statistics
    /// are always present, so is the result.
    pub fn parse_post(&self, html: &str) -> (res: Option<(Vec<GelbooruTag>, GelbooruPostStatistics)>)
        ensures
            match res {
                Some((tags, st)) => tags_view(tags@) == page_tags(html@) && page_statistics(html@)
                    == Some(st@),
                None => page_statistics(html@) is None,
            },
            res is Some,
    {
        let tags = self.parse_tag_list(html);
        match self.parse_post_statistics(html) {
            Some(st) => Some((tags, st)),
            None => None,
        }
    }
}

// ---------------------------------------------------------------------------
// URLs
// ---------------------------------------------------------------------------

/// The bytes that `application/x-www-form-urlencoded` keeps as they are:
/// `*`, `-`, `.`, `_` and the ASCII letters and digits.
pub open spec fn form_unchanged(b: u8) -> bool {
    b == 0x2a || b == 0x2d || b == 0x2e || (0x30 <= b <= 0x39) || (0x41 <= b <= 0x5a) || b
        == 0x5f || (0x61 <= b <= 0x7a)
}

/// The uppercase hexadecimal digit for `d < 16`.
pub open spec fn hex_upper(d: int) -> char {
    if d < 10 {
        ((d + 0x30) as u32) as char
    } else {
        ((d - 10 + 0x41) as u32) as char
    }
}

/// How one byte is written: kept, `+` for a space, else `%` and two
/// uppercase hexadecimal digits.
pub open spec fn form_byte(b: u8) -> Seq<char> {
    if form_unchanged(b) {
        seq![(b as u32) as char]
    } else if b == 0x20 {
        seq!['+']
    } else {
        seq!['%', hex_upper((b / 16) as int), hex_upper((b % 16) as int)]
    }
}

/// The `application/x-www-form-urlencoded` byte serialization of `bytes`.
pub open spec fn form_urlencoded(bytes: Seq<u8>) -> Seq<char>
    decreases bytes.len(),
{
    if bytes.len() == 0 {
        Seq::empty()
    } else {
        form_urlencoded(bytes.drop_last()) + form_byte(bytes.last())
    }
}

/// Serializes the UTF-8 bytes of `s` with
/// `url::form_urlencoded::byte_serialize` and collects the pieces: each byte
/// is written as [`form_byte`] says, in order.
#[verifier::external_body]
fn form_urlencode(s: &str) -> (res: String)
    ensures
        res@ == form_urlencoded(encode_utf8(s@)),
{
    url::form_urlencoded::byte_serialize(s.as_bytes()).collect()
}

/// `parts` joined with `sep` between consecutive parts (`[String]::join`).
pub open spec fn join(parts: Seq<Seq<char>>, sep: Seq<char>) -> Seq<char>
    decreases parts.len(),
{
    if parts.len() == 0 {
        Seq::empty()
    } else if parts.len() == 1 {
        parts[0]
    } else {
        join(parts.drop_last(), sep) + sep + parts.last()
    }
}

/// The tags of a search: the user's tags, then `highres`, then the excluded
/// `-video` and `-animated`.
pub open spec fn search_tags(tags: Seq<Seq<char>>) -> Seq<Seq<char>> {
    tags + seq!["highres"@, "-video"@, "-animated"@]
}

/// The `pid` of a result page: the number of posts before it.
pub open spec fn page_pid(page: u32) -> int {
    (if page > 0 {
        page - 1
    } else {
        0
    }) * PAGE_SIZE
}

/// The URL of result page `page` for `tags`.
pub open spec fn search_url(tags: Seq<Seq<char>>, page: u32) -> Seq<char> {
    "https://gelbooru.com/index.php?page=post&s=list&tags="@ + form_urlencoded(
        encode_utf8(join(search_tags(tags), " "@)),
    ) + "&pid="@ + decimal(page_pid(page) as nat)
}

/// The URL of the page of post `id`.
pub open spec fn post_url(id: u32) -> Seq<char> {
    "https://gelbooru.com/index.php?page=post&s=view&id="@ + decimal(id as nat)
}

/// The views of a list of strings.
pub open spec fn strings_view(v: Seq<String>) -> Seq<Seq<char>> {
    v.map_values(|s: String| s@)
}

/// Appends `parts` joined with `sep` to `out`.
fn push_joined(out: &mut Vec<char>, parts: &Vec<Vec<char>>, sep: &Vec<char>)
    ensures
        final(out)@ == old(out)@ + join(parts@.map_values(|p: Vec<char>| p@), sep@),
{
    let ghost pv = parts@.map_values(|p: Vec<char>| p@);
    let ghost start = out@;
    let mut j: usize = 0;
    while j < parts.len()
        invariant
            j <= parts.len(),
            pv == parts@.map_values(|p: Vec<char>| p@),
            out@ == start + join(pv.take(j as int), sep@),
        decreases parts.len() - j,
    {
        assert(pv.take(j + 1).drop_last() =~= pv.take(j as int));
        if j > 0 {
            push_all(out, sep);
        }
        push_all(out, &parts[j]);
        proof {
            if j == 0 {
                assert(pv.take(1) =~= seq![pv[0]]);
                assert(out@ =~= start + join(pv.take(1), sep@));
            } else {
                assert(out@ =~= start + join(pv.take(j + 1), sep@));
            }
        }
        j += 1;
    }
    assert(pv.take(j as int) =~= pv);
}

impl GelbooruScraper {
    /// The URL of result page `page` (counted from 1; 0 counts as 1) for
    /// `tags`, with `highres` added and videos and animations excluded.
    pub fn build_search_url(&self, tags: &[String], page: u32) -> (res: String)
        requires
            page_pid(page) <= u32::MAX,
        ensures
            res@ == search_url(strings_view(tags@), page),
    {
        let mut parts: Vec<Vec<char>> = Vec::new();
        let mut j: usize = 0;
        while j < tags.len()
            invariant
                j <= tags.len(),
                parts@.map_values(|p: Vec<char>| p@) == strings_view(tags@).take(j as int),
            decreases tags.len() - j,
        {
            let c = chars_of(tags[j].as_str());
            assert(c@ == strings_view(tags@)[j as int]);
            let ghost before = parts@;
            parts.push(c);
            assert(parts@.map_values(|p: Vec<char>| p@) =~= before.map_values(|p: Vec<char>| p@).push(c@));
            assert(parts@.map_values(|p: Vec<char>| p@) =~= strings_view(tags@).take(j + 1));
            j += 1;
        }
        let ghost user = parts@.map_values(|p: Vec<char>| p@);
        assert(user =~= strings_view(tags@));
        parts.push(chars_of("highres"));
        parts.push(chars_of("-video"));
        parts.push(chars_of("-animated"));
        assert(parts@.map_values(|p: Vec<char>| p@) =~= search_tags(strings_view(tags@)));
        let mut joined: Vec<char> = Vec::new();
        push_joined(&mut joined, &parts, &chars_of(" "));
        assert(joined@ =~= join(search_tags(strings_view(tags@)), " "@));
        let encoded = form_urlencode(string_of(&joined).as_str());
        let before: u32 = if page > 0 {
            page - 1
        } else {
            0
        };
        let pid: u32 = before * PAGE_SIZE;
        let mut url = chars_of("https://gelbooru.com/index.php?page=post&s=list&tags=");
        push_all(&mut url, &chars_of(encoded.as_str()));
        push_all(&mut url, &chars_of("&pid="));
        push_all(&mut url, &decimal_u64(pid as u64));
        string_of(&url)
    }

    /// The URL of the page of post `id`.
    pub fn build_post_url(&self, id: u32) -> (res: String)
        ensures
            res@ == post_url(id),
    {
        let mut url = chars_of("https://gelbooru.com/index.php?page=post&s=view&id=");
        push_all(&mut url, &decimal_u64(id as u64));
        string_of(&url)
    }
}

/// The largest value is never below the start.
pub proof fn lemma_max_of_at_least_start(start: nat, vals: Seq<nat>)
    ensures
        max_of(start, vals) >= start,
        forall|k: int| 0 <= k < vals.len() ==> max_of(start, vals) >= #[trigger] vals[k],
    decreases vals.len(),
{
    if vals.len() > 0 {
        lemma_max_of_at_least_start(start, vals.drop_last());
        assert forall|k: int| 0 <= k < vals.len() implies max_of(start, vals) >= #[trigger] vals[k] by {
            if k < vals.len() - 1 {
                assert(vals.drop_last()[k] == vals[k]);
            }
        }
    }
}

/// A page always counts at least one page of results, and at least the page
/// every link of the document points to.
pub proof fn law_page_count_bounds(html: Seq<char>)
    ensures
        page_count(html) >= 1,
        forall|k: int|
            0 <= k < selection_or_empty(selected_elements(html, "a"@)).len() ==> page_count(html)
                >= link_page(#[trigger] selection_or_empty(selected_elements(html, "a"@))[k], 0),
{
    let anchors = selection_or_empty(selected_elements(html, "a"@));
    let v1 = anchors.map_values(|a: Seq<TokenView>| link_page(a, 0));
    let m1 = max_of(1, v1);
    let m2 = max_of(m1, container_pages(page_containers(html)));
    let v3 = anchors.map_values(|a: Seq<TokenView>| next_link_page(a, 0));
    lemma_max_of_at_least_start(1, v1);
    lemma_max_of_at_least_start(m1, container_pages(page_containers(html)));
    lemma_max_of_at_least_start(m2, v3);
    assert forall|k: int| 0 <= k < anchors.len() implies page_count(html) >= link_page(
        #[trigger] anchors[k],
        0,
    ) by {
        assert(v1[k] == link_page(anchors[k], 0));
    }
}

} // verus!
