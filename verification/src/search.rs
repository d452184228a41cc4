//! The Gelbooru commands' own logic: what a search gives, how a post's
//! detail is assembled, how a fetched image is handed on, and the pacing of
//! requests.
use vstd::prelude::*;
use crate::gallery::{content_type_of_url, data_url, make_data_url, url_content_type};
use crate::models::{posts_view, tags_view, GelbooruPost, GelbooruTag};
use crate::scraping::{page_posts, page_statistics, page_tags, post_url, GelbooruScraper};
use crate::text::{chars_of, push_all, string_of, trim_start_matches, trim_start_matches_exec};

verus! {

/// The posts and tags of a result page.
#[derive(Debug)]
pub struct SearchResult {
    pub post_list: Vec<GelbooruPost>,
    pub tag_list: Vec<GelbooruTag>,
}

/// The search result read from the result page `html`.
pub fn search_result(scraper: &GelbooruScraper, html: &str) -> (res: SearchResult)
    ensures
        posts_view(res.post_list@) == page_posts(html@),
        tags_view(res.tag_list@) == page_tags(html@),
{
    let (post_list, tag_list, _) = scraper.parse_page(html);
    SearchResult { post_list, tag_list }
}

/// The detail of post `id` read from its page `html`: its URL, its tags and
/// statistics, no title and no thumbnail; an error when the statistics
/// cannot be read.
pub fn post_detail(scraper: &GelbooruScraper, id: u32, html: &str) -> (res: Result<
    GelbooruPost,
    String,
>)
    ensures
        match res {
            Ok(p) => page_statistics(html@) == Some(p@.statistics) && p@.id == id && p@.url
                == post_url(id) && p@.title.len() == 0 && p@.tag_list == page_tags(html@)
                && p@.thumbnail is None,
            Err(e) => page_statistics(html@) is None && e@ == "Failed to parse post"@,
        },
{
    let url = scraper.build_post_url(id);
    match scraper.parse_post(html) {
        Some((tag_list, statistics)) => Ok(
            GelbooruPost { id, url, title: String::new(), tag_list, statistics, thumbnail: None },
        ),
        None => Err(String::from_str("Failed to parse post")),
    }
}

/// A fetched remote image as a `data:` URL, typed by the end of its URL.
pub fn remote_image_data_url(url: &str, bytes: &Vec<u8>) -> (res: String)
    requires
        bytes@.len() <= usize::MAX / 2,
    ensures
        res@ == data_url(url_content_type(url@), bytes@),
{
    make_data_url(content_type_of_url(url), bytes)
}

// ---------------------------------------------------------------------------
// Requests
// ---------------------------------------------------------------------------

/// The least time between two requests, in nanoseconds (500 ms).
pub const RATE_LIMIT_GAP_NANOS: u128 = 500_000_000;

/// How long to wait before a request when `elapsed` nanoseconds have passed
/// since the last one.
pub open spec fn rate_limit_wait(elapsed: u128) -> u128 {
    if elapsed < RATE_LIMIT_GAP_NANOS {
        (RATE_LIMIT_GAP_NANOS - elapsed) as u128
    } else {
        0
    }
}

/// The wait before a request, `elapsed` nanoseconds after the last one.
pub fn wait_before_request(elapsed: u128) -> (res: u128)
    ensures
        res == rate_limit_wait(elapsed),
{
    if elapsed < RATE_LIMIT_GAP_NANOS {
        RATE_LIMIT_GAP_NANOS - elapsed
    } else {
        0
    }
}

/// Two requests are never closer than the gap: the wait makes up the rest,
/// and no wait is made once the gap has passed.
pub proof fn law_rate_limit_gap(elapsed: u128)
    ensures
        elapsed + rate_limit_wait(elapsed) >= RATE_LIMIT_GAP_NANOS,
        elapsed >= RATE_LIMIT_GAP_NANOS ==> rate_limit_wait(elapsed) == 0,
        rate_limit_wait(elapsed) <= RATE_LIMIT_GAP_NANOS,
{
}

/// When a request arriving at `now` may go out, given that the one before
/// went out (or was given its turn) at `last`: at once when the gap has
/// passed, else when it ends.
pub open spec fn next_slot(last: u128, now: u128) -> int {
    if now >= last + RATE_LIMIT_GAP_NANOS {
        now as int
    } else {
        last + RATE_LIMIT_GAP_NANOS
    }
}

/// The pacing of requests: the time, in nanoseconds on a clock that the
/// caller keeps, at which the last request went out or is due to go out.
pub struct RateLimiter {
    last: u128,
}

impl View for RateLimiter {
    type V = u128;

    closed spec fn view(&self) -> u128 {
        self.last
    }
}

impl RateLimiter {
    /// A limiter that counts `now` as the time of the last request.
    pub fn new(now: u128) -> (res: Self)
        ensures
            res@ == now,
    {
        RateLimiter { last: now }
    }

    /// The time of the last request.
    pub fn last_request(&self) -> (res: u128)
        ensures
            res == self@,
    {
        self.last
    }

    /// A request arriving at `now`: how long it must wait. Its turn, `now`
    /// plus the wait, becomes the time of the last request, so a request
    /// that arrives while another is still waiting queues behind it. When
    /// the last request is in the past, the wait is the one
    /// [`wait_before_request`] gives for the time elapsed since.
    pub fn begin(&mut self, now: u128) -> (wait: u128)
        requires
            now <= u128::MAX - RATE_LIMIT_GAP_NANOS,
            old(self)@ <= u128::MAX - RATE_LIMIT_GAP_NANOS,
        ensures
            now + wait == next_slot(old(self)@, now),
            final(self)@ == now + wait,
            now >= old(self)@ ==> wait == rate_limit_wait((now - old(self)@) as u128),
    {
        let wait = if now >= self.last {
            wait_before_request(now - self.last)
        } else {
            self.last - now + RATE_LIMIT_GAP_NANOS
        };
        self.last = now + wait;
        wait
    }
}

/// Two requests in a row go out at least the gap apart, neither goes out
/// before it arrives, and one that arrives after the gap has passed does
/// not wait.
pub proof fn law_successive_requests_keep_gap(last: u128, now1: u128, now2: u128)
    requires
        last <= u128::MAX - RATE_LIMIT_GAP_NANOS,
        now1 <= u128::MAX - RATE_LIMIT_GAP_NANOS,
        now2 <= u128::MAX - RATE_LIMIT_GAP_NANOS,
    ensures
        next_slot(last, now1) >= now1,
        next_slot(last, now1) >= last + RATE_LIMIT_GAP_NANOS,
        now1 >= last + RATE_LIMIT_GAP_NANOS ==> next_slot(last, now1) == now1,
        next_slot(last, now1) <= u128::MAX ==> next_slot(
            next_slot(last, now1) as u128,
            now2,
        ) >= next_slot(last, now1) + RATE_LIMIT_GAP_NANOS,
{
}

/// A stored cookie as handed to the cookie jar: the cookie text `name=value`
/// and the URL `https://` followed by the domain without leading dots.
pub open spec fn cookie_entry(name: Seq<char>, value: Seq<char>, domain: Seq<char>) -> (
    Seq<char>,
    Seq<char>,
) {
    (name + "="@ + value, "https://"@ + trim_start_matches(domain, "."@))
}

/// The cookie text and URL of a stored cookie.
pub fn cookie_for_jar(name: &str, value: &str, domain: &str) -> (res: (String, String))
    ensures
        (res.0@, res.1@) == cookie_entry(name@, value@, domain@),
{
    let mut text = chars_of(name);
    push_all(&mut text, &chars_of("="));
    push_all(&mut text, &chars_of(value));
    let mut url = chars_of("https://");
    push_all(&mut url, &trim_start_matches_exec(&chars_of(domain), &chars_of(".")));
    (string_of(&text), string_of(&url))
}

/// Whether `url::Url::parse` accepts `s` as an absolute URL.
pub uninterp spec fn is_absolute_url(s: Seq<char>) -> bool;

/// Calls `url::Url::parse` on `s` and tells whether it succeeded; the
/// answer is named `is_absolute_url`.
#[verifier::external_body]
fn parses_as_url(s: &str) -> (res: bool)
    ensures
        res == is_absolute_url(s@),
{
    url::Url::parse(s).is_ok()
}

/// The proxy the HTTP client is built with: the configured proxy URL when
/// it is not empty and parses as a URL; none otherwise.
pub open spec fn proxy_choice(proxy_url: Option<Seq<char>>) -> Option<Seq<char>> {
    match proxy_url {
        Some(p) => if p.len() > 0 && is_absolute_url(p) {
            Some(p)
        } else {
            None
        },
        None => None,
    }
}

/// Chooses the proxy for the HTTP client (see [`proxy_choice`]).
pub fn choose_proxy(proxy_url: Option<String>) -> (res: Option<String>)
    ensures
        match res {
            Some(p) => proxy_choice(
                match proxy_url {
                    Some(u) => Some(u@),
                    None => None,
                },
            ) == Some(p@),
            None => proxy_choice(
                match proxy_url {
                    Some(u) => Some(u@),
                    None => None,
                },
            ) is None,
        },
{
    match proxy_url {
        Some(p) => {
            if !p.as_str().is_empty() && parses_as_url(p.as_str()) {
                Some(p)
            } else {
                None
            }
        },
        None => None,
    }
}

} // verus!
