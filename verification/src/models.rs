//! The Gelbooru data model: tags, posts with their statistics, and result pages.
use vstd::prelude::*;

verus! {

/// A tag as shown in a page's tag list.
#[derive(Debug, Clone)]
pub struct GelbooruTag {
    pub text: String,
    pub tag_type: String,
    pub count: u32,
}

/// The mathematical value of a [`GelbooruTag`].
pub struct TagView {
    pub text: Seq<char>,
    pub tag_type: Seq<char>,
    pub count: u32,
}

impl View for GelbooruTag {
    type V = TagView;

    open spec fn view(&self) -> TagView {
        TagView { text: self.text@, tag_type: self.tag_type@, count: self.count }
    }
}

/// The views of a sequence of tags.
pub open spec fn tags_view(tags: Seq<GelbooruTag>) -> Seq<TagView> {
    tags.map_values(|t: GelbooruTag| t@)
}

impl GelbooruTag {
    /// A tag with the given text, type and post count.
    pub fn new(text: String, tag_type: String, count: u32) -> (tag: Self)
        ensures
            tag.text == text,
            tag.tag_type == tag_type,
            tag.count == count,
    {
        GelbooruTag { text, tag_type, count }
    }
}

/// The statistics block of a post page.
#[derive(Debug, Clone)]
pub struct GelbooruPostStatistics {
    pub size: String,
    pub rating: String,
    pub posted: String,
    pub source: String,
    pub score: i32,
    /// URL of the original image (used for downloading).
    pub image: String,
    /// URL of the sample image (used for display).
    pub sample: String,
}

/// The mathematical value of a [`GelbooruPostStatistics`].
pub struct StatsView {
    pub size: Seq<char>,
    pub rating: Seq<char>,
    pub posted: Seq<char>,
    pub source: Seq<char>,
    pub score: i32,
    pub image: Seq<char>,
    pub sample: Seq<char>,
}

impl View for GelbooruPostStatistics {
    type V = StatsView;

    open spec fn view(&self) -> StatsView {
        StatsView {
            size: self.size@,
            rating: self.rating@,
            posted: self.posted@,
            source: self.source@,
            score: self.score,
            image: self.image@,
            sample: self.sample@,
        }
    }
}

/// The statistics with every text empty and a zero score.
pub open spec fn empty_stats() -> StatsView {
    StatsView {
        size: Seq::empty(),
        rating: Seq::empty(),
        posted: Seq::empty(),
        source: Seq::empty(),
        score: 0,
        image: Seq::empty(),
        sample: Seq::empty(),
    }
}

impl Default for GelbooruPostStatistics {
    fn default() -> (stats: Self)
        ensures
            stats@ == empty_stats(),
    {
        GelbooruPostStatistics {
            size: String::new(),
            rating: String::new(),
            posted: String::new(),
            source: String::new(),
            score: 0,
            image: String::new(),
            sample: String::new(),
        }
    }
}

/// A post: a thumbnail in a result page, or the detail of one post.
#[derive(Debug, Clone)]
pub struct GelbooruPost {
    pub id: u32,
    pub url: String,
    pub title: String,
    pub tag_list: Vec<GelbooruTag>,
    pub statistics: GelbooruPostStatistics,
    pub thumbnail: Option<String>,
}

/// The view of an optional string.
pub open spec fn opt_view(s: Option<String>) -> Option<Seq<char>> {
    match s {
        Some(v) => Some(v@),
        None => None,
    }
}

/// The mathematical value of a [`GelbooruPost`].
pub struct PostView {
    pub id: u32,
    pub url: Seq<char>,
    pub title: Seq<char>,
    pub tag_list: Seq<TagView>,
    pub statistics: StatsView,
    pub thumbnail: Option<Seq<char>>,
}

impl View for GelbooruPost {
    type V = PostView;

    open spec fn view(&self) -> PostView {
        PostView {
            id: self.id,
            url: self.url@,
            title: self.title@,
            tag_list: tags_view(self.tag_list@),
            statistics: self.statistics@,
            thumbnail: opt_view(self.thumbnail),
        }
    }
}

/// The views of a sequence of posts.
pub open spec fn posts_view(posts: Seq<GelbooruPost>) -> Seq<PostView> {
    posts.map_values(|p: GelbooruPost| p@)
}

impl GelbooruPost {
    /// A post with the given id, URL and title, no tags, empty statistics and
    /// no thumbnail.
    pub fn new(id: u32, url: String, title: String) -> (post: Self)
        ensures
            post.id == id,
            post.url == url,
            post.title == title,
            post.tag_list@.len() == 0,
            post.statistics@ == empty_stats(),
            post.thumbnail is None,
    {
        GelbooruPost {
            id,
            url,
            title,
            tag_list: Vec::new(),
            statistics: GelbooruPostStatistics::default(),
            thumbnail: None,
        }
    }
}

/// A page of search results for a list of tags.
#[derive(Debug, Clone)]
pub struct GelbooruPage {
    pub page: String,
    pub s: String,
    pub tags: Vec<String>,
    pub page_num: u32,
    pub tag_list: Vec<GelbooruTag>,
    pub post_list: Vec<GelbooruPost>,
}

impl GelbooruPage {
    /// An empty listing page (`page=post`, `s=list`) for `tags` at `page_num`.
    pub fn new(tags: Vec<String>, page_num: u32) -> (page: Self)
        ensures
            page.page@ == "post"@,
            page.s@ == "list"@,
            page.tags == tags,
            page.page_num == page_num,
            page.tag_list@.len() == 0,
            page.post_list@.len() == 0,
    {
        GelbooruPage {
            page: String::from_str("post"),
            s: String::from_str("list"),
            tags,
            page_num,
            tag_list: Vec::new(),
            post_list: Vec::new(),
        }
    }

    /// The page that an index request for `tags` at `page_num` starts from:
    /// the same as [`GelbooruPage::new`].
    pub fn index_request(tags: Vec<String>, page_num: u32) -> (page: Self)
        ensures
            page.page@ == "post"@,
            page.s@ == "list"@,
            page.tags == tags,
            page.page_num == page_num,
            page.tag_list@.len() == 0,
            page.post_list@.len() == 0,
    {
        Self::new(tags, page_num)
    }
}

} // verus!
