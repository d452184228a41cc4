//! Indexing the gallery: thumbnail sizes and file names, the decisions taken
//! for each scanned image, and pages of indexed images.
use vstd::prelude::*;
use crate::text::{chars_eq, chars_of, decimal, decimal_u64, push_all, replace_all, replace_all_exec, string_of};

verus! {

/// The two thumbnail sizes.
#[derive(Debug, Clone, Copy, PartialEq, Eq, Structural)]
pub enum ThumbnailSize {
    /// 320 by 320, for gallery cards.
    Card,
    /// 60 by 72, for the filmstrip.
    Filmstrip,
}

/// The bounding box of a thumbnail size (width, height).
pub open spec fn size_dimensions(s: ThumbnailSize) -> (u32, u32) {
    match s {
        ThumbnailSize::Card => (320, 320),
        ThumbnailSize::Filmstrip => (60, 72),
    }
}

/// The name of a thumbnail size.
pub open spec fn size_label(s: ThumbnailSize) -> Seq<char> {
    match s {
        ThumbnailSize::Card => "card"@,
        ThumbnailSize::Filmstrip => "filmstrip"@,
    }
}

impl ThumbnailSize {
    /// The bounding box of the size (width, height).
    pub fn dimensions(&self) -> (res: (u32, u32))
        ensures
            res == size_dimensions(*self),
    {
        match self {
            ThumbnailSize::Card => (320, 320),
            ThumbnailSize::Filmstrip => (60, 72),
        }
    }

    /// The name of the size.
    pub fn size_name(&self) -> (res: &'static str)
        ensures
            res@ == size_label(*self),
    {
        match self {
            ThumbnailSize::Card => "card",
            ThumbnailSize::Filmstrip => "filmstrip",
        }
    }

    /// The size asked for by name: `filmstrip`, else the card size.
    pub fn from_size_type(name: &str) -> (res: ThumbnailSize)
        ensures
            res == if name@ == "filmstrip"@ {
                ThumbnailSize::Filmstrip
            } else {
                ThumbnailSize::Card
            },
    {
        if chars_eq(&chars_of(name), &chars_of("filmstrip")) {
            ThumbnailSize::Filmstrip
        } else {
            ThumbnailSize::Card
        }
    }

    /// The size of a requested bounding box: the card size for 320 by 320
    /// (the default of each side), the filmstrip size otherwise.
    pub fn for_request(max_width: Option<u32>, max_height: Option<u32>) -> (res: ThumbnailSize)
        ensures
            res == if unwrap_or_320(max_width) == 320 && unwrap_or_320(max_height) == 320 {
                ThumbnailSize::Card
            } else {
                ThumbnailSize::Filmstrip
            },
    {
        let w = match max_width {
            Some(w) => w,
            None => 320,
        };
        let h = match max_height {
            Some(h) => h,
            None => 320,
        };
        if w == 320 && h == 320 {
            ThumbnailSize::Card
        } else {
            ThumbnailSize::Filmstrip
        }
    }

    /// The other size.
    pub fn other(&self) -> (res: ThumbnailSize)
        ensures
            res != *self,
    {
        match self {
            ThumbnailSize::Card => ThumbnailSize::Filmstrip,
            ThumbnailSize::Filmstrip => ThumbnailSize::Card,
        }
    }
}

/// A requested side, 320 when not given.
pub open spec fn unwrap_or_320(o: Option<u32>) -> u32 {
    match o {
        Some(v) => v,
        None => 320,
    }
}

/// The sizes name different thumbnails, and asking for a size by its own
/// name or bounding box gives it back.
pub proof fn law_size_round_trip(s: ThumbnailSize)
    ensures
        (if size_label(s) == "filmstrip"@ {
            ThumbnailSize::Filmstrip
        } else {
            ThumbnailSize::Card
        }) == s,
        (if size_dimensions(s).0 == 320 && size_dimensions(s).1 == 320 {
            ThumbnailSize::Card
        } else {
            ThumbnailSize::Filmstrip
        }) == s,
{
    reveal_strlit("card");
    reveal_strlit("filmstrip");
    if s == ThumbnailSize::Card {
        assert(size_label(s).len() != "filmstrip"@.len());
    }
}

/// The hash of a source path and a size name by
/// `std::collections::hash_map::DefaultHasher::new()`.
pub uninterp spec fn thumb_hash(source_path: Seq<char>, size_name: Seq<char>) -> u64;

/// Hashes `source_path`, then `size_name`, with a new
/// `std::collections::hash_map::DefaultHasher` (fixed keys, so the same
/// values give the same hash); the result is named `thumb_hash`.
#[verifier::external_body]
fn hash_source_and_size(source_path: &str, size_name: &str) -> (res: u64)
    ensures
        res == thumb_hash(source_path@, size_name@),
{
    let mut hasher = std::collections::hash_map::DefaultHasher::new();
    std::hash::Hash::hash(source_path, &mut hasher);
    std::hash::Hash::hash(size_name, &mut hasher);
    std::hash::Hasher::finish(&hasher)
}

/// The file name of the thumbnail of `source_path` at a size: the hash of
/// the path and size name, `_`, the size name, `.jpg`.
pub open spec fn thumb_filename(source_path: Seq<char>, size: ThumbnailSize) -> Seq<char> {
    decimal(thumb_hash(source_path, size_label(size)) as nat) + "_"@ + size_label(size) + ".jpg"@
}

/// The file name of the thumbnail of `source_path` at `size`.
pub fn compute_thumb_filename(source_path: &str, size: &ThumbnailSize) -> (res: String)
    ensures
        res@ == thumb_filename(source_path@, *size),
{
    let name = size.size_name();
    let h = hash_source_and_size(source_path, name);
    let mut out = decimal_u64(h);
    push_all(&mut out, &chars_of("_"));
    push_all(&mut out, &chars_of(name));
    push_all(&mut out, &chars_of(".jpg"));
    string_of(&out)
}

// ---------------------------------------------------------------------------
// Scanning
// ---------------------------------------------------------------------------

/// The outcome of a gallery scan.
#[derive(Debug, Clone, Copy, PartialEq, Eq, Structural)]
pub struct ScanResult {
    pub new_images: usize,
    pub updated_images: usize,
    pub total_images: usize,
}

/// A request to make one thumbnail.
#[derive(Debug, Clone)]
pub struct ThumbnailJob {
    pub image_id: i64,
    pub source_path: String,
    pub dest_path: String,
    pub max_width: u32,
    pub max_height: u32,
}

/// What to do with a scanned image, given its index entry.
#[derive(Debug, Clone, Copy, PartialEq, Eq, Structural)]
pub enum IndexAction {
    /// Not indexed yet: add it.
    Insert,
    /// Indexed under this id and changed since: index it again.
    Reindex(i64),
    /// Indexed under this id and unchanged.
    Keep(i64),
}

/// The action for an image modified at `mtime` whose index entry, if any,
/// is (id, modification time when indexed).
pub open spec fn index_action(existing: Option<(i64, i64)>, mtime: i64) -> IndexAction {
    match existing {
        Some((id, indexed)) => if indexed < mtime {
            IndexAction::Reindex(id)
        } else {
            IndexAction::Keep(id)
        },
        None => IndexAction::Insert,
    }
}

/// Decides what to do with a scanned image (see [`index_action`]).
pub fn decide_index_action(existing: Option<(i64, i64)>, mtime: i64) -> (res: IndexAction)
    ensures
        res == index_action(existing, mtime),
{
    match existing {
        Some((id, indexed)) => if indexed < mtime {
            IndexAction::Reindex(id)
        } else {
            IndexAction::Keep(id)
        },
        None => IndexAction::Insert,
    }
}

/// Whether a scanned image gets thumbnail jobs: only an image that was not
/// indexed before does.
pub fn needs_thumbnails(a: &IndexAction) -> (res: bool)
    ensures
        res == (*a is Insert),
{
    match a {
        IndexAction::Insert => true,
        _ => false,
    }
}

/// The counts of a scan after one more image with the given action.
pub open spec fn count_action(r: ScanResult, a: IndexAction) -> ScanResult {
    ScanResult {
        new_images: (r.new_images + if a is Insert {
            1int
        } else {
            0
        }) as usize,
        updated_images: (r.updated_images + if a is Reindex {
            1int
        } else {
            0
        }) as usize,
        total_images: (r.total_images + 1) as usize,
        ..r
    }
}

impl ScanResult {
    /// No image seen yet.
    pub fn new() -> (res: Self)
        ensures
            res == (ScanResult { new_images: 0, updated_images: 0, total_images: 0 }),
    {
        ScanResult { new_images: 0, updated_images: 0, total_images: 0 }
    }

    /// Counts one more image with the given action.
    pub fn record(&mut self, a: IndexAction)
        requires
            old(self).total_images < usize::MAX,
            old(self).new_images <= old(self).total_images,
            old(self).updated_images <= old(self).total_images,
        ensures
            *final(self) == count_action(*old(self), a),
            final(self).new_images <= final(self).total_images,
            final(self).updated_images <= final(self).total_images,
    {
        self.total_images = self.total_images + 1;
        match a {
            IndexAction::Insert => {
                self.new_images = self.new_images + 1;
            },
            IndexAction::Reindex(_) => {
                self.updated_images = self.updated_images + 1;
            },
            IndexAction::Keep(_) => {},
        }
    }
}

/// A scanned path as stored in the index: backslashes turned into slashes.
pub open spec fn index_path(path: Seq<char>) -> Seq<char> {
    replace_all(path, seq!['\\'], seq!['/'])
}

/// The path under which a scanned file is indexed.
pub fn normalize_index_path(path: &str) -> (res: String)
    ensures
        res@ == index_path(path@),
{
    let mut back: Vec<char> = Vec::new();
    back.push('\\');
    let mut slash: Vec<char> = Vec::new();
    slash.push('/');
    assert(back@ =~= seq!['\\']);
    assert(slash@ =~= seq!['/']);
    string_of(&replace_all_exec(&chars_of(path), &back, &slash))
}

/// The thumbnail jobs for an image: the card size, then the filmstrip size,
/// each when its destination is known.
pub fn thumbnail_jobs(
    image_id: i64,
    source_path: &String,
    card_dest: Option<String>,
    filmstrip_dest: Option<String>,
) -> (res: Vec<ThumbnailJob>)
    ensures
        res@.len() == (if card_dest is Some {
            1int
        } else {
            0
        }) + (if filmstrip_dest is Some {
            1int
        } else {
            0
        }),
        forall|k: int|
            0 <= k < res@.len() ==> (#[trigger] res@[k]).image_id == image_id
                && res@[k].source_path@ == source_path@,
        card_dest matches Some(d) ==> res@[0].dest_path == d && res@[0].max_width == 320
            && res@[0].max_height == 320,
        filmstrip_dest matches Some(d) ==> res@.last().dest_path == d && res@.last().max_width
            == 60 && res@.last().max_height == 72,
{
    let mut jobs: Vec<ThumbnailJob> = Vec::new();
    match card_dest {
        Some(d) => {
            jobs.push(
                ThumbnailJob {
                    image_id,
                    source_path: crate::text::copy_string(source_path),
                    dest_path: d,
                    max_width: 320,
                    max_height: 320,
                },
            );
        },
        None => {},
    }
    match filmstrip_dest {
        Some(d) => {
            jobs.push(
                ThumbnailJob {
                    image_id,
                    source_path: crate::text::copy_string(source_path),
                    dest_path: d,
                    max_width: 60,
                    max_height: 72,
                },
            );
        },
        None => {},
    }
    jobs
}

/// Whether a finished job made the card-size thumbnail, which becomes the
/// image's primary thumbnail.
pub fn is_card_job(job: &ThumbnailJob) -> (res: bool)
    ensures
        res == (job.max_width == 320 && job.max_height == 320),
{
    job.max_width == 320 && job.max_height == 320
}

// ---------------------------------------------------------------------------
// Pages of indexed images
// ---------------------------------------------------------------------------

/// An indexed image as shown.
#[derive(Debug, Clone)]
pub struct IndexedImage {
    pub id: i64,
    pub file_path: String,
    pub file_name: String,
    pub file_size: i64,
    pub width: i64,
    pub height: i64,
    pub thumbnail_path: Option<String>,
    pub last_scanned: i64,
}

/// One page of indexed images.
#[derive(Debug)]
pub struct IndexedImagesResult {
    pub images: Vec<IndexedImage>,
    pub total: usize,
    pub has_more: bool,
}

/// The offset and size of page `page` (default 1, 0 counts as 1) of
/// `page_size` (default 50) images.
pub open spec fn page_window(page: Option<usize>, page_size: Option<usize>) -> (int, int) {
    let p = match page {
        Some(p) => p,
        None => 1usize,
    };
    let size = match page_size {
        Some(s) => s,
        None => 50usize,
    };
    (
        (if p > 0 {
            p - 1
        } else {
            0
        }) * size,
        size as int,
    )
}

/// The offset and size of the requested page of indexed images.
pub fn indexed_page_window(page: Option<usize>, page_size: Option<usize>) -> (res: (usize, usize))
    requires
        page_window(page, page_size).0 + page_window(page, page_size).1 <= usize::MAX,
    ensures
        res.0 == page_window(page, page_size).0,
        res.1 == page_window(page, page_size).1,
{
    let p = match page {
        Some(p) => p,
        None => 1,
    };
    let size = match page_size {
        Some(s) => s,
        None => 50,
    };
    let before: usize = if p > 0 {
        p - 1
    } else {
        0
    };
    assert(before * size <= usize::MAX) by (nonlinear_arith)
        requires
            before * size + size <= usize::MAX,
            size >= 0,
    ;
    (before * size, size)
}

/// A page of indexed images: the rows found at `offset`, the total, and
/// whether more pages follow.
pub fn indexed_images_result(images: Vec<IndexedImage>, total: usize, offset: usize, page_size: usize) -> (res:
    IndexedImagesResult)
    requires
        offset + page_size <= usize::MAX,
    ensures
        res.images@ == images@,
        res.total == total,
        res.has_more == (offset + page_size < total),
{
    IndexedImagesResult { images, total, has_more: offset + page_size < total }
}

} // verus!
