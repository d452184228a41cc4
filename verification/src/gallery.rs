//! The local gallery: checking user paths, recognising images, paging image
//! lists, and summarising directory trees.
//!
//! Reading directories and files is the caller's part; the functions here
//! decide on what was read.
use vstd::prelude::*;
use crate::text::{
    chars_eq, chars_of, contains, copy_string, find, find_exec, lemma_find_from_occurs, lowercase, occurs_at,
    push_all, replace_all, replace_all_exec, replace_from, ends_with, starts_with,
    string_of, to_lowercase,
};

verus! {

// ---------------------------------------------------------------------------
// Paths
// ---------------------------------------------------------------------------

/// A path with NUL characters removed and backslashes turned into slashes.
pub open spec fn sanitized(path: Seq<char>) -> Seq<char> {
    replace_all(replace_all(path, seq!['\0'], Seq::empty()), seq!['\\'], seq!['/'])
}

/// Removes NUL characters and turns backslashes into slashes.
pub fn sanitize_path(path: &str) -> (res: String)
    ensures
        res@ == sanitized(path@),
{
    let p = chars_of(path);
    let mut nul: Vec<char> = Vec::new();
    nul.push('\0');
    let mut back: Vec<char> = Vec::new();
    back.push('\\');
    let mut slash: Vec<char> = Vec::new();
    slash.push('/');
    let no_nul = replace_all_exec(&p, &nul, &Vec::new());
    let res = replace_all_exec(&no_nul, &back, &slash);
    assert(nul@ =~= seq!['\0']);
    assert(back@ =~= seq!['\\']);
    assert(slash@ =~= seq!['/']);
    string_of(&res)
}

/// The error for a path that tries to leave its directory.
pub open spec fn traversal_error() -> Seq<char> {
    "\u{8def}\u{5f84}\u{5305}\u{542b}\u{975e}\u{6cd5}\u{5b57}\u{7b26}\u{6216}\u{8def}\u{5f84}\u{904d}\u{5386}\u{5c1d}\u{8bd5}"@
}

/// The error for a path holding a NUL character.
pub open spec fn illegal_char_error() -> Seq<char> {
    "\u{8def}\u{5f84}\u{5305}\u{542b}\u{975e}\u{6cd5}\u{5b57}\u{7b26}"@
}

/// What checking a path gives: a path whose sanitized form contains `..` is
/// refused, as is one that still holds a NUL character.
pub open spec fn path_check(path: Seq<char>) -> Result<(), Seq<char>> {
    let s = sanitized(path);
    if contains(s, ".."@) {
        Err(traversal_error())
    } else if contains(s, seq!['\0']) {
        Err(illegal_char_error())
    } else {
        Ok(())
    }
}

/// Checks a user-supplied path: no `..` after sanitizing.
pub fn validate_path(path: &str) -> (res: Result<(), String>)
    ensures
        match res {
            Ok(_) => path_check(path@) == Ok::<(), Seq<char>>(()),
            Err(e) => path_check(path@) == Err::<(), Seq<char>>(e@),
        },
{
    let s = sanitize_path(path);
    let sc = chars_of(s.as_str());
    match find_exec(&sc, &chars_of("..")) {
        Some(_) => {
            return Err(
                String::from_str(
                    "\u{8def}\u{5f84}\u{5305}\u{542b}\u{975e}\u{6cd5}\u{5b57}\u{7b26}\u{6216}\u{8def}\u{5f84}\u{904d}\u{5386}\u{5c1d}\u{8bd5}",
                ),
            );
        },
        None => {},
    }
    let mut nul: Vec<char> = Vec::new();
    nul.push('\0');
    assert(nul@ =~= seq!['\0']);
    match find_exec(&sc, &nul) {
        Some(_) => Err(
            String::from_str("\u{8def}\u{5f84}\u{5305}\u{542b}\u{975e}\u{6cd5}\u{5b57}\u{7b26}"),
        ),
        None => Ok(()),
    }
}

/// `s` has no character `c` from position `i` on.
pub open spec fn free_of(s: Seq<char>, c: char, i: int) -> bool {
    forall|k: int| i <= k < s.len() ==> s[k] != c
}

/// A one-character pattern occurs exactly where that character is.
proof fn lemma_occurs_single(s: Seq<char>, c: char, i: int)
    requires
        0 <= i < s.len(),
    ensures
        occurs_at(s, seq![c], i) <==> s[i] == c,
{
    if s[i] == c {
        assert(s.subrange(i, i + 1) =~= seq![c]);
    } else {
        assert(s.subrange(i, i + 1)[0] != seq![c][0]);
    }
}

/// Replacing a character `c` keeps out every character `d` that neither the
/// rest of `s` nor the replacement holds, and `c` itself when the
/// replacement does not hold it.
proof fn lemma_replace_keeps_out(s: Seq<char>, c: char, r: Seq<char>, i: int, d: char)
    requires
        0 <= i <= s.len(),
        free_of(r, d, 0),
        d == c || free_of(s, d, i),
    ensures
        free_of(replace_from(s, seq![c], r, i), d, 0),
    decreases s.len() - i,
{
    let out = replace_from(s, seq![c], r, i);
    if i < s.len() {
        lemma_occurs_single(s, c, i);
        if s[i] == c {
            lemma_replace_keeps_out(s, c, r, i + 1, d);
            assert(out == r + replace_from(s, seq![c], r, i + 1));
            assert forall|k: int| 0 <= k < out.len() implies out[k] != d by {
                if k >= r.len() {
                    assert(out[k] == replace_from(s, seq![c], r, i + 1)[k - r.len()]);
                }
            }
        } else {
            lemma_replace_keeps_out(s, c, r, i + 1, d);
            assert(out == seq![s[i]] + replace_from(s, seq![c], r, i + 1));
            assert forall|k: int| 0 <= k < out.len() implies out[k] != d by {
                if k >= 1 {
                    assert(out[k] == replace_from(s, seq![c], r, i + 1)[k - 1]);
                }
            }
        }
    } else {
        assert(out =~= Seq::<char>::empty());
    }
}

/// Replacing a character that does not occur changes nothing.
proof fn lemma_replace_absent(s: Seq<char>, c: char, r: Seq<char>, i: int)
    requires
        0 <= i <= s.len(),
        free_of(s, c, i),
    ensures
        replace_from(s, seq![c], r, i) == s.skip(i),
    decreases s.len() - i,
{
    if i < s.len() {
        lemma_occurs_single(s, c, i);
        lemma_replace_absent(s, c, r, i + 1);
        assert(seq![s[i]] + s.skip(i + 1) =~= s.skip(i));
    } else {
        assert(s.skip(i) =~= Seq::<char>::empty());
    }
}

/// A sanitized path holds no NUL character and no backslash, and sanitizing
/// it again changes nothing.
pub proof fn law_sanitize(path: Seq<char>)
    ensures
        free_of(sanitized(path), '\0', 0),
        free_of(sanitized(path), '\\', 0),
        sanitized(sanitized(path)) == sanitized(path),
{
    let t = replace_all(path, seq!['\0'], Seq::empty());
    lemma_replace_keeps_out(path, '\0', Seq::empty(), 0, '\0');
    let s = sanitized(path);
    lemma_replace_keeps_out(t, '\\', seq!['/'], 0, '\0');
    lemma_replace_keeps_out(t, '\\', seq!['/'], 0, '\\');
    lemma_replace_absent(s, '\0', Seq::empty(), 0);
    assert(s.skip(0) =~= s);
    lemma_replace_absent(s, '\\', seq!['/'], 0);
}

/// A path is accepted exactly when its sanitized form has no `..`.
pub proof fn law_validate_path(path: Seq<char>)
    ensures
        path_check(path) is Ok <==> !contains(sanitized(path), ".."@),
{
    law_sanitize(path);
    let s = sanitized(path);
    if contains(s, seq!['\0']) {
        lemma_find_from_occurs(s, seq!['\0'], 0);
        let k = find(s, seq!['\0'])->0;
        lemma_occurs_single(s, '\0', k);
    }
}

// ---------------------------------------------------------------------------
// Images
// ---------------------------------------------------------------------------

/// The extension of the file named by `path`, as `std::path::Path::extension`
/// finds it, when it is valid UTF-8.
pub uninterp spec fn path_extension(path: Seq<char>) -> Option<Seq<char>>;

/// Calls `std::path::Path::extension` on `path` and keeps the extension when
/// it is valid UTF-8; the result is named `path_extension`.
#[verifier::external_body]
pub(crate) fn extension_of(path: &str) -> (res: Option<String>)
    ensures
        match res {
            Some(e) => path_extension(path@) == Some(e@),
            None => path_extension(path@) is None,
        },
{
    std::path::Path::new(path).extension().and_then(|e| e.to_str()).map(|e| e.to_string())
}

/// The extensions of images, in lowercase.
pub open spec fn is_image_extension(e: Seq<char>) -> bool {
    e == "jpg"@ || e == "jpeg"@ || e == "png"@ || e == "gif"@ || e == "webp"@
}

/// A path names an image when its extension, lowercased, is one of
/// `jpg`, `jpeg`, `png`, `gif`, `webp`.
pub open spec fn names_image(path: Seq<char>) -> bool {
    match path_extension(path) {
        Some(e) => is_image_extension(lowercase(e)),
        None => false,
    }
}

/// Whether a lowercase extension is an image extension.
fn is_image_extension_exec(e: &Vec<char>) -> (res: bool)
    ensures
        res == is_image_extension(e@),
{
    chars_eq(e, &chars_of("jpg")) || chars_eq(e, &chars_of("jpeg")) || chars_eq(
        e,
        &chars_of("png"),
    ) || chars_eq(e, &chars_of("gif")) || chars_eq(e, &chars_of("webp"))
}

/// Whether `path` names an image, by its extension (any case).
pub fn is_image(path: &str) -> (res: bool)
    ensures
        res == names_image(path@),
{
    match extension_of(path) {
        Some(e) => {
            let lower = to_lowercase(e.as_str());
            is_image_extension_exec(&chars_of(lower.as_str()))
        },
        None => false,
    }
}

/// The content type of a local image by its lowercased extension; JPEG when
/// the extension is unknown or missing.
pub open spec fn content_type_for_extension(ext: Option<Seq<char>>) -> Seq<char> {
    match ext {
        Some(e) => if e == "png"@ {
            "image/png"@
        } else if e == "gif"@ {
            "image/gif"@
        } else if e == "webp"@ {
            "image/webp"@
        } else {
            "image/jpeg"@
        },
        None => "image/jpeg"@,
    }
}

/// The content type of the local image at `path`.
pub open spec fn local_content_type(path: Seq<char>) -> Seq<char> {
    content_type_for_extension(
        match path_extension(path) {
            Some(e) => Some(lowercase(e)),
            None => None,
        },
    )
}

/// The content type of the local image at `path`, by its extension.
pub fn content_type_of_path(path: &str) -> (res: &'static str)
    ensures
        res@ == local_content_type(path@),
{
    match extension_of(path) {
        Some(e) => {
            let lower = to_lowercase(e.as_str());
            let l = chars_of(lower.as_str());
            if chars_eq(&l, &chars_of("png")) {
                "image/png"
            } else if chars_eq(&l, &chars_of("gif")) {
                "image/gif"
            } else if chars_eq(&l, &chars_of("webp")) {
                "image/webp"
            } else {
                "image/jpeg"
            }
        },
        None => "image/jpeg",
    }
}

/// The content type of a remote image by the end of its URL.
pub open spec fn url_content_type(url: Seq<char>) -> Seq<char> {
    if ".png"@.is_suffix_of(url) {
        "image/png"@
    } else if ".gif"@.is_suffix_of(url) {
        "image/gif"@
    } else if ".webp"@.is_suffix_of(url) {
        "image/webp"@
    } else {
        "image/jpeg"@
    }
}

/// The content type of the remote image at `url`, by the end of the URL.
pub fn content_type_of_url(url: &str) -> (res: &'static str)
    ensures
        res@ == url_content_type(url@),
{
    let u = chars_of(url);
    if ends_with(&u, &chars_of(".png")) {
        "image/png"
    } else if ends_with(&u, &chars_of(".gif")) {
        "image/gif"
    } else if ends_with(&u, &chars_of(".webp")) {
        "image/webp"
    } else {
        "image/jpeg"
    }
}

/// The character of a 6-bit value in the standard base64 alphabet.
pub open spec fn base64_char(v: int) -> char {
    if v < 26 {
        ((v + 0x41) as u32) as char
    } else if v < 52 {
        ((v - 26 + 0x61) as u32) as char
    } else if v < 62 {
        ((v - 52 + 0x30) as u32) as char
    } else if v == 62 {
        '+'
    } else {
        '/'
    }
}

/// Standard base64 with padding: each group of three bytes becomes four
/// characters; a last group of one or two bytes is padded with `=`.
pub open spec fn base64_standard(b: Seq<u8>) -> Seq<char>
    decreases b.len(),
{
    if b.len() == 0 {
        Seq::empty()
    } else if b.len() == 1 {
        seq![base64_char((b[0] / 4) as int), base64_char((b[0] % 4) * 16), '=', '=']
    } else if b.len() == 2 {
        seq![
            base64_char((b[0] / 4) as int),
            base64_char((b[0] % 4) * 16 + b[1] / 16),
            base64_char((b[1] % 16) * 4),
            '=',
        ]
    } else {
        seq![
            base64_char((b[0] / 4) as int),
            base64_char((b[0] % 4) * 16 + b[1] / 16),
            base64_char((b[1] % 16) * 4 + b[2] / 64),
            base64_char((b[2] % 64) as int),
        ] + base64_standard(b.skip(3))
    }
}

/// Encodes `bytes` with `base64::engine::general_purpose::STANDARD`: the
/// standard alphabet with padding.
#[verifier::external_body]
fn base64_encode(bytes: &Vec<u8>) -> (res: String)
    requires
        bytes@.len() <= usize::MAX / 2,
    ensures
        res@ == base64_standard(bytes@),
{
    base64::Engine::encode(&base64::engine::general_purpose::STANDARD, bytes)
}

/// A `data:` URL holding `bytes` of the given content type in base64.
pub open spec fn data_url(content_type: Seq<char>, bytes: Seq<u8>) -> Seq<char> {
    "data:"@ + content_type + ";base64,"@ + base64_standard(bytes)
}

/// The `data:` URL of `bytes` with the given content type.
pub fn make_data_url(content_type: &str, bytes: &Vec<u8>) -> (res: String)
    requires
        bytes@.len() <= usize::MAX / 2,
    ensures
        res@ == data_url(content_type@, bytes@),
{
    let encoded = base64_encode(bytes);
    let mut out = chars_of("data:");
    push_all(&mut out, &chars_of(content_type));
    push_all(&mut out, &chars_of(";base64,"));
    push_all(&mut out, &chars_of(encoded.as_str()));
    string_of(&out)
}

/// A directory in the gallery tree.
#[derive(Debug)]
pub struct TreeNode {
    pub key: String,
    pub label: String,
    pub path: String,
    pub is_leaf: bool,
    pub image_count: usize,
    pub children: Option<Vec<TreeNode>>,
    pub thumbnail: Option<String>,
}

// ---------------------------------------------------------------------------
// Stable sorting
// ---------------------------------------------------------------------------

/// `sorted` with `x` put after every element that may stay before it, and
/// before the trailing elements that may not (one step of a stable
/// insertion sort).
pub open spec fn insert_stable<T>(sorted: Seq<T>, x: T, before: spec_fn(T, T) -> bool) -> Seq<T>
    decreases sorted.len(),
{
    if sorted.len() == 0 {
        seq![x]
    } else if before(sorted.last(), x) {
        sorted.push(x)
    } else {
        insert_stable(sorted.drop_last(), x, before).push(sorted.last())
    }
}

/// The stable sort of `s`: elements in the order `before` asks, equal
/// elements in their original order.
pub open spec fn stable_sort<T>(s: Seq<T>, before: spec_fn(T, T) -> bool) -> Seq<T>
    decreases s.len(),
{
    if s.len() == 0 {
        Seq::empty()
    } else {
        insert_stable(stable_sort(s.drop_last(), before), s.last(), before)
    }
}

/// Inserting below a run of trailing elements that may not stay before `x`
/// inserts into the part before them.
pub proof fn lemma_insert_stable_split<T>(
    sorted: Seq<T>,
    x: T,
    before: spec_fn(T, T) -> bool,
    pos: int,
)
    requires
        0 <= pos <= sorted.len(),
        forall|k: int| pos <= k < sorted.len() ==> !before(#[trigger] sorted[k], x),
    ensures
        insert_stable(sorted, x, before) == insert_stable(sorted.take(pos), x, before) + sorted.skip(
            pos,
        ),
    decreases sorted.len() - pos,
{
    if pos < sorted.len() {
        let p = sorted.drop_last();
        assert(!before(sorted[sorted.len() - 1], x));
        lemma_insert_stable_split(p, x, before, pos);
        assert(p.take(pos) =~= sorted.take(pos));
        assert(p.skip(pos).push(sorted.last()) =~= sorted.skip(pos));
    } else {
        assert(sorted.take(pos) =~= sorted);
        assert(sorted.skip(pos) =~= Seq::<T>::empty());
    }
}

/// Stable sorting keeps the number of elements.
pub proof fn lemma_stable_sort_len<T>(s: Seq<T>, before: spec_fn(T, T) -> bool)
    ensures
        stable_sort(s, before).len() == s.len(),
    decreases s.len(),
{
    if s.len() > 0 {
        lemma_stable_sort_len(s.drop_last(), before);
        lemma_insert_stable_len(stable_sort(s.drop_last(), before), s.last(), before);
    }
}

/// Inserting adds one element.
pub proof fn lemma_insert_stable_len<T>(sorted: Seq<T>, x: T, before: spec_fn(T, T) -> bool)
    ensures
        insert_stable(sorted, x, before).len() == sorted.len() + 1,
    decreases sorted.len(),
{
    if sorted.len() > 0 && !before(sorted.last(), x) {
        lemma_insert_stable_len(sorted.drop_last(), x, before);
    }
}

/// With a total and transitive order, inserting into a sorted sequence keeps
/// it sorted.
pub proof fn lemma_insert_stable_sorted<T>(sorted: Seq<T>, x: T, before: spec_fn(T, T) -> bool)
    requires
        forall|a: T, b: T| #[trigger] before(a, b) || before(b, a),
        forall|a: T, b: T, c: T| #[trigger] before(a, b) && #[trigger] before(b, c) ==> before(a, c),
        forall|i: int, j: int| 0 <= i < j < sorted.len() ==> before(sorted[i], sorted[j]),
    ensures
        forall|i: int, j: int|
            0 <= i < j < insert_stable(sorted, x, before).len() ==> before(
                insert_stable(sorted, x, before)[i],
                insert_stable(sorted, x, before)[j],
            ),
    decreases sorted.len(),
{
    let r = insert_stable(sorted, x, before);
    if sorted.len() == 0 {
    } else if before(sorted.last(), x) {
        assert forall|i: int, j: int| 0 <= i < j < r.len() implies before(r[i], r[j]) by {
            if j == r.len() - 1 && i < sorted.len() - 1 {
                assert(before(sorted[i], sorted[sorted.len() - 1]));
            }
        }
    } else {
        let p = sorted.drop_last();
        lemma_insert_stable_sorted(p, x, before);
        lemma_insert_stable_len(p, x, before);
        let rp = insert_stable(p, x, before);
        assert(before(x, sorted.last()));
        lemma_insert_stable_members(p, x, before);
        assert forall|i: int, j: int| 0 <= i < j < r.len() implies before(r[i], r[j]) by {
            if j == r.len() - 1 {
                assert(r[j] == sorted.last());
                assert(r[i] == rp[i]);
                if rp[i] != x {
                    let k = choose|k: int| 0 <= k < p.len() && p[k] == rp[i];
                    assert(before(sorted[k], sorted[sorted.len() - 1]));
                }
            }
        }
    }
}

/// Every element of an insertion is `x` or an element of `sorted`.
pub proof fn lemma_insert_stable_members<T>(sorted: Seq<T>, x: T, before: spec_fn(T, T) -> bool)
    ensures
        forall|i: int|
            0 <= i < insert_stable(sorted, x, before).len() ==> #[trigger] insert_stable(
                sorted,
                x,
                before,
            )[i] == x || exists|k: int|
                0 <= k < sorted.len() && sorted[k] == insert_stable(sorted, x, before)[i],
    decreases sorted.len(),
{
    let r = insert_stable(sorted, x, before);
    if sorted.len() > 0 && !before(sorted.last(), x) {
        let p = sorted.drop_last();
        lemma_insert_stable_members(p, x, before);
        lemma_insert_stable_len(p, x, before);
        assert forall|i: int| 0 <= i < r.len() implies #[trigger] r[i] == x || exists|k: int|
            0 <= k < sorted.len() && sorted[k] == r[i] by {
            if i == r.len() - 1 {
                assert(sorted[sorted.len() - 1] == r[i]);
            } else {
                let rp = insert_stable(p, x, before);
                assert(r[i] == rp[i]);
                if rp[i] != x {
                    let k = choose|k: int| 0 <= k < p.len() && p[k] == rp[i];
                    assert(sorted[k] == r[i]);
                }
            }
        }
    } else if sorted.len() > 0 {
        assert forall|i: int| 0 <= i < r.len() implies #[trigger] r[i] == x || exists|k: int|
            0 <= k < sorted.len() && sorted[k] == r[i] by {
            if i < sorted.len() {
                assert(sorted[i] == r[i]);
            }
        }
    }
}

/// With a total and transitive order, a stable sort is sorted.
pub proof fn law_stable_sort_sorted<T>(s: Seq<T>, before: spec_fn(T, T) -> bool)
    requires
        forall|a: T, b: T| #[trigger] before(a, b) || before(b, a),
        forall|a: T, b: T, c: T| #[trigger] before(a, b) && #[trigger] before(b, c) ==> before(a, c),
    ensures
        forall|i: int, j: int|
            0 <= i < j < stable_sort(s, before).len() ==> before(
                stable_sort(s, before)[i],
                stable_sort(s, before)[j],
            ),
    decreases s.len(),
{
    if s.len() > 0 {
        law_stable_sort_sorted(s.drop_last(), before);
        lemma_insert_stable_sorted(stable_sort(s.drop_last(), before), s.last(), before);
    }
}

// ---------------------------------------------------------------------------
// Image lists
// ---------------------------------------------------------------------------

/// An image file: its full path and its file name.
#[derive(Debug, Clone)]
pub struct ImageInfo {
    pub path: String,
    pub name: String,
}

/// One page of a folder's images, newest first.
#[derive(Debug)]
pub struct PaginatedImages {
    pub images: Vec<ImageInfo>,
    pub total: usize,
    pub has_more: bool,
}

/// An image found while listing: its path and its modification time, in
/// nanoseconds from the Unix epoch (negative before it).
pub type TimedPath = (String, i128);

/// The mathematical value of a [`TimedPath`].
pub open spec fn timed_view(t: (String, i128)) -> (Seq<char>, i128) {
    (t.0@, t.1)
}

/// The views of a list of timed paths.
pub open spec fn timed_views(v: Seq<(String, i128)>) -> Seq<(Seq<char>, i128)> {
    v.map_values(|t: (String, i128)| timed_view(t))
}

/// An older-or-equal image may follow a newer one.
pub open spec fn newer_or_same(a: (Seq<char>, i128), b: (Seq<char>, i128)) -> bool {
    a.1 >= b.1
}

/// The images, newest first; images of the same time keep their order.
pub open spec fn newest_first(v: Seq<(Seq<char>, i128)>) -> Seq<(Seq<char>, i128)> {
    stable_sort(v, |a: (Seq<char>, i128), b: (Seq<char>, i128)| newer_or_same(a, b))
}

/// The part of a path after its last `/` or `\` (the whole path when there is
/// none).
pub open spec fn last_segment(p: Seq<char>) -> Seq<char>
    decreases p.len(),
{
    if p.len() == 0 {
        Seq::empty()
    } else if p.last() == '/' || p.last() == '\\' {
        Seq::empty()
    } else {
        last_segment(p.drop_last()).push(p.last())
    }
}

/// The file name shown for a path.
pub fn file_name_of(path: &String) -> (res: String)
    ensures
        res@ == last_segment(path@),
{
    let p = chars_of(path.as_str());
    let mut start = p.len();
    assert(p@.take(start as int) =~= p@);
    assert(p@.skip(start as int) =~= Seq::<char>::empty());
    while start > 0 && p[start - 1] != '/' && p[start - 1] != '\\'
        invariant
            start <= p.len(),
            last_segment(p@) == last_segment(p@.take(start as int)) + p@.skip(start as int),
        decreases start,
    {
        let ghost t = p@.take(start as int);
        assert(t.drop_last() =~= p@.take(start - 1));
        assert(seq![p@[start - 1]] + p@.skip(start as int) =~= p@.skip(start - 1));
        assert(last_segment(t) == last_segment(t.drop_last()).push(t.last()));
        assert(last_segment(t.drop_last()).push(t.last()) + p@.skip(start as int) =~= last_segment(
            t.drop_last(),
        ) + p@.skip(start - 1));
        start -= 1;
    }
    assert(last_segment(p@.take(start as int)) =~= Seq::<char>::empty());
    assert(p@.take(p@.len() as int) =~= p@);
    let mut name: Vec<char> = Vec::new();
    let mut k = start;
    while k < p.len()
        invariant
            start <= k <= p.len(),
            name@ == p@.subrange(start as int, k as int),
        decreases p.len() - k,
    {
        name.push(p[k]);
        k += 1;
        assert(name@ =~= p@.subrange(start as int, k as int));
    }
    assert(p@.skip(start as int) =~= p@.subrange(start as int, p@.len() as int));
    assert(last_segment(p@) =~= name@);
    string_of(&name)
}

/// Sorts timed paths newest first, keeping the order of equal times.
pub fn sort_newest_first(items: Vec<TimedPath>) -> (res: Vec<TimedPath>)
    ensures
        timed_views(res@) == newest_first(timed_views(items@)),
{
    let ghost iv = timed_views(items@);
    let ghost before = |a: (Seq<char>, i128), b: (Seq<char>, i128)| newer_or_same(a, b);
    let mut out: Vec<(String, i128)> = Vec::new();
    let mut rest = items;
    let ghost n = rest.len();
    let mut k: usize = 0;
    while rest.len() > 0
        invariant
            k + rest.len() == n,
            n == iv.len(),
            timed_views(rest@) == iv.skip(k as int),
            timed_views(out@) == stable_sort(iv.take(k as int), before),
            before == (|a: (Seq<char>, i128), b: (Seq<char>, i128)| newer_or_same(a, b)),
        decreases rest.len(),
    {
        let ghost old_rest = rest@;
        let x = rest.remove(0);
        assert(timed_views(old_rest)[0] == timed_view(x));
        assert(iv.skip(k as int)[0] == iv[k as int]);
        assert(timed_views(rest@) =~= timed_views(old_rest).drop_first());
        assert(iv.skip(k as int).drop_first() =~= iv.skip(k + 1));
        assert(iv.take(k + 1).drop_last() =~= iv.take(k as int));
        let ghost sorted = timed_views(out@);
        let mut pos = out.len();
        while pos > 0 && out[pos - 1].1 < x.1
            invariant
                pos <= out.len(),
                sorted == timed_views(out@),
                forall|j: int| pos <= j < sorted.len() ==> !before(#[trigger] sorted[j], timed_view(x)),
                before == (|a: (Seq<char>, i128), b: (Seq<char>, i128)| newer_or_same(a, b)),
            decreases pos,
        {
            assert(sorted[pos - 1] == timed_view(out@[pos - 1]));
            pos -= 1;
        }
        proof {
            lemma_insert_stable_split(sorted, timed_view(x), before, pos as int);
            if pos > 0 {
                assert(sorted[pos - 1] == timed_view(out@[pos - 1]));
                assert(sorted.take(pos as int).last() == sorted[pos - 1]);
            } else {
                assert(sorted.take(0) =~= Seq::<(Seq<char>, i128)>::empty());
            }
        }
        let ghost old_out = out@;
        out.insert(pos, x);
        assert(timed_views(out@) =~= sorted.take(pos as int).push(timed_view(x)) + sorted.skip(
            pos as int,
        ));
        k += 1;
    }
    assert(iv.take(k as int) =~= iv);
    out
}

/// The number of images on the pages before page `page` (counted from 1; 0
/// counts as 1).
pub open spec fn page_skip(page: usize, page_size: usize) -> int {
    (if page > 0 {
        page - 1
    } else {
        0
    }) * page_size
}

/// The images of page `page` of size `page_size`, as (path, name) pairs.
pub open spec fn page_of(sorted: Seq<(Seq<char>, i128)>, skip: int, page_size: int) -> Seq<
    (Seq<char>, Seq<char>),
> {
    let lo = if skip < sorted.len() {
        skip
    } else {
        sorted.len() as int
    };
    let hi = if skip + page_size < sorted.len() {
        skip + page_size
    } else {
        sorted.len() as int
    };
    sorted.subrange(lo, hi).map_values(|t: (Seq<char>, i128)| (t.0, last_segment(t.0)))
}

/// The views of a list of images.
pub open spec fn images_view(v: Seq<ImageInfo>) -> Seq<(Seq<char>, Seq<char>)> {
    v.map_values(|i: ImageInfo| (i.path@, i.name@))
}

/// Page `page` (default 1) of `page_size` (default 50) images of the folder
/// whose images are `items`: newest first, with the total and whether later
/// pages hold more.
pub fn paginate_images(items: Vec<TimedPath>, page: Option<usize>, page_size: Option<usize>) -> (res:
    PaginatedImages)
    requires
        page_skip(
            match page {
                Some(p) => p,
                None => 1,
            },
            match page_size {
                Some(s) => s,
                None => 50,
            },
        ) + match page_size {
            Some(s) => s as int,
            None => 50,
        } <= usize::MAX,
    ensures
        ({
            let p = match page {
                Some(p) => p,
                None => 1,
            };
            let size = match page_size {
                Some(s) => s,
                None => 50,
            };
            let sorted = newest_first(timed_views(items@));
            &&& res.total == items@.len()
            &&& res.has_more == (page_skip(p, size) + size < items@.len())
            &&& images_view(res.images@) == page_of(sorted, page_skip(p, size), size as int)
        }),
{
    let p = match page {
        Some(p) => p,
        None => 1,
    };
    let size = match page_size {
        Some(s) => s,
        None => 50,
    };
    let before_pages: usize = if p > 0 {
        p - 1
    } else {
        0
    };
    let skip = before_pages * size;
    let total = items.len();
    let sorted = sort_newest_first(items);
    proof {
        lemma_stable_sort_len(
            timed_views(items@),
            |a: (Seq<char>, i128), b: (Seq<char>, i128)| newer_or_same(a, b),
        );
    }
    let ghost sv = timed_views(sorted@);
    let lo = if skip < sorted.len() {
        skip
    } else {
        sorted.len()
    };
    let hi = if skip + size < sorted.len() {
        skip + size
    } else {
        sorted.len()
    };
    let mut images: Vec<ImageInfo> = Vec::new();
    let mut k = lo;
    while k < hi
        invariant
            lo <= k <= hi <= sorted.len(),
            sv == timed_views(sorted@),
            images_view(images@) == sv.subrange(lo as int, k as int).map_values(
                |t: (Seq<char>, i128)| (t.0, last_segment(t.0)),
            ),
        decreases hi - k,
    {
        let path = copy_string(&sorted[k].0);
        let name = file_name_of(&sorted[k].0);
        assert(sv[k as int] == timed_view(sorted@[k as int]));
        let ghost before = images@;
        images.push(ImageInfo { path, name });
        assert(images_view(images@) =~= images_view(before).push(
            (sv[k as int].0, last_segment(sv[k as int].0)),
        ));
        assert(images_view(images@) =~= sv.subrange(lo as int, k + 1).map_values(
            |t: (Seq<char>, i128)| (t.0, last_segment(t.0)),
        ));
        k += 1;
    }
    PaginatedImages { images, total, has_more: skip + size < total }
}

/// With more images than fit before it, a page is full or holds the rest:
/// pages hold `page_size` images each, the last one what remains.
pub proof fn law_page_sizes(sorted: Seq<(Seq<char>, i128)>, skip: int, page_size: int)
    requires
        0 <= skip,
        0 <= page_size,
    ensures
        page_of(sorted, skip, page_size).len() == if skip >= sorted.len() {
            0
        } else if skip + page_size <= sorted.len() {
            page_size
        } else {
            sorted.len() - skip
        },
{
}

/// Newest first means every image is at least as new as the ones after it.
pub proof fn law_newest_first_sorted(v: Seq<(Seq<char>, i128)>)
    ensures
        newest_first(v).len() == v.len(),
        forall|i: int, j: int|
            0 <= i < j < newest_first(v).len() ==> newest_first(v)[i].1 >= newest_first(v)[j].1,
{
    let before = |a: (Seq<char>, i128), b: (Seq<char>, i128)| newer_or_same(a, b);
    lemma_stable_sort_len(v, before);
    law_stable_sort_sorted(v, before);
}

// ---------------------------------------------------------------------------
// Folders
// ---------------------------------------------------------------------------

/// The folder to list: the user's folder once checked, else the download
/// folder from the settings (possibly empty).
pub open spec fn folder_choice(folder_path: Option<Seq<char>>, db_path: Seq<char>) -> Result<
    Seq<char>,
    Seq<char>,
> {
    match folder_path {
        Some(p) => match path_check(p) {
            Ok(_) => Ok(p),
            Err(e) => Err(e),
        },
        None => Ok(db_path),
    }
}

/// Chooses the folder to list (see [`folder_choice`]).
pub fn choose_folder(folder_path: Option<String>, db_path: String) -> (res: Result<String, String>)
    ensures
        match res {
            Ok(p) => folder_choice(
                match folder_path {
                    Some(f) => Some(f@),
                    None => None,
                },
                db_path@,
            ) == Ok::<Seq<char>, Seq<char>>(p@),
            Err(e) => folder_choice(
                match folder_path {
                    Some(f) => Some(f@),
                    None => None,
                },
                db_path@,
            ) == Err::<Seq<char>, Seq<char>>(e@),
        },
{
    match folder_path {
        Some(p) => match validate_path(p.as_str()) {
            Ok(_) => Ok(p),
            Err(e) => Err(e),
        },
        None => Ok(db_path),
    }
}

/// A subfolder shown in a folder listing.
#[derive(Debug, Clone)]
pub struct SubDirInfo {
    pub path: String,
    pub name: String,
    pub image_count: usize,
    pub thumbnail: Option<String>,
}

/// A folder listing: its subfolders holding images, and its own images,
/// newest first.
#[derive(Debug)]
pub struct DirectoryImages {
    pub subdirs: Vec<SubDirInfo>,
    pub images: Vec<ImageInfo>,
    pub total: usize,
}

/// A subfolder as found while listing: its path, its file name if any, the
/// number of images below it, and the first of them.
pub type SubDirScan = (String, Option<String>, usize, Option<String>);

/// The name shown for a subfolder without a file name.
pub open spec fn unnamed() -> Seq<char> {
    "\u{672a}\u{547d}\u{540d}"@
}

/// The view of an optional string.
pub open spec fn opt_string(o: Option<String>) -> Option<Seq<char>> {
    match o {
        Some(s) => Some(s@),
        None => None,
    }
}

/// The subfolders shown for the scanned ones: those holding images, named
/// by their file name or as unnamed.
pub open spec fn shown_subdirs(scans: Seq<SubDirScan>) -> Seq<
    (Seq<char>, Seq<char>, usize, Option<Seq<char>>),
>
    decreases scans.len(),
{
    if scans.len() == 0 {
        Seq::empty()
    } else {
        let s = scans.last();
        shown_subdirs(scans.drop_last()) + if s.2 > 0 {
            seq![
                (
                    s.0@,
                    match s.1 {
                        Some(n) => n@,
                        None => unnamed(),
                    },
                    s.2,
                    opt_string(s.3),
                ),
            ]
        } else {
            Seq::empty()
        }
    }
}

/// The views of a list of subfolders.
pub open spec fn subdirs_view(v: Seq<SubDirInfo>) -> Seq<
    (Seq<char>, Seq<char>, usize, Option<Seq<char>>),
> {
    v.map_values(|d: SubDirInfo| (d.path@, d.name@, d.image_count, opt_string(d.thumbnail)))
}

/// The listing of a folder from its scanned subfolders and its own images.
pub fn directory_listing(scans: Vec<SubDirScan>, images: Vec<TimedPath>) -> (res:
    DirectoryImages)
    ensures
        subdirs_view(res.subdirs@) == shown_subdirs(scans@),
        images_view(res.images@) == page_of(
            newest_first(timed_views(images@)),
            0,
            images@.len() as int,
        ),
        res.total == images@.len(),
{
    let ghost sc = scans@;
    let mut subdirs: Vec<SubDirInfo> = Vec::new();
    let mut rest = scans;
    let mut k: usize = 0;
    let ghost n = rest.len();
    while rest.len() > 0
        invariant
            k + rest.len() == n,
            n == sc.len(),
            rest@ == sc.skip(k as int),
            subdirs_view(subdirs@) == shown_subdirs(sc.take(k as int)),
        decreases rest.len(),
    {
        let ghost old_rest = rest@;
        let s = rest.remove(0);
        assert(sc.skip(k as int)[0] == sc[k as int]);
        assert(rest@ =~= sc.skip(k + 1));
        assert(sc.take(k + 1).drop_last() =~= sc.take(k as int));
        let ghost before = subdirs@;
        let (path, file_name, count, first) = s;
        if count > 0 {
            let name = match file_name {
                Some(n) => n,
                None => String::from_str("\u{672a}\u{547d}\u{540d}"),
            };
            subdirs.push(SubDirInfo { path, name, image_count: count, thumbnail: first });
            assert(subdirs_view(subdirs@) =~= subdirs_view(before) + shown_subdirs(
                sc.take(k + 1),
            ).skip(subdirs_view(before).len() as int));
        } else {
            assert(subdirs_view(subdirs@) =~= subdirs_view(before) + Seq::empty());
        }
        k += 1;
    }
    assert(sc.take(k as int) =~= sc);
    let total = images.len();
    assert(page_skip(1, total) == 0) by (nonlinear_arith);
    let page = paginate_images(images, Some(1), Some(total));
    DirectoryImages { subdirs, images: page.images, total }
}

// ---------------------------------------------------------------------------
// Directory trees
// ---------------------------------------------------------------------------

/// The total of the children's image counts.
pub open spec fn children_count(children: Seq<TreeNode>) -> int
    decreases children.len(),
{
    if children.len() == 0 {
        0
    } else {
        children_count(children.drop_last()) + children.last().image_count
    }
}

/// The first thumbnail among the children, in order.
pub open spec fn first_child_thumbnail(children: Seq<TreeNode>) -> Option<Seq<char>>
    decreases children.len(),
{
    if children.len() == 0 {
        None
    } else {
        match first_child_thumbnail(children.drop_last()) {
            Some(t) => Some(t),
            None => opt_string(children.last().thumbnail),
        }
    }
}

/// The first image of a directory: its own first image, else the first
/// thumbnail among its subdirectories.
pub open spec fn first_image(own: Seq<String>, children: Seq<TreeNode>) -> Option<Seq<char>> {
    if own.len() > 0 {
        Some(own[0]@)
    } else {
        first_child_thumbnail(children)
    }
}

/// With no child holding a thumbnail, there is no first one.
proof fn lemma_no_child_thumbnail(children: Seq<TreeNode>)
    requires
        forall|j: int| 0 <= j < children.len() ==> (#[trigger] children[j]).thumbnail is None,
    ensures
        first_child_thumbnail(children) is None,
    decreases children.len(),
{
    if children.len() > 0 {
        assert(children.last() == children[children.len() - 1]);
        assert forall|j: int| 0 <= j < children.len() - 1 implies (
        #[trigger] children.drop_last()[j]).thumbnail is None by {
            assert(children.drop_last()[j] == children[j]);
        }
        lemma_no_child_thumbnail(children.drop_last());
    }
}

/// A folder's first image is its own first image when it has one; else it
/// is the thumbnail of the earliest subfolder, in reading order, that has
/// one, and there is none when no subfolder has one.
pub proof fn law_first_image_earliest(own: Seq<String>, children: Seq<TreeNode>, k: int)
    ensures
        own.len() > 0 ==> first_image(own, children) == Some(own[0]@),
        own.len() == 0 && 0 <= k < children.len() && children[k].thumbnail is Some && (forall|j: int|
            0 <= j < k ==> (#[trigger] children[j]).thumbnail is None) ==> first_image(own, children)
            == opt_string(children[k].thumbnail),
        own.len() == 0 && (forall|j: int|
            0 <= j < children.len() ==> (#[trigger] children[j]).thumbnail is None) ==> first_image(
            own,
            children,
        ) is None,
{
    if own.len() == 0 {
        if forall|j: int| 0 <= j < children.len() ==> (#[trigger] children[j]).thumbnail is None {
            lemma_no_child_thumbnail(children);
        }
        if 0 <= k < children.len() && children[k].thumbnail is Some && (forall|j: int|
            0 <= j < k ==> (#[trigger] children[j]).thumbnail is None) {
            lemma_earliest_child_thumbnail(children, k);
        }
    }
}

/// The first thumbnail among the children is that of the earliest child
/// holding one.
proof fn lemma_earliest_child_thumbnail(children: Seq<TreeNode>, k: int)
    requires
        0 <= k < children.len(),
        children[k].thumbnail is Some,
        forall|j: int| 0 <= j < k ==> (#[trigger] children[j]).thumbnail is None,
    ensures
        first_child_thumbnail(children) == opt_string(children[k].thumbnail),
    decreases children.len(),
{
    let p = children.drop_last();
    if k < children.len() - 1 {
        assert(p[k] == children[k]);
        assert forall|j: int| 0 <= j < k implies (#[trigger] p[j]).thumbnail is None by {
            assert(p[j] == children[j]);
        }
        lemma_earliest_child_thumbnail(p, k);
    } else {
        assert forall|j: int| 0 <= j < p.len() implies (#[trigger] p[j]).thumbnail is None by {
            assert(p[j] == children[j]);
        }
        lemma_no_child_thumbnail(p);
        assert(children.last() == children[k]);
    }
}

/// Sums the children's image counts and finds their first thumbnail.
fn children_summary(children: &Vec<TreeNode>) -> (res: (usize, Option<String>))
    requires
        children_count(children@) <= usize::MAX,
    ensures
        res.0 == children_count(children@),
        opt_string(res.1) == first_child_thumbnail(children@),
{
    let mut count: usize = 0;
    let mut first: Option<String> = None;
    let mut j: usize = 0;
    proof {
        lemma_children_count_prefix(children@, 0);
    }
    while j < children.len()
        invariant
            j <= children.len(),
            children_count(children@) <= usize::MAX,
            count == children_count(children@.take(j as int)),
            opt_string(first) == first_child_thumbnail(children@.take(j as int)),
        decreases children.len() - j,
    {
        assert(children@.take(j + 1).drop_last() =~= children@.take(j as int));
        proof {
            lemma_children_count_prefix(children@, j + 1);
        }
        count = count + children[j].image_count;
        if first.is_none() {
            first = match &children[j].thumbnail {
                Some(t) => Some(copy_string(t)),
                None => None,
            };
        }
        j += 1;
    }
    assert(children@.take(j as int) =~= children@);
    (count, first)
}

/// A prefix of the children never counts more than all of them.
pub proof fn lemma_children_count_prefix(children: Seq<TreeNode>, j: int)
    requires
        0 <= j <= children.len(),
    ensures
        0 <= children_count(children.take(j)) <= children_count(children),
    decreases children.len(),
{
    if children.len() > 0 {
        if j == children.len() {
            assert(children.take(j) =~= children);
            lemma_children_count_prefix(children.drop_last(), j - 1);
            assert(children.drop_last().take(j - 1) =~= children.drop_last());
        } else {
            lemma_children_count_prefix(children.drop_last(), j);
            assert(children.drop_last().take(j) =~= children.take(j));
        }
    }
}

/// The node of a directory from its own images (in reading order) and the
/// nodes of its subdirectories that hold images: none when no image is
/// below it; else its images are its own and those below, its thumbnail the
/// first image, and it is a leaf when no subdirectory holds images.
pub fn dir_node(path: String, label: String, own_images: &Vec<String>, children: Vec<TreeNode>) -> (res:
    Option<TreeNode>)
    requires
        own_images@.len() + children_count(children@) <= usize::MAX,
    ensures
        own_images@.len() + children_count(children@) == 0 ==> res is None,
        own_images@.len() + children_count(children@) > 0 ==> (match res {
            Some(n) => {
                &&& n.key@ == path@
                &&& n.path@ == path@
                &&& n.label@ == label@
                &&& n.is_leaf == (children@.len() == 0)
                &&& n.image_count == own_images@.len() + children_count(children@)
                &&& n.children == Some(children)
                &&& opt_string(n.thumbnail) == first_image(own_images@, children@)
            },
            None => false,
        }),
{
    let (below, child_first) = children_summary(&children);
    let count = own_images.len() + below;
    if count == 0 {
        return None;
    }
    let thumbnail = if own_images.len() > 0 {
        Some(copy_string(&own_images[0]))
    } else {
        child_first
    };
    let is_leaf = children.len() == 0;
    Some(
        TreeNode {
            key: copy_string(&path),
            label,
            path,
            is_leaf,
            image_count: count,
            children: Some(children),
            thumbnail,
        },
    )
}

/// The image count and first image of a directory from its own images and
/// its subdirectories' (count, first image) summaries.
pub open spec fn summary_count(children: Seq<(usize, Option<String>)>) -> int
    decreases children.len(),
{
    if children.len() == 0 {
        0
    } else {
        summary_count(children.drop_last()) + children.last().0
    }
}

/// The first image among the subdirectories' summaries, in order.
pub open spec fn summary_first(children: Seq<(usize, Option<String>)>) -> Option<Seq<char>>
    decreases children.len(),
{
    if children.len() == 0 {
        None
    } else {
        match summary_first(children.drop_last()) {
            Some(t) => Some(t),
            None => opt_string(children.last().1),
        }
    }
}

/// A prefix of the summaries never counts more than all of them.
pub proof fn lemma_summary_count_prefix(children: Seq<(usize, Option<String>)>, j: int)
    requires
        0 <= j <= children.len(),
    ensures
        0 <= summary_count(children.take(j)) <= summary_count(children),
    decreases children.len(),
{
    if children.len() > 0 {
        if j == children.len() {
            assert(children.take(j) =~= children);
            lemma_summary_count_prefix(children.drop_last(), j - 1);
            assert(children.drop_last().take(j - 1) =~= children.drop_last());
        } else {
            lemma_summary_count_prefix(children.drop_last(), j);
            assert(children.drop_last().take(j) =~= children.take(j));
        }
    }
}

/// The number of images in a directory and below it, and the first of them:
/// its own images first, then each subdirectory's in order.
pub fn dir_summary(own_images: &Vec<String>, children: &Vec<(usize, Option<String>)>) -> (res: (
    usize,
    Option<String>,
))
    requires
        own_images@.len() + summary_count(children@) <= usize::MAX,
    ensures
        res.0 == own_images@.len() + summary_count(children@),
        opt_string(res.1) == if own_images@.len() > 0 {
            Some(own_images@[0]@)
        } else {
            summary_first(children@)
        },
{
    let mut count: usize = own_images.len();
    let mut first: Option<String> = if own_images.len() > 0 {
        Some(copy_string(&own_images[0]))
    } else {
        None
    };
    let mut j: usize = 0;
    proof {
        lemma_summary_count_prefix(children@, 0);
    }
    while j < children.len()
        invariant
            j <= children.len(),
            own_images@.len() + summary_count(children@) <= usize::MAX,
            count == own_images@.len() + summary_count(children@.take(j as int)),
            opt_string(first) == if own_images@.len() > 0 {
                Some(own_images@[0]@)
            } else {
                summary_first(children@.take(j as int))
            },
        decreases children.len() - j,
    {
        assert(children@.take(j + 1).drop_last() =~= children@.take(j as int));
        proof {
            lemma_summary_count_prefix(children@, j + 1);
        }
        count = count + children[j].0;
        if first.is_none() {
            first = match &children[j].1 {
                Some(t) => Some(copy_string(t)),
                None => None,
            };
        }
        j += 1;
    }
    assert(children@.take(j as int) =~= children@);
    (count, first)
}

/// `a` sorts before `b` as strings do: by characters, a proper prefix first.
pub open spec fn label_lt(a: Seq<char>, b: Seq<char>) -> bool
    decreases a.len(),
{
    if a.len() == 0 {
        b.len() > 0
    } else if b.len() == 0 {
        false
    } else if (a[0] as u32) != (b[0] as u32) {
        (a[0] as u32) < (b[0] as u32)
    } else {
        label_lt(a.drop_first(), b.drop_first())
    }
}

/// Whether `a` sorts before `b`.
fn label_lt_exec(a: &Vec<char>, b: &Vec<char>) -> (res: bool)
    ensures
        res == label_lt(a@, b@),
{
    let mut i: usize = 0;
    assert(a@.skip(0) =~= a@);
    assert(b@.skip(0) =~= b@);
    while i < a.len() && i < b.len() && (a[i] as u32) == (b[i] as u32)
        invariant
            i <= a.len(),
            i <= b.len(),
            label_lt(a@, b@) == label_lt(a@.skip(i as int), b@.skip(i as int)),
        decreases a.len() - i,
    {
        assert(a@.skip(i as int).drop_first() =~= a@.skip(i + 1));
        assert(b@.skip(i as int).drop_first() =~= b@.skip(i + 1));
        i += 1;
    }
    if i == a.len() {
        i < b.len()
    } else if i == b.len() {
        false
    } else {
        assert(a@.skip(i as int)[0] == a@[i as int]);
        assert(b@.skip(i as int)[0] == b@[i as int]);
        (a[i] as u32) < (b[i] as u32)
    }
}

/// A node may stay before another when its label is not greater.
pub open spec fn label_not_after(a: TreeNode, b: TreeNode) -> bool {
    !label_lt(b.label@, a.label@)
}

/// Sorts nodes by label, keeping the order of equal labels.
pub fn sort_by_label(nodes: Vec<TreeNode>) -> (res: Vec<TreeNode>)
    ensures
        res@ == stable_sort(nodes@, |a: TreeNode, b: TreeNode| label_not_after(a, b)),
{
    let ghost nv = nodes@;
    let ghost before = |a: TreeNode, b: TreeNode| label_not_after(a, b);
    let mut out: Vec<TreeNode> = Vec::new();
    let mut rest = nodes;
    let ghost n = rest.len();
    let mut k: usize = 0;
    while rest.len() > 0
        invariant
            k + rest.len() == n,
            n == nv.len(),
            rest@ == nv.skip(k as int),
            out@ == stable_sort(nv.take(k as int), before),
            before == (|a: TreeNode, b: TreeNode| label_not_after(a, b)),
        decreases rest.len(),
    {
        let x = rest.remove(0);
        assert(nv.skip(k as int)[0] == nv[k as int]);
        assert(rest@ =~= nv.skip(k + 1));
        assert(nv.take(k + 1).drop_last() =~= nv.take(k as int));
        let ghost sorted = out@;
        let xl = chars_of(x.label.as_str());
        let mut pos = out.len();
        while pos > 0 && label_lt_exec(&xl, &chars_of(out[pos - 1].label.as_str()))
            invariant
                pos <= out.len(),
                sorted == out@,
                xl@ == x.label@,
                forall|j: int| pos <= j < sorted.len() ==> !before(#[trigger] sorted[j], x),
                before == (|a: TreeNode, b: TreeNode| label_not_after(a, b)),
            decreases pos,
        {
            pos -= 1;
        }
        proof {
            lemma_insert_stable_split(sorted, x, before, pos as int);
            if pos == 0 {
                assert(sorted.take(0) =~= Seq::<TreeNode>::empty());
            }
        }
        out.insert(pos, x);
        assert(out@ =~= sorted.take(pos as int).push(x) + sorted.skip(pos as int));
        k += 1;
    }
    assert(nv.take(k as int) =~= nv);
    out
}

/// The tree of a gallery root from its own images and the nodes of its
/// subdirectories that hold images (in reading order): always one node,
/// whose images are its own and those below, whose thumbnail is the first
/// image, and whose children, sorted by label, are absent when there are
/// none.
pub fn root_tree(path: String, label: String, own_images: &Vec<String>, children: Vec<TreeNode>) -> (res:
    Vec<TreeNode>)
    requires
        own_images@.len() + children_count(children@) <= usize::MAX,
    ensures
        res@.len() == 1,
        res@[0].key@ == path@,
        res@[0].path@ == path@,
        res@[0].label@ == label@,
        res@[0].is_leaf == (children@.len() == 0),
        res@[0].image_count == own_images@.len() + children_count(children@),
        opt_string(res@[0].thumbnail) == first_image(own_images@, children@),
        children@.len() == 0 ==> res@[0].children is None,
        children@.len() > 0 ==> (match res@[0].children {
            Some(c) => c@ == stable_sort(children@, |a: TreeNode, b: TreeNode| label_not_after(a, b)),
            None => false,
        }),
{
    let (below, child_first) = children_summary(&children);
    let count = own_images.len() + below;
    let thumbnail = if own_images.len() > 0 {
        Some(copy_string(&own_images[0]))
    } else {
        child_first
    };
    let is_leaf = children.len() == 0;
    let sorted = if is_leaf {
        None
    } else {
        Some(sort_by_label(children))
    };
    let mut res: Vec<TreeNode> = Vec::new();
    res.push(
        TreeNode {
            key: copy_string(&path),
            label,
            path,
            is_leaf,
            image_count: count,
            children: sorted,
            thumbnail,
        },
    );
    res
}

// ---------------------------------------------------------------------------
// Paths inside a base folder
// ---------------------------------------------------------------------------

/// What `std::path::Path::join` followed by `to_string_lossy` gives for
/// `base` and `path`. It depends on the two texts alone (and on the target
/// platform the library is built for).
pub uninterp spec fn joined_path(base: Seq<char>, path: Seq<char>) -> Seq<char>;

/// Joins `path` onto `base` with `std::path::Path::join` and converts the
/// result lossily to a string. The contract only ties the result to the two
/// texts by [`joined_path`]; how the parts combine (separators, absolute
/// paths, drive prefixes) is left to std.
#[verifier::external_body]
fn join_path(base: &str, path: &str) -> (res: String)
    ensures
        res@ == joined_path(base@, path@),
{
    std::path::Path::new(base).join(path).to_string_lossy().into_owned()
}

/// Whether `c` separates path components on the target platform, as
/// `std::path::is_separator` answers.
pub uninterp spec fn path_separator(c: char) -> bool;

/// Calls `std::path::is_separator`. Its documentation: `/` is a separator
/// on every platform, and Windows also accepts `\\`; nothing else is one.
#[verifier::external_body]
fn is_separator(c: char) -> (res: bool)
    ensures
        res == path_separator(c),
        c == '/' ==> res,
        res ==> c == '/' || c == '\\',
{
    std::path::is_separator(c)
}

/// `p` lies in the folder `base`, compared by whole path components: `p` is
/// `base` itself, or `base` followed by a separator and more. A base that
/// already ends in a separator only has to be a prefix of `p`.
pub open spec fn within_base(p: Seq<char>, base: Seq<char>) -> bool {
    ||| p == base
    ||| base.is_prefix_of(p) && base.len() > 0 && path_separator(base.last())
    ||| base.is_prefix_of(p) && p.len() > base.len() && path_separator(p[base.len() as int])
}

/// The error for a base folder that cannot be resolved.
pub open spec fn base_error(e: Seq<char>) -> Seq<char> {
    "\u{65e0}\u{6cd5}\u{8bbf}\u{95ee}\u{57fa}\u{7840}\u{76ee}\u{5f55}: "@ + e
}

/// The error for a path that cannot be resolved.
pub open spec fn access_error(e: Seq<char>) -> Seq<char> {
    "\u{65e0}\u{6cd5}\u{8bbf}\u{95ee}\u{8def}\u{5f84}: "@ + e
}

/// The error for a path outside the base folder.
pub open spec fn outside_error() -> Seq<char> {
    "\u{8def}\u{5f84}\u{8d85}\u{51fa}\u{5141}\u{8bb8}\u{8303}\u{56f4}"@
}

/// The view of a string result.
pub open spec fn result_view(r: Result<String, String>) -> Result<Seq<char>, Seq<char>> {
    match r {
        Ok(s) => Ok(s@),
        Err(e) => Err(e@),
    }
}

/// Whether `p` lies in `base`.
fn within_base_exec(p: &Vec<char>, base: &Vec<char>) -> (res: bool)
    ensures
        res == within_base(p@, base@),
{
    if !starts_with(p, base) {
        assert(p@ != base@ ==> !within_base(p@, base@));
        assert(p@ == base@ ==> base@.is_prefix_of(p@));
        return false;
    }
    if p.len() == base.len() {
        assert(p@ =~= base@);
        return true;
    }
    if base.len() > 0 && is_separator(base[base.len() - 1]) {
        return true;
    }
    is_separator(p[base.len()])
}

/// Checks that `path` stays inside the folder `base_dir`, from what the
/// file system said: whether `path` exists, its canonical form, and the
/// canonical form of the base (each as a text or the error's text). A path
/// that fails [`validate_path`] is refused first. An existing path must have
/// a canonical form inside the canonical base, and is returned in that form.
/// A path that does not exist yet is joined onto the canonical base; the
/// joined path is returned when it lies inside the base.
pub fn validate_path_within_base(
    path: &str,
    path_exists: bool,
    canonical_path: Result<String, String>,
    canonical_base: Result<String, String>,
) -> (res: Result<String, String>)
    ensures
        path_check(path@) matches Err(e) ==> result_view(res) == Err::<Seq<char>, Seq<char>>(e),
        path_check(path@) is Ok && !path_exists ==> match result_view(canonical_base) {
            Err(e) => result_view(res) == Err::<Seq<char>, Seq<char>>(base_error(e)),
            Ok(b) => result_view(res) == if within_base(joined_path(b, path@), b) {
                Ok::<Seq<char>, Seq<char>>(joined_path(b, path@))
            } else {
                Err::<Seq<char>, Seq<char>>(outside_error())
            },
        },
        path_check(path@) is Ok && path_exists ==> match result_view(canonical_path) {
            Err(e) => result_view(res) == Err::<Seq<char>, Seq<char>>(access_error(e)),
            Ok(p) => match result_view(canonical_base) {
                Err(e) => result_view(res) == Err::<Seq<char>, Seq<char>>(base_error(e)),
                Ok(b) => result_view(res) == if within_base(p, b) {
                    Ok::<Seq<char>, Seq<char>>(p)
                } else {
                    Err::<Seq<char>, Seq<char>>(outside_error())
                },
            },
        },
{
    match validate_path(path) {
        Ok(_) => {},
        Err(e) => return Err(e),
    }
    let base_prefix = "\u{65e0}\u{6cd5}\u{8bbf}\u{95ee}\u{57fa}\u{7840}\u{76ee}\u{5f55}: ";
    if !path_exists {
        let base = match canonical_base {
            Ok(b) => b,
            Err(e) => {
                let mut m = chars_of(base_prefix);
                push_all(&mut m, &chars_of(e.as_str()));
                return Err(string_of(&m));
            },
        };
        let expected = join_path(base.as_str(), path);
        if !within_base_exec(&chars_of(expected.as_str()), &chars_of(base.as_str())) {
            return Err(String::from_str("\u{8def}\u{5f84}\u{8d85}\u{51fa}\u{5141}\u{8bb8}\u{8303}\u{56f4}"));
        }
        return Ok(expected);
    }
    let canonical = match canonical_path {
        Ok(p) => p,
        Err(e) => {
            let mut m = chars_of("\u{65e0}\u{6cd5}\u{8bbf}\u{95ee}\u{8def}\u{5f84}: ");
            push_all(&mut m, &chars_of(e.as_str()));
            return Err(string_of(&m));
        },
    };
    let base = match canonical_base {
        Ok(b) => b,
        Err(e) => {
            let mut m = chars_of(base_prefix);
            push_all(&mut m, &chars_of(e.as_str()));
            return Err(string_of(&m));
        },
    };
    if !within_base_exec(&chars_of(canonical.as_str()), &chars_of(base.as_str())) {
        return Err(String::from_str("\u{8def}\u{5f84}\u{8d85}\u{51fa}\u{5141}\u{8bb8}\u{8303}\u{56f4}"));
    }
    Ok(canonical)
}

/// Inserting adds `x` to the elements.
pub proof fn lemma_insert_stable_multiset<T>(sorted: Seq<T>, x: T, before: spec_fn(T, T) -> bool)
    ensures
        insert_stable(sorted, x, before).to_multiset() =~= sorted.to_multiset().insert(x),
    decreases sorted.len(),
{
    broadcast use vstd::seq_lib::to_multiset_build;
    broadcast use vstd::multiset::group_multiset_axioms;

    if sorted.len() == 0 {
        assert(seq![x] =~= Seq::<T>::empty().push(x));
        assert(sorted =~= Seq::<T>::empty());
    } else if before(sorted.last(), x) {
    } else {
        let p = sorted.drop_last();
        lemma_insert_stable_multiset(p, x, before);
        assert(sorted =~= p.push(sorted.last()));
    }
}

/// A stable sort keeps every element, as many times as it occurs.
pub proof fn law_stable_sort_permutation<T>(s: Seq<T>, before: spec_fn(T, T) -> bool)
    ensures
        stable_sort(s, before).to_multiset() =~= s.to_multiset(),
    decreases s.len(),
{
    broadcast use vstd::seq_lib::to_multiset_build;
    broadcast use vstd::multiset::group_multiset_axioms;

    if s.len() == 0 {
        assert(stable_sort(s, before) =~= Seq::<T>::empty());
        assert(s =~= Seq::<T>::empty());
    } else {
        law_stable_sort_permutation(s.drop_last(), before);
        lemma_insert_stable_multiset(stable_sort(s.drop_last(), before), s.last(), before);
        assert(s =~= s.drop_last().push(s.last()));
    }
}

/// Sorting a sequence that is already in order changes nothing; in
/// particular equal elements keep their order.
pub proof fn law_stable_sort_keeps_sorted<T>(s: Seq<T>, before: spec_fn(T, T) -> bool)
    requires
        forall|i: int, j: int| 0 <= i < j < s.len() ==> before(s[i], s[j]),
    ensures
        stable_sort(s, before) == s,
    decreases s.len(),
{
    if s.len() > 0 {
        let p = s.drop_last();
        assert forall|i: int, j: int| 0 <= i < j < p.len() implies before(p[i], p[j]) by {
            assert(p[i] == s[i] && p[j] == s[j]);
        }
        law_stable_sort_keeps_sorted(p, before);
        if p.len() > 0 {
            assert(before(s[p.len() - 1], s[s.len() - 1]));
            assert(p.last() == s[p.len() - 1]);
        }
        assert(p.push(s.last()) =~= s);
    }
}

/// The string order is asymmetric.
pub proof fn lemma_label_lt_asym(a: Seq<char>, b: Seq<char>)
    ensures
        !(label_lt(a, b) && label_lt(b, a)),
    decreases a.len(),
{
    if a.len() > 0 && b.len() > 0 && (a[0] as u32) == (b[0] as u32) {
        lemma_label_lt_asym(a.drop_first(), b.drop_first());
    }
}

/// If `c` sorts before `a`, any `b` sorts after `c` or before `a`.
pub proof fn lemma_label_lt_split(c: Seq<char>, a: Seq<char>, b: Seq<char>)
    requires
        label_lt(c, a),
    ensures
        label_lt(c, b) || label_lt(b, a),
    decreases a.len(),
{
    if c.len() > 0 && b.len() > 0 {
        if (b[0] as u32) == (a[0] as u32) && (c[0] as u32) == (a[0] as u32) {
            lemma_label_lt_split(c.drop_first(), a.drop_first(), b.drop_first());
        }
    }
}

/// No node of `v` has a label greater than a later node's.
pub open spec fn labels_ascending(v: Seq<TreeNode>) -> bool {
    forall|i: int, j: int| #![trigger v[i], v[j]] 0 <= i < j < v.len() ==> !label_lt(v[j].label@, v[i].label@)
}

/// Children sorted by label come in label order.
pub proof fn law_children_sorted_by_label(children: Seq<TreeNode>)
    ensures
        labels_ascending(stable_sort(children, |a: TreeNode, b: TreeNode| label_not_after(a, b))),
{
    let before = |a: TreeNode, b: TreeNode| label_not_after(a, b);
    assert forall|a: TreeNode, b: TreeNode| #[trigger] before(a, b) || before(b, a) by {
        lemma_label_lt_asym(a.label@, b.label@);
    }
    assert forall|a: TreeNode, b: TreeNode, c: TreeNode| #[trigger] before(a, b) && #[trigger] before(
        b,
        c,
    ) implies before(a, c) by {
        if label_lt(c.label@, a.label@) {
            lemma_label_lt_split(c.label@, a.label@, b.label@);
        }
    }
    law_stable_sort_sorted(children, before);
}

} // verus!
