//! HTML documents as token streams.
//!
//! The `scraper` crate parses a document and selects the elements that match
//! a CSS selector. Each selected element is handed to the library as the
//! depth-first traversal of its subtree: one token when a node is entered
//! (`Open` for an element, `Text` for a text, `Other` for anything else) and
//! a `Close` token when it is left. Everything below navigates such a token
//! stream by position: an element is the position of its `Open` token, its
//! descendants are the positions up to its matching `Close`.
use vstd::prelude::*;
use crate::text::{chars_eq, chars_of, push_all};
use ego_tree::iter::Edge;
use scraper::{Html, Node, Selector};

verus! {

/// One edge of the traversal of an HTML subtree.
#[derive(Debug, Clone)]
pub enum HtmlToken {
    /// Entering an element: its local name and its attributes as
    /// `(namespace, local name, value)`.
    Open(String, Vec<(String, String, String)>),
    /// Entering a text node: its text.
    Text(String),
    /// Leaving a node.
    Close,
    /// Entering any other node (comment, doctype, document, ...).
    Other,
}

/// The mathematical value of an attribute: `(namespace, local name, value)`.
pub type AttrView = (Seq<char>, Seq<char>, Seq<char>);

/// The mathematical value of an [`HtmlToken`].
pub enum TokenView {
    Open(Seq<char>, Seq<AttrView>),
    Text(Seq<char>),
    Close,
    Other,
}

/// The view of an attribute.
pub open spec fn attr_view(a: (String, String, String)) -> AttrView {
    (a.0@, a.1@, a.2@)
}

impl View for HtmlToken {
    type V = TokenView;

    open spec fn view(&self) -> TokenView {
        match self {
            HtmlToken::Open(name, attrs) => TokenView::Open(
                name@,
                attrs@.map_values(|a: (String, String, String)| attr_view(a)),
            ),
            HtmlToken::Text(t) => TokenView::Text(t@),
            HtmlToken::Close => TokenView::Close,
            HtmlToken::Other => TokenView::Other,
        }
    }
}

/// The views of a token stream.
pub open spec fn tokens_view(ts: Seq<HtmlToken>) -> Seq<TokenView> {
    ts.map_values(|t: HtmlToken| t@)
}

/// The views of the result of a selection.
pub open spec fn selection_view(r: Option<Vec<Vec<HtmlToken>>>) -> Option<Seq<Seq<TokenView>>> {
    match r {
        Some(v) => Some(v@.map_values(|ts: Vec<HtmlToken>| tokens_view(ts@))),
        None => None,
    }
}

/// The result of parsing `document` with `scraper::Html::parse_document` and
/// selecting with `scraper::Selector::parse(selector)`: `None` when the
/// selector does not parse, else, for each selected element in the order of
/// `Html::select`, the traversal of its subtree.
pub uninterp spec fn selected_elements(document: Seq<char>, selector: Seq<char>) -> Option<
    Seq<Seq<TokenView>>,
>;

/// Parses `document` as HTML (`scraper::Html::parse_document`), parses
/// `selector` (`scraper::Selector::parse`) and returns, for each element of
/// `Html::select`, the edges of `ElementRef::traverse` converted one by one to
/// tokens; `None` when the selector does not parse. The result is named
/// `selected_elements`. The selector `ul#tag-list` (a type selector and an
/// id selector, valid CSS) always parses, so it always gives `Some`.
#[verifier::external_body]
pub(crate) fn select_elements(document: &str, selector: &str) -> (res: Option<Vec<Vec<HtmlToken>>>)
    ensures
        selection_view(res) == selected_elements(document@, selector@),
        selector@ == "ul#tag-list"@ ==> res is Some,
{
    let doc = Html::parse_document(document);
    let sel = Selector::parse(selector).ok()?;
    Some(doc.select(&sel).map(|el| el.traverse().map(|edge| match edge {
        Edge::Close(_) => HtmlToken::Close,
        Edge::Open(n) => match n.value() {
            Node::Element(e) => HtmlToken::Open(e.name().to_string(), e.attrs.iter().map(|(q, v)|
                (q.ns.to_string(), q.local.to_string(), v.to_string())).collect()),
            Node::Text(t) => HtmlToken::Text(t.to_string()),
            _ => HtmlToken::Other,
        },
    }).collect()).collect())
}

// ---------------------------------------------------------------------------
// Navigation by position
// ---------------------------------------------------------------------------

/// Scanning from `j` with `depth` nodes still open, the position of the
/// `Close` that ends the enclosing node (the length when there is none).
/// Every node, element, text or other, is entered by one token and left by
/// one `Close`.
pub open spec fn close_scan(ts: Seq<TokenView>, j: int, depth: nat) -> int
    decreases ts.len() - j,
{
    if j < 0 || j >= ts.len() {
        ts.len() as int
    } else {
        match ts[j] {
            TokenView::Close => if depth == 0 {
                j
            } else {
                close_scan(ts, j + 1, (depth - 1) as nat)
            },
            _ => close_scan(ts, j + 1, depth + 1),
        }
    }
}

/// The position of the `Close` matching the node entered at `i`; the
/// descendants of that node are the positions strictly between.
pub open spec fn element_end(ts: Seq<TokenView>, i: int) -> int {
    close_scan(ts, i + 1, 0)
}

/// A scan stays within `j..=len`.
pub proof fn lemma_close_scan_bounds(ts: Seq<TokenView>, j: int, depth: nat)
    requires
        0 <= j,
    ensures
        j <= close_scan(ts, j, depth) <= ts.len() || (j > ts.len() && close_scan(ts, j, depth)
            == ts.len()),
    decreases ts.len() - j,
{
    if j >= ts.len() {
    } else {
        match ts[j] {
            TokenView::Close => if depth != 0 {
                lemma_close_scan_bounds(ts, j + 1, (depth - 1) as nat)
            },
            _ => lemma_close_scan_bounds(ts, j + 1, depth + 1),
        }
    }
}

/// The position of the `Close` matching the node entered at `i`.
pub fn element_end_exec(ts: &Vec<HtmlToken>, i: usize) -> (end: usize)
    requires
        i < ts.len(),
    ensures
        end as int == element_end(tokens_view(ts@), i as int),
        i < end <= ts.len(),
{
    let ghost tv = tokens_view(ts@);
    let mut j = i + 1;
    let mut depth: usize = 0;
    proof {
        lemma_close_scan_bounds(tv, j as int, 0);
    }
    while j < ts.len()
        invariant
            i < j <= ts.len(),
            tv == tokens_view(ts@),
            depth <= j,
            close_scan(tv, j as int, depth as nat) == element_end(tv, i as int),
        decreases ts.len() - j,
    {
        match &ts[j] {
            HtmlToken::Close => {
                if depth == 0 {
                    return j;
                }
                depth -= 1;
            },
            _ => {
                depth += 1;
            },
        }
        j += 1;
    }
    j
}

/// The local name of the element entered at `i`, if `i` enters an element.
pub open spec fn element_name(ts: Seq<TokenView>, i: int) -> Option<Seq<char>> {
    if 0 <= i < ts.len() {
        match ts[i] {
            TokenView::Open(n, _) => Some(n),
            _ => None,
        }
    } else {
        None
    }
}

/// The positions in `lo..hi` that enter an element named `name`, in order.
///
/// For a lowercase ASCII name this is what `scraper::Selector::parse(name)`
/// selects: a type selector matches the elements with that local name.
pub open spec fn named_between(ts: Seq<TokenView>, name: Seq<char>, lo: int, hi: int) -> Seq<int>
    decreases hi - lo,
{
    if hi <= lo {
        Seq::empty()
    } else {
        named_between(ts, name, lo, hi - 1) + if element_name(ts, hi - 1) == Some(name) {
            seq![hi - 1]
        } else {
            Seq::empty()
        }
    }
}

/// `ElementRef::select` with a type selector: the descendants of the element
/// entered at `i` that are named `name`, in document order.
pub open spec fn descendants_named(ts: Seq<TokenView>, i: int, name: Seq<char>) -> Seq<int> {
    named_between(ts, name, i + 1, element_end(ts, i))
}

/// Every position listed by `named_between` lies in `lo..hi` and enters an
/// element named `name`.
pub proof fn lemma_named_between(ts: Seq<TokenView>, name: Seq<char>, lo: int, hi: int)
    ensures
        forall|k: int|
            0 <= k < named_between(ts, name, lo, hi).len() ==> lo <= #[trigger] named_between(
                ts,
                name,
                lo,
                hi,
            )[k] < hi && element_name(ts, named_between(ts, name, lo, hi)[k]) == Some(name),
    decreases hi - lo,
{
    if hi > lo {
        lemma_named_between(ts, name, lo, hi - 1);
    }
}

/// The concatenated text of the text nodes entered in `lo..hi`.
pub open spec fn text_between(ts: Seq<TokenView>, lo: int, hi: int) -> Seq<char>
    decreases hi - lo,
{
    if hi <= lo {
        Seq::empty()
    } else {
        text_between(ts, lo, hi - 1) + match ts[hi - 1] {
            TokenView::Text(t) => t,
            _ => Seq::empty(),
        }
    }
}

/// `ElementRef::text().collect::<String>()`: the text of the descendants of
/// the element entered at `i`.
pub open spec fn element_text(ts: Seq<TokenView>, i: int) -> Seq<char> {
    text_between(ts, i + 1, element_end(ts, i))
}

/// The concatenated text of the text nodes entered in `lo..hi`.
pub fn text_between_exec(ts: &Vec<HtmlToken>, lo: usize, hi: usize) -> (res: Vec<char>)
    requires
        lo <= hi <= ts.len(),
    ensures
        res@ == text_between(tokens_view(ts@), lo as int, hi as int),
{
    let ghost tv = tokens_view(ts@);
    let mut res: Vec<char> = Vec::new();
    let mut k = lo;
    while k < hi
        invariant
            lo <= k <= hi <= ts.len(),
            tv == tokens_view(ts@),
            res@ == text_between(tv, lo as int, k as int),
        decreases hi - k,
    {
        match &ts[k] {
            HtmlToken::Text(t) => {
                let cs = chars_of(t.as_str());
                push_all(&mut res, &cs);
            },
            _ => {
                assert(res@ =~= res@ + Seq::<char>::empty());
            },
        }
        k += 1;
    }
    res
}

/// `ElementRef::text().collect::<String>()` for the element entered at `i`.
pub fn element_text_exec(ts: &Vec<HtmlToken>, i: usize) -> (res: Vec<char>)
    requires
        i < ts.len(),
    ensures
        res@ == element_text(tokens_view(ts@), i as int),
{
    let end = element_end_exec(ts, i);
    text_between_exec(ts, i + 1, end)
}

/// The value of the attribute named `name` in no namespace (the lookup of
/// `Element::attr`).
pub open spec fn attr_lookup(attrs: Seq<AttrView>, name: Seq<char>) -> Option<Seq<char>>
    decreases attrs.len(),
{
    if attrs.len() == 0 {
        None
    } else if attrs[0].0.len() == 0 && attrs[0].1 == name {
        Some(attrs[0].2)
    } else {
        attr_lookup(attrs.drop_first(), name)
    }
}

/// `ElementRef::attr(name)` for the element entered at `i`.
pub open spec fn element_attr(ts: Seq<TokenView>, i: int, name: Seq<char>) -> Option<Seq<char>> {
    if 0 <= i < ts.len() {
        match ts[i] {
            TokenView::Open(_, attrs) => attr_lookup(attrs, name),
            _ => None,
        }
    } else {
        None
    }
}

/// `ElementRef::attr(name)` for the element entered at `i`.
pub fn element_attr_exec(ts: &Vec<HtmlToken>, i: usize, name: &str) -> (res: Option<Vec<char>>)
    requires
        i < ts.len(),
    ensures
        res matches Some(v) ==> element_attr(tokens_view(ts@), i as int, name@) == Some(v@),
        res is None ==> element_attr(tokens_view(ts@), i as int, name@) is None,
{
    match &ts[i] {
        HtmlToken::Open(_, attrs) => {
            let ghost av = attrs@.map_values(|a: (String, String, String)| attr_view(a));
            let want = chars_of(name);
            let mut k: usize = 0;
            assert(av.skip(0) =~= av);
            assert(tokens_view(ts@)[i as int] == ts@[i as int]@);
            assert(element_attr(tokens_view(ts@), i as int, name@) == attr_lookup(av, name@));
            while k < attrs.len()
                invariant
                    k <= attrs.len(),
                    want@ == name@,
                    av == attrs@.map_values(|a: (String, String, String)| attr_view(a)),
                    attr_lookup(av.skip(k as int), name@) == attr_lookup(av, name@),
                    element_attr(tokens_view(ts@), i as int, name@) == attr_lookup(av, name@),
                decreases attrs.len() - k,
            {
                let (ns, local, value) = &attrs[k];
                let local_chars = chars_of(local.as_str());
                assert(av.skip(k as int)[0] == attr_view(attrs@[k as int]));
                assert(av.skip(k as int).drop_first() =~= av.skip(k + 1));
                if ns.as_str().is_empty() && chars_eq(&local_chars, &want) {
                    let v = chars_of(value.as_str());
                    assert(av.skip(k as int)[0] == (ns@, local@, value@));
                    return Some(v);
                }
                proof {
                    if ns@.len() == 0 {
                        assert(local_chars@ != want@);
                    }
                }
                k += 1;
            }
            assert(av.skip(k as int) =~= Seq::<AttrView>::empty());
            assert(av.skip(0) =~= av);
            None
        },
        _ => None,
    }
}

/// Positions held in a `Vec<usize>`, as integers.
pub open spec fn positions(v: Seq<usize>) -> Seq<int> {
    v.map_values(|k: usize| k as int)
}

/// Whether the token at `k` enters an element named `name`.
pub fn is_named(ts: &Vec<HtmlToken>, k: usize, name: &Vec<char>) -> (res: bool)
    requires
        k < ts.len(),
    ensures
        res == (element_name(tokens_view(ts@), k as int) == Some(name@)),
{
    assert(tokens_view(ts@)[k as int] == ts@[k as int]@);
    match &ts[k] {
        HtmlToken::Open(n, _) => {
            let cs = chars_of(n.as_str());
            chars_eq(&cs, name)
        },
        _ => false,
    }
}

/// The positions in `lo..hi` that enter an element named `name`, in order.
pub fn named_between_exec(ts: &Vec<HtmlToken>, name: &Vec<char>, lo: usize, hi: usize) -> (res:
    Vec<usize>)
    requires
        lo <= hi <= ts.len(),
    ensures
        positions(res@) == named_between(tokens_view(ts@), name@, lo as int, hi as int),
{
    let ghost tv = tokens_view(ts@);
    let mut res: Vec<usize> = Vec::new();
    let mut k = lo;
    while k < hi
        invariant
            lo <= k <= hi <= ts.len(),
            tv == tokens_view(ts@),
            positions(res@) == named_between(tv, name@, lo as int, k as int),
        decreases hi - k,
    {
        let ghost before = res@;
        if is_named(ts, k, name) {
            res.push(k);
            assert(positions(res@) =~= positions(before) + seq![k as int]);
        } else {
            assert(positions(res@) =~= positions(before) + Seq::<int>::empty());
        }
        k += 1;
    }
    res
}

/// `ElementRef::select` with a type selector: the descendants of the element
/// entered at `i` named `name`, in document order.
pub fn descendants_named_exec(ts: &Vec<HtmlToken>, i: usize, name: &str) -> (res: Vec<usize>)
    requires
        i < ts.len(),
    ensures
        positions(res@) == descendants_named(tokens_view(ts@), i as int, name@),
        forall|k: int|
            0 <= k < res@.len() ==> i < #[trigger] res@[k] < ts.len() && element_name(
                tokens_view(ts@),
                res@[k] as int,
            ) == Some(name@),
{
    let end = element_end_exec(ts, i);
    let want = chars_of(name);
    let res = named_between_exec(ts, &want, i + 1, end);
    proof {
        let tv = tokens_view(ts@);
        lemma_named_between(tv, name@, i + 1, end as int);
        assert forall|k: int| 0 <= k < res@.len() implies i < #[trigger] res@[k] < ts.len()
            && element_name(tv, res@[k] as int) == Some(name@) by {
            assert(positions(res@)[k] == res@[k] as int);
        }
    }
    res
}

} // verus!
