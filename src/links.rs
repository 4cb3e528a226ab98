//! Link extraction: the `href` values of the elements of a page that a CSS
//! selector matches.

use vstd::prelude::*;
use crate::error::AppError;
use crate::text::views;

verus! {

/// A matched element of a page: its `href` attribute, if it has one, and the
/// text nodes below it in document order.
pub struct Anchor {
    pub href: Option<String>,
    pub texts: Vec<String>,
}

/// The view of an anchor: its `href`, if any, and its text nodes.
pub type AnchorView = (Option<Seq<char>>, Seq<Seq<char>>);

impl View for Anchor {
    type V = AnchorView;

    open spec fn view(&self) -> AnchorView {
        (
            match self.href {
                Some(h) => Some(h@),
                None => None,
            },
            views(self.texts@),
        )
    }
}

/// The views of a sequence of anchors.
pub open spec fn anchor_views(v: Seq<Anchor>) -> Seq<AnchorView> {
    v.map_values(|a: Anchor| a@)
}

/// The elements of the HTML document `html` that the CSS selector `selector`
/// matches, in document order; `None` where `selector` does not parse.
pub uninterp spec fn selected_anchors(html: Seq<char>, selector: Seq<char>) -> Option<
    Seq<(Option<Seq<char>>, Seq<Seq<char>>)>,
>;

/// Relies on scraper's `Selector::parse`, `Html::parse_document` and
/// `Html::select`: the matched elements of a document depend on its text and
/// on the selector alone.
#[verifier::external_body]
fn select_anchors(html: &str, selector: &str) -> (r: Option<Vec<Anchor>>)
    ensures
        match r {
            None => selected_anchors(html@, selector@) is None,
            Some(v) => selected_anchors(html@, selector@) == Some(anchor_views(v@)),
        },
{
    let selector = scraper::Selector::parse(selector).ok()?;
    let document = scraper::Html::parse_document(html);
    let anchors = document.select(&selector).map(
        |e| Anchor {
            href: e.value().attr("href").map(|h| h.to_string()),
            texts: e.text().map(|t| t.to_string()).collect(),
        },
    ).collect();
    Some(anchors)
}

/// The present, non-empty `href` values of `a`, in order.
pub open spec fn hrefs_spec(a: Seq<AnchorView>) -> Seq<Seq<char>>
    decreases a.len(),
{
    if a.len() == 0 {
        Seq::empty()
    } else {
        let prev = hrefs_spec(a.drop_last());
        match a.last().0 {
            Some(h) => if h.len() > 0 {
                prev.push(h)
            } else {
                prev
            },
            None => prev,
        }
    }
}

/// The links of a page under `selector`: what `extract_links` returns.
pub open spec fn extracted_links(html: Seq<char>, selector: Seq<char>) -> Option<Seq<Seq<char>>> {
    match selected_anchors(html, selector) {
        Some(a) => Some(hrefs_spec(a)),
        None => None,
    }
}

/// The present, non-empty `href` values of `anchors`, in order.
pub fn hrefs_of(anchors: &Vec<Anchor>) -> (r: Vec<String>)
    ensures
        views(r@) == hrefs_spec(anchor_views(anchors@)),
{
    let mut r: Vec<String> = Vec::new();
    let mut i: usize = 0;
    while i < anchors.len()
        invariant
            i <= anchors@.len(),
            views(r@) == hrefs_spec(anchor_views(anchors@).subrange(0, i as int)),
        decreases anchors@.len() - i,
    {
        let ghost prev = r@;
        assert(anchor_views(anchors@).subrange(0, i + 1).drop_last() =~= anchor_views(
            anchors@,
        ).subrange(0, i as int));
        match &anchors[i].href {
            Some(h) => {
                if h.as_str().unicode_len() > 0 {
                    r.push(h.clone());
                    assert(views(r@) =~= views(prev).push(h@));
                }
            },
            None => {},
        }
        i = i + 1;
    }
    assert(anchor_views(anchors@).subrange(0, anchors@.len() as int) =~= anchor_views(anchors@));
    r
}

/// The elements of the page `html` that `selector` matches; an error where
/// the selector does not parse.
pub fn select_elements(html: &str, selector: &str) -> (r: Result<Vec<Anchor>, AppError>)
    ensures
        match r {
            Ok(v) => selected_anchors(html@, selector@) == Some(anchor_views(v@)),
            Err(e) => selected_anchors(html@, selector@) is None && e == AppError::InvalidSelector,
        },
{
    match select_anchors(html, selector) {
        Some(v) => Ok(v),
        None => Err(AppError::InvalidSelector),
    }
}

/// The non-empty `href` values of the elements of `html` that `selector`
/// matches, in document order.
pub fn extract_links(html: &str, selector: &str) -> (r: Result<Vec<String>, AppError>)
    ensures
        match r {
            Ok(v) => extracted_links(html@, selector@) == Some(views(v@)),
            Err(e) => extracted_links(html@, selector@) is None && e == AppError::InvalidSelector,
        },
{
    let anchors = select_elements(html, selector)?;
    Ok(hrefs_of(&anchors))
}

/// `idx` places each link of `h` at a matched element of `a` whose `href` it
/// is, with increasing positions.
pub open spec fn links_embed(idx: Seq<int>, a: Seq<AnchorView>, h: Seq<Seq<char>>) -> bool {
    &&& idx.len() == h.len()
    &&& forall|i: int| 0 <= i < idx.len() ==> 0 <= #[trigger] idx[i] < a.len() && a[idx[i]].0 == Some(h[i])
    &&& forall|i: int, j: int| 0 <= i < j < idx.len() ==> #[trigger] idx[i] < #[trigger] idx[j]
}

/// For every document and selector that parses, each link `extract_links`
/// returns is a non-empty `href` of an element the selector matches, and the
/// links come in the document order of those elements.
pub proof fn lemma_extract_links_only_present_hrefs(html: Seq<char>, selector: Seq<char>)
    requires
        selected_anchors(html, selector) is Some,
    ensures
        ({
            let a = selected_anchors(html, selector)->0;
            let links = extracted_links(html, selector)->0;
            &&& forall|i: int| 0 <= i < links.len() ==> #[trigger] links[i].len() > 0
            &&& exists|idx: Seq<int>| #[trigger] links_embed(idx, a, links)
        }),
{
    lemma_hrefs_present_in_order(selected_anchors(html, selector)->0);
}

/// Each link of `hrefs_spec(a)` is a non-empty `href` of `a`, in the order of `a`.
proof fn lemma_hrefs_present_in_order(a: Seq<AnchorView>)
    ensures
        forall|i: int| 0 <= i < hrefs_spec(a).len() ==> #[trigger] hrefs_spec(a)[i].len() > 0,
        exists|idx: Seq<int>| #[trigger] links_embed(idx, a, hrefs_spec(a)),
    decreases a.len(),
{
    if a.len() == 0 {
        assert(links_embed(Seq::empty(), a, hrefs_spec(a)));
    } else {
        let b = a.drop_last();
        lemma_hrefs_present_in_order(b);
        let idx0 = choose|idx: Seq<int>| #[trigger] links_embed(idx, b, hrefs_spec(b));
        assert(forall|i: int| 0 <= i < b.len() ==> b[i] == a[i]);
        let last = a.len() - 1;
        if a.last().0 is Some && a.last().0->0.len() > 0 {
            let idx = idx0.push(last);
            assert(links_embed(idx, a, hrefs_spec(a)));
        } else {
            assert(links_embed(idx0, a, hrefs_spec(a)));
        }
    }
}

} // verus!
