//! The catalog client: the URLs of the catalog's pages, and what each of the
//! four resolution stages (counties, stations, data folder, data files) takes
//! from a fetched page.

use vstd::prelude::*;
use crate::error::AppError;
use crate::links::{
    anchor_views, extract_links, extracted_links, select_elements, selected_anchors, Anchor,
    AnchorView,
};
use crate::text::{
    concat, contains, contains_spec, ends_with, ends_with_spec, opt_view, starts_with, views,
};

verus! {

/// Which quality-control versions a station's data folder may have.
#[derive(Debug, Clone, Copy, PartialEq, Eq, Structural)]
pub enum QcPolicy {
    /// Only a folder marked `qc-version-1` is taken.
    RequireVersion1,
    /// A folder marked `qc-version-1` is preferred; one marked `qc-version-0`
    /// is taken where there is none.
    FallBackToVersion0,
}

/// What a client holds: the dataset version, the catalog's root URL, the
/// path prefix of the county links, and the `Authorization` header value.
pub struct CatalogView {
    pub dataset_version: Seq<char>,
    pub root: Seq<char>,
    pub link_prefix: Seq<char>,
    pub authorization: Seq<char>,
}

/// A client of the hourly weather observation catalog at one dataset version.
/// It holds no mutable state and can be shared by concurrent tasks.
pub struct CedaClient {
    dataset_version: String,
    root: String,
    link_prefix: String,
    authorization: String,
}

impl View for CedaClient {
    type V = CatalogView;

    closed spec fn view(&self) -> CatalogView {
        CatalogView {
            dataset_version: self.dataset_version@,
            root: self.root@,
            link_prefix: self.link_prefix@,
            authorization: self.authorization@,
        }
    }
}

/// The links of `links` that begin with `prefix` and are not the change-log
/// listing, in order.
pub open spec fn county_filter(links: Seq<Seq<char>>, prefix: Seq<char>) -> Seq<Seq<char>>
    decreases links.len(),
{
    if links.len() == 0 {
        Seq::empty()
    } else {
        let prev = county_filter(links.drop_last(), prefix);
        let l = links.last();
        if prefix.is_prefix_of(l) && !ends_with_spec(l, "change_log_station_files"@) {
            prev.push(l)
        } else {
            prev
        }
    }
}

/// The anchor `x` is a candidate link marked with `m`: it has a non-empty
/// `href` and a text node equal to `m`.
pub open spec fn is_marked_link(x: AnchorView, m: Seq<char>) -> bool {
    &&& x.0 is Some
    &&& x.0->0.len() > 0
    &&& x.1.contains(m)
}

/// Index of the first anchor of `a`, at or after `i`, that is a candidate
/// link marked with `m`; -1 where there is none.
pub open spec fn first_marked_from(a: Seq<AnchorView>, m: Seq<char>, i: int) -> int
    decreases a.len() - i,
{
    if i < 0 || i >= a.len() {
        -1
    } else if is_marked_link(a[i], m) {
        i
    } else {
        first_marked_from(a, m, i + 1)
    }
}

/// What `first_marked_from` returns: -1, or a marked link at or after `i`.
proof fn lemma_first_marked_from(a: Seq<AnchorView>, m: Seq<char>, i: int)
    ensures
        first_marked_from(a, m, i) == -1 || (0 <= i <= first_marked_from(a, m, i) < a.len()
            && is_marked_link(a[first_marked_from(a, m, i)], m)),
    decreases a.len() - i,
{
    if 0 <= i < a.len() && !is_marked_link(a[i], m) {
        lemma_first_marked_from(a, m, i + 1);
    }
}

/// The `href` of the first anchor of `a` that has a non-empty `href` and a
/// text node equal to `m`; anchors without a usable `href` are no candidates.
pub open spec fn marked_href(a: Seq<AnchorView>, m: Seq<char>) -> Option<Seq<char>> {
    let i = first_marked_from(a, m, 0);
    if i >= 0 {
        a[i].0
    } else {
        None
    }
}

/// The data folder that a station page with anchors `a` resolves to under `policy`.
pub open spec fn data_folder_choice(a: Seq<AnchorView>, policy: QcPolicy) -> Option<Seq<char>> {
    match marked_href(a, "qc-version-1"@) {
        Some(h) => Some(h),
        None => if policy == QcPolicy::FallBackToVersion0 {
            marked_href(a, "qc-version-0"@)
        } else {
            None
        },
    }
}

/// Whether one of `texts` equals `m`.
fn texts_contain(texts: &Vec<String>, m: &String) -> (r: bool)
    ensures
        r == views(texts@).contains(m@),
{
    let mut j: usize = 0;
    while j < texts.len()
        invariant
            j <= texts@.len(),
            forall|k: int| 0 <= k < j ==> views(texts@)[k] != m@,
        decreases texts@.len() - j,
    {
        if texts[j] == *m {
            assert(views(texts@)[j as int] == m@);
            return true;
        }
        j = j + 1;
    }
    false
}

/// Index of the first anchor with a non-empty `href` and a text node equal to `m`.
fn first_marked(anchors: &Vec<Anchor>, m: &String) -> (r: Option<usize>)
    ensures
        match r {
            Some(i) => i as int == first_marked_from(anchor_views(anchors@), m@, 0),
            None => first_marked_from(anchor_views(anchors@), m@, 0) == -1,
        },
{
    let ghost a = anchor_views(anchors@);
    let mut i: usize = 0;
    while i < anchors.len()
        invariant
            i <= anchors@.len(),
            a == anchor_views(anchors@),
            first_marked_from(a, m@, 0) == first_marked_from(a, m@, i as int),
        decreases anchors@.len() - i,
    {
        let usable = match &anchors[i].href {
            Some(h) => h.as_str().unicode_len() > 0,
            None => false,
        };
        if usable && texts_contain(&anchors[i].texts, m) {
            return Some(i);
        }
        i = i + 1;
    }
    None
}

/// The `href` of the first anchor with a non-empty `href` and a text node
/// equal to `marker`.
pub fn find_marked_href(anchors: &Vec<Anchor>, marker: &str) -> (r: Option<String>)
    ensures
        opt_view(r) == marked_href(anchor_views(anchors@), marker@),
{
    let m = String::from_str(marker);
    proof {
        lemma_first_marked_from(anchor_views(anchors@), marker@, 0);
    }
    match first_marked(anchors, &m) {
        Some(i) => anchors[i].href.clone(),
        None => None,
    }
}

/// The data folder among a station page's anchors: the one marked
/// `qc-version-1`, or under `FallBackToVersion0` the one marked
/// `qc-version-0` where no `qc-version-1` folder is listed.
pub fn select_data_folder(anchors: &Vec<Anchor>, policy: QcPolicy) -> (r: Option<String>)
    ensures
        opt_view(r) == data_folder_choice(anchor_views(anchors@), policy),
{
    match find_marked_href(anchors, "qc-version-1") {
        Some(h) => Some(h),
        None => match policy {
            QcPolicy::FallBackToVersion0 => find_marked_href(anchors, "qc-version-0"),
            QcPolicy::RequireVersion1 => None,
        },
    }
}

/// The links of `links` that begin with `prefix` and do not end with
/// `change_log_station_files`, in order.
pub fn filter_county_links(links: &Vec<String>, prefix: &str) -> (r: Vec<String>)
    ensures
        views(r@) == county_filter(views(links@), prefix@),
{
    let mut r: Vec<String> = Vec::new();
    let mut i: usize = 0;
    while i < links.len()
        invariant
            i <= links@.len(),
            views(r@) == county_filter(views(links@).subrange(0, i as int), prefix@),
        decreases links@.len() - i,
    {
        let ghost prev = r@;
        assert(views(links@).subrange(0, i + 1).drop_last() =~= views(links@).subrange(
            0,
            i as int,
        ));
        let l = links[i].as_str();
        if starts_with(l, prefix) && !ends_with(l, "change_log_station_files") {
            r.push(links[i].clone());
            assert(views(r@) =~= views(prev).push(l@));
        }
        i = i + 1;
    }
    assert(views(links@).subrange(0, links@.len() as int) =~= views(links@));
    r
}

/// `l` is an absolute `http` or `https` URL.
pub open spec fn is_absolute_url(l: Seq<char>) -> bool {
    "https://"@.is_prefix_of(l) || "http://"@.is_prefix_of(l)
}

/// `l` names a station's capability file.
pub open spec fn is_capability_link(l: Seq<char>) -> bool {
    contains_spec(l, "capability.csv"@)
}

/// Whether `link` names a station's capability file, which is stored apart
/// from the observation data files.
pub fn is_capability(link: &str) -> (r: bool)
    ensures
        r == is_capability_link(link@),
{
    contains(link, "capability.csv")
}

/// Index of the first capability link of `ls` at or after `i`; -1 where there is none.
pub open spec fn first_capability_from(ls: Seq<Seq<char>>, i: int) -> int
    decreases ls.len() - i,
{
    if i < 0 || i >= ls.len() {
        -1
    } else if is_capability_link(ls[i]) {
        i
    } else {
        first_capability_from(ls, i + 1)
    }
}

/// The links of `ls` that are not capability links, in order.
pub open spec fn data_only(ls: Seq<Seq<char>>) -> Seq<Seq<char>>
    decreases ls.len(),
{
    if ls.len() == 0 {
        Seq::empty()
    } else if is_capability_link(ls.last()) {
        data_only(ls.drop_last())
    } else {
        data_only(ls.drop_last()).push(ls.last())
    }
}

/// The files of one data folder: its capability file, which goes to the
/// capability directory, and its observation data files.
#[derive(Debug)]
pub struct DataLinks {
    pub capability: String,
    pub data: Vec<String>,
}

impl DataLinks {
    /// Splits the file links of a data folder into the first capability
    /// link and the data links; `None` where no link is a capability link.
    pub fn from_links(links: &Vec<String>) -> (r: Option<DataLinks>)
        ensures
            r is None <==> first_capability_from(views(links@), 0) == -1,
            r matches Some(d) ==> d.capability@ == views(links@)[first_capability_from(
                views(links@),
                0,
            )] && views(d.data@) == data_only(views(links@)),
    {
        let ghost ls = views(links@);
        let mut first: Option<usize> = None;
        let mut data: Vec<String> = Vec::new();
        let mut i: usize = 0;
        while i < links.len()
            invariant
                i <= links@.len(),
                ls == views(links@),
                views(data@) == data_only(ls.subrange(0, i as int)),
                match first {
                    Some(k) => k as int == first_capability_from(ls, 0) && k < i,
                    None => first_capability_from(ls, 0) == first_capability_from(ls, i as int),
                },
            decreases links@.len() - i,
        {
            let ghost prev = data@;
            assert(ls.subrange(0, i + 1).drop_last() =~= ls.subrange(0, i as int));
            if is_capability(links[i].as_str()) {
                if first.is_none() {
                    first = Some(i);
                }
            } else {
                data.push(links[i].clone());
                assert(views(data@) =~= views(prev).push(ls[i as int]));
            }
            i = i + 1;
        }
        assert(ls.subrange(0, links@.len() as int) =~= ls);
        match first {
            Some(k) => Some(DataLinks { capability: links[k].clone(), data }),
            None => None,
        }
    }
}

impl CedaClient {
    /// A client of the public catalog at `dataset_version` (e.g. "202407"),
    /// sending `access_token` as a bearer credential; an error where the
    /// token is empty.
    pub fn new(dataset_version: &str, access_token: &str) -> (r: Result<CedaClient, AppError>)
        ensures
            access_token@.len() == 0 <==> r is Err,
            match r {
                Ok(c) => c@ == (CatalogView {
                    dataset_version: dataset_version@,
                    root: "https://data.ceda.ac.uk"@,
                    link_prefix: "/badc"@,
                    authorization: "Bearer "@ + access_token@,
                }),
                Err(e) => e == AppError::MissingAccessToken,
            },
    {
        if access_token.unicode_len() == 0 {
            return Err(AppError::MissingAccessToken);
        }
        Ok(CedaClient {
            dataset_version: String::from_str(dataset_version),
            root: String::from_str("https://data.ceda.ac.uk"),
            link_prefix: String::from_str("/badc"),
            authorization: concat("Bearer ", access_token),
        })
    }

    /// The same client pointed at another catalog host: `root` replaces the
    /// root URL and `link_prefix` the path prefix that county links begin with.
    pub fn with_catalog(self, root: &str, link_prefix: &str) -> (r: CedaClient)
        ensures
            r@ == (CatalogView { root: root@, link_prefix: link_prefix@, ..self@ }),
    {
        CedaClient {
            root: String::from_str(root),
            link_prefix: String::from_str(link_prefix),
            ..self
        }
    }

    /// The dataset version the client reads.
    pub fn dataset_version(&self) -> (r: &str)
        ensures
            r@ == self@.dataset_version,
    {
        self.dataset_version.as_str()
    }

    /// The value of the `Authorization` header sent with every request.
    pub fn authorization(&self) -> (r: &str)
        ensures
            r@ == self@.authorization,
    {
        self.authorization.as_str()
    }

    /// The URL of the catalog's root page, which lists the counties.
    pub fn county_index_url(&self) -> (r: String)
        ensures
            r@ == self@.root + "/badc/ukmo-midas-open/data/uk-hourly-weather-obs/dataset-version-"@
                + self@.dataset_version + "/"@,
    {
        let a = concat(
            self.root.as_str(),
            "/badc/ukmo-midas-open/data/uk-hourly-weather-obs/dataset-version-",
        );
        let b = concat(a.as_str(), self.dataset_version.as_str());
        concat(b.as_str(), "/")
    }

    /// The URL of the catalog page that `link` names.
    pub fn page_url(&self, link: &str) -> (r: String)
        ensures
            r@ == self@.root + link@,
    {
        concat(self.root.as_str(), link)
    }

    /// The URL a file link is downloaded from: the link itself where it is
    /// an absolute `http` or `https` URL, else the catalog page it names.
    pub fn download_url(&self, link: &str) -> (r: String)
        ensures
            r@ == if is_absolute_url(link@) {
                link@
            } else {
                self@.root + link@
            },
    {
        if starts_with(link, "https://") || starts_with(link, "http://") {
            String::from_str(link)
        } else {
            self.page_url(link)
        }
    }

    /// The county links of the catalog's root page `page`: the links of its
    /// results table that begin with the catalog's path prefix, without the
    /// change-log listing.
    pub fn get_county_links(&self, page: &str) -> (r: Result<Vec<String>, AppError>)
        ensures
            match r {
                Ok(v) => extracted_links(page@, "#results a"@) is Some && views(v@)
                    == county_filter(extracted_links(page@, "#results a"@)->0, self@.link_prefix),
                Err(e) => extracted_links(page@, "#results a"@) is None && e
                    == AppError::InvalidSelector,
            },
    {
        let links = extract_links(page, "#results a")?;
        Ok(filter_county_links(&links, self.link_prefix.as_str()))
    }

    /// The station links of the county page `page`: every link of its
    /// station table.
    pub fn get_station_links(&self, page: &str) -> (r: Result<Vec<String>, AppError>)
        ensures
            match r {
                Ok(v) => extracted_links(page@, "#content-main > div.row > div > table a"@)
                    == Some(views(v@)),
                Err(e) => extracted_links(page@, "#content-main > div.row > div > table a"@) is None
                    && e == AppError::InvalidSelector,
            },
    {
        extract_links(page, "#content-main > div.row > div > table a")
    }

    /// The data folder link of the station page `page`: the result entry
    /// whose text is the preferred quality-control marker, under `policy`.
    pub fn get_data_folder_link(&self, page: &str, policy: QcPolicy) -> (r: Result<
        String,
        AppError,
    >)
        ensures
            match r {
                Ok(l) => selected_anchors(page@, "#results a"@) is Some && data_folder_choice(
                    selected_anchors(page@, "#results a"@)->0,
                    policy,
                ) == Some(l@),
                Err(e) => match selected_anchors(page@, "#results a"@) {
                    None => e == AppError::InvalidSelector,
                    Some(a) => data_folder_choice(a, policy) is None && e == AppError::QCV1NotFound,
                },
            },
    {
        let anchors = select_elements(page, "#results a")?;
        match select_data_folder(&anchors, policy) {
            Some(l) => Ok(l),
            None => Err(AppError::QCV1NotFound),
        }
    }

    /// The data file links of the data folder page `page`: every link of its
    /// results table, the capability file included.
    pub fn get_data_file_links(&self, page: &str) -> (r: Result<Vec<String>, AppError>)
        ensures
            match r {
                Ok(v) => extracted_links(page@, "#results a"@) == Some(views(v@)),
                Err(e) => extracted_links(page@, "#results a"@) is None && e
                    == AppError::InvalidSelector,
            },
    {
        extract_links(page, "#results a")
    }
}

} // verus!
