//! # Willow Extractor
//!
//! Bibliographic metadata extraction from URLs, HTML, and PDFs.
//!
//! The library decides and computes; the caller performs the network
//! requests that the decisions call for and hands their replies back.
use vstd::prelude::*;
use std::time::Duration;
use crate::detect::{found_ids, first_doi, first_isbn, has_view, sorted_distinct, IdView};
use crate::item::ItemView;
use crate::text::{chars_of, contains_exec, contains_seq};

pub mod text;
pub mod detect;
pub mod json;
pub mod item;
pub mod fetch;
pub mod extract;

pub use detect::Identifier;
pub use item::Item;

verus! {

/// `Duration::from_secs(secs)`.
pub uninterp spec fn seconds(secs: u64) -> Duration;

/// `Duration::from_secs` makes the duration of so many seconds; its value is
/// only named here.
pub assume_specification[ Duration::from_secs ](secs: u64) -> (d: Duration)
    ensures
        d == seconds(secs),
;

/// `Duration` is `Copy`: a clone is the same duration.
pub assume_specification[ <Duration as Clone>::clone ](d: &Duration) -> (r: Duration)
    ensures
        r == *d,
;

/// Configuration
#[derive(Debug, Clone)]
pub struct Config {
    pub request_timeout: Duration,
    pub api_timeout: Duration,
    pub user_agent: String,
    pub max_pdf_pages: usize,
}

impl Default for Config {
    fn default() -> (r: Self)
        ensures
            r.request_timeout == seconds(30),
            r.api_timeout == seconds(10),
            r.user_agent@ == "Mozilla/5.0 (compatible; Willow/1.0)"@,
            r.max_pdf_pages == 5,
    {
        Self {
            request_timeout: Duration::from_secs(30),
            api_timeout: Duration::from_secs(10),
            user_agent: String::from_str("Mozilla/5.0 (compatible; Willow/1.0)"),
            max_pdf_pages: 5,
        }
    }
}

/// Extraction error
#[derive(Debug)]
pub enum ExtractError {
    Network(String),
    Parse(String),
    Timeout,
}

pub enum ExtractErrorView {
    Network(Seq<char>),
    Parse(Seq<char>),
    Timeout,
}

impl View for ExtractError {
    type V = ExtractErrorView;

    open spec fn view(&self) -> ExtractErrorView {
        match self {
            ExtractError::Network(s) => ExtractErrorView::Network(s@),
            ExtractError::Parse(s) => ExtractErrorView::Parse(s@),
            ExtractError::Timeout => ExtractErrorView::Timeout,
        }
    }
}

/// The text that an extraction error displays as.
pub open spec fn extract_error_message(e: ExtractErrorView) -> Seq<char> {
    match e {
        ExtractErrorView::Network(s) => "network: "@ + s,
        ExtractErrorView::Parse(s) => "parse: "@ + s,
        ExtractErrorView::Timeout => "timeout"@,
    }
}

impl ExtractError {
    /// The text that the error displays as.
    pub fn message(&self) -> (r: String)
        ensures
            r@ == extract_error_message(self@),
    {
        match self {
            ExtractError::Network(e) => {
                let mut m = String::from_str("network: ");
                m.append(e.as_str());
                m
            },
            ExtractError::Parse(e) => {
                let mut m = String::from_str("parse: ");
                m.append(e.as_str());
                m
            },
            ExtractError::Timeout => String::from_str("timeout"),
        }
    }

    /// The error for a failed request: a timeout, or a network error that
    /// carries the failure's text.
    pub fn from_request_failure(timed_out: bool, detail: String) -> (r: ExtractError)
        ensures
            timed_out ==> r@ == ExtractErrorView::Timeout,
            !timed_out ==> r@ == ExtractErrorView::Network(detail@),
    {
        if timed_out {
            ExtractError::Timeout
        } else {
            ExtractError::Network(detail)
        }
    }
}

/// `str::to_lowercase`.
pub uninterp spec fn lowercase(s: Seq<char>) -> Seq<char>;

/// Calls `str::to_lowercase`; its Unicode case tables are only named here.
#[verifier::external_body]
fn to_lowercase(s: &str) -> (r: String)
    ensures
        r@ == lowercase(s@),
{
    s.to_lowercase()
}

/// The content type that a reply without one is taken to have.
pub open spec fn content_type_or_html(content_type: Option<&str>) -> Seq<char> {
    match content_type {
        Some(c) => c@,
        None => "text/html"@,
    }
}

/// A reply is read as a PDF when its content type says so or the URL, in
/// lower case, holds `.pdf`.
pub open spec fn pdf_reply(url: Seq<char>, content_type: Option<&str>) -> bool {
    contains_seq(content_type_or_html(content_type), "application/pdf"@) || contains_seq(
        lowercase(url),
        ".pdf"@,
    )
}

/// Whether the reply to a request for `url` with this `content-type` header
/// (when it has one that reads as text) is read as a PDF.
pub fn is_pdf_reply(url: &str, content_type: Option<&str>) -> (r: bool)
    ensures
        r == pdf_reply(url@, content_type),
{
    let ct = match content_type {
        Some(c) => chars_of(c),
        None => chars_of("text/html"),
    };
    let pdf_type = chars_of("application/pdf");
    let lower = to_lowercase(url);
    let lc = chars_of(lower.as_str());
    let ext = chars_of(".pdf");
    contains_exec(ct.as_slice(), pdf_type.as_slice()) || contains_exec(lc.as_slice(), ext.as_slice())
}

/// Some item has a title and an author or a date.
pub open spec fn good_metadata(items: Seq<ItemView>) -> bool {
    exists|i: int|
        0 <= i < items.len() && (#[trigger] items[i]).title is Some && (items[i].authors.len() > 0
            || items[i].date is Some)
}

/// Whether the items found on a page are good enough to stand alone.
pub fn has_good_metadata(items: &Vec<Item>) -> (r: bool)
    ensures
        r == good_metadata(items@.map_values(|i: Item| i@)),
{
    let ghost v = items@.map_values(|i: Item| i@);
    let mut k: usize = 0;
    while k < items.len()
        invariant
            k <= items.len(),
            v == items@.map_values(|i: Item| i@),
            forall|j: int|
                0 <= j < k ==> !((#[trigger] v[j]).title is Some && (v[j].authors.len() > 0
                    || v[j].date is Some)),
        decreases items.len() - k,
    {
        let it = &items[k];
        if it.title.is_some() && (it.authors.len() > 0 || it.date.is_some()) {
            assert(v[k as int] == items@[k as int]@);
            return true;
        }
        assert(v[k as int] == items@[k as int]@);
        k = k + 1;
    }
    false
}

/// The identifiers to resolve for a page whose metadata is sparse: a DOI in
/// its URL first, then every identifier in the page. A page with good
/// metadata needs none.
pub fn fallback_identifiers(items: &Vec<Item>, html: &str, source_url: Option<&str>) -> (r: Vec<
    Identifier,
>)
    ensures
        good_metadata(items@.map_values(|i: Item| i@)) ==> r@.len() == 0,
        !good_metadata(items@.map_values(|i: Item| i@)) ==> {
            let k: int = match source_url {
                Some(u) => if first_doi(u@) is Some {
                    1
                } else {
                    0
                },
                None => 0,
            };
            &&& r@.len() >= k
            &&& (k == 1 ==> r@[0]@ == IdView::Doi(first_doi(source_url.unwrap()@).unwrap()))
            &&& sorted_distinct(r@.skip(k))
            &&& forall|x: IdView| has_view(r@.skip(k), x) <==> found_ids(html@).contains(x)
        },
{
    if has_good_metadata(items) {
        return Vec::new();
    }
    let mut identifiers = crate::detect::detect_all(html);
    let ghost found = identifiers@;
    if let Some(url) = source_url {
        if let Some(doi) = crate::detect::detect_doi(url) {
            identifiers.insert(0, Identifier::Doi(doi));
            assert(identifiers@.skip(1) =~= found);
        }
    }
    assert(identifiers@.skip(0) =~= identifiers@);
    identifiers
}

/// The identifiers to resolve for a search: a DOI in the query, else an ISBN
/// in it, else every identifier in it.
pub fn search_identifiers(id: &str) -> (r: Vec<Identifier>)
    ensures
        first_doi(id@) matches Some(d) ==> r@.len() == 1 && r@[0]@ == IdView::Doi(d),
        first_doi(id@) is None ==> (first_isbn(id@) matches Some(i) ==> r@.len() == 1 && r@[0]@
            == IdView::Isbn(i)),
        first_doi(id@) is None && first_isbn(id@) is None ==> sorted_distinct(r@) && forall|
            x: IdView,
        | has_view(r@, x) <==> found_ids(id@).contains(x),
{
    if let Some(doi) = crate::detect::detect_doi(id) {
        let mut v: Vec<Identifier> = Vec::new();
        v.push(Identifier::Doi(doi));
        return v;
    }
    if let Some(isbn) = crate::detect::detect_isbn(id) {
        let mut v: Vec<Identifier> = Vec::new();
        v.push(Identifier::Isbn(isbn));
        return v;
    }
    crate::detect::detect_all(id)
}

} // verus!
