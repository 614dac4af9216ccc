//! External API lookups for resolving identifiers: which service each
//! identifier goes to, the requests, and the reading of the replies.
use vstd::prelude::*;
use crate::detect::{IdView, Identifier};

pub mod crossref;
pub mod openlibrary;

verus! {

/// Error from fetching
#[derive(Debug)]
pub enum FetchError {
    Network(String),
    NotFound(String),
    Parse(String),
}

/// The value of a [`FetchError`].
pub enum FetchErrorView {
    Network(Seq<char>),
    NotFound(Seq<char>),
    Parse(Seq<char>),
}

impl View for FetchError {
    type V = FetchErrorView;

    open spec fn view(&self) -> FetchErrorView {
        match self {
            FetchError::Network(s) => FetchErrorView::Network(s@),
            FetchError::NotFound(s) => FetchErrorView::NotFound(s@),
            FetchError::Parse(s) => FetchErrorView::Parse(s@),
        }
    }
}

/// The human-readable text of an error.
pub open spec fn fetch_error_message(e: FetchErrorView) -> Seq<char> {
    match e {
        FetchErrorView::Network(s) => "network error: "@ + s,
        FetchErrorView::NotFound(s) => "not found: "@ + s,
        FetchErrorView::Parse(s) => "parse error: "@ + s,
    }
}

impl FetchError {
    /// The text that the error displays as.
    pub fn message(&self) -> (r: String)
        ensures
            r@ == fetch_error_message(self@),
    {
        match self {
            FetchError::Network(e) => {
                let mut m = String::from_str("network error: ");
                m.append(e.as_str());
                m
            },
            FetchError::NotFound(id) => {
                let mut m = String::from_str("not found: ");
                m.append(id.as_str());
                m
            },
            FetchError::Parse(e) => {
                let mut m = String::from_str("parse error: ");
                m.append(e.as_str());
                m
            },
        }
    }
}

/// A successful status lets the reply be read; any other status means that
/// the identifier was not found.
pub fn check_status(success: bool, id: &str) -> (r: Result<(), FetchError>)
    ensures
        success ==> r is Ok,
        !success ==> (r matches Err(e) && e@ == FetchErrorView::NotFound(id@)),
{
    if success {
        Ok(())
    } else {
        Err(FetchError::NotFound(String::from_str(id)))
    }
}

/// The service that resolves an identifier, with the key to ask for.
#[derive(Debug)]
pub enum Lookup {
    /// CrossRef, by DOI
    Crossref(String),
    /// OpenLibrary, by ISBN
    OpenLibrary(String),
}

pub enum LookupView {
    Crossref(Seq<char>),
    OpenLibrary(Seq<char>),
}

impl View for Lookup {
    type V = LookupView;

    open spec fn view(&self) -> LookupView {
        match self {
            Lookup::Crossref(s) => LookupView::Crossref(s@),
            Lookup::OpenLibrary(s) => LookupView::OpenLibrary(s@),
        }
    }
}

/// DOIs go to CrossRef and ISBNs to OpenLibrary; PMIDs and arXiv IDs have no
/// service.
pub open spec fn lookup_of(id: IdView) -> Option<LookupView> {
    match id {
        IdView::Doi(d) => Some(LookupView::Crossref(d)),
        IdView::Isbn(i) => Some(LookupView::OpenLibrary(i)),
        _ => None,
    }
}

/// Which service resolves an identifier, if any.
pub fn lookup_for(id: &Identifier) -> (r: Option<Lookup>)
    ensures
        match r {
            Some(l) => lookup_of(id@) == Some(l@),
            None => lookup_of(id@) is None,
        },
{
    match id {
        Identifier::Doi(d) => Some(Lookup::Crossref(d.clone())),
        Identifier::Isbn(i) => Some(Lookup::OpenLibrary(i.clone())),
        _ => None,
    }
}

/// The next identifier from position `from` on that some service resolves,
/// with its position: identifiers are tried in order, and those without a
/// service are passed over.
pub fn next_lookup(ids: &[Identifier], from: usize) -> (r: Option<(usize, Lookup)>)
    ensures
        match r {
            Some((i, l)) => {
                &&& from <= i < ids@.len()
                &&& lookup_of(ids@[i as int]@) == Some(l@)
                &&& forall|j: int| from <= j < i ==> lookup_of(#[trigger] ids@[j]@) is None
            },
            None => forall|j: int| from <= j < ids@.len() ==> lookup_of(#[trigger] ids@[j]@) is None,
        },
{
    let mut i = from;
    while i < ids.len()
        invariant
            from <= i,
            forall|j: int| from <= j < i && j < ids@.len() ==> lookup_of(#[trigger] ids@[j]@) is None,
        decreases ids.len() - i,
    {
        if let Some(l) = lookup_for(&ids[i]) {
            return Some((i, l));
        }
        i = i + 1;
    }
    None
}

} // verus!
