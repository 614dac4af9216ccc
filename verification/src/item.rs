//! Bibliographic item type
use vstd::prelude::*;

verus! {

/// A bibliographic item
#[derive(Debug, Clone)]
pub struct Item {
    pub title: Option<String>,
    pub authors: Vec<String>,
    pub date: Option<String>,
    pub url: Option<String>,
    pub doi: Option<String>,
    pub isbn: Option<String>,
    pub publisher: Option<String>,
    pub description: Option<String>,
    pub item_type: Option<String>,
    /// Where the metadata came from (e.g., "crossref", "openlibrary", "html")
    pub source: Option<String>,
}

/// The value of an [`Item`]: each text as its characters.
pub struct ItemView {
    pub title: Option<Seq<char>>,
    pub authors: Seq<Seq<char>>,
    pub date: Option<Seq<char>>,
    pub url: Option<Seq<char>>,
    pub doi: Option<Seq<char>>,
    pub isbn: Option<Seq<char>>,
    pub publisher: Option<Seq<char>>,
    pub description: Option<Seq<char>>,
    pub item_type: Option<Seq<char>>,
    pub source: Option<Seq<char>>,
}

impl View for Item {
    type V = ItemView;

    open spec fn view(&self) -> ItemView {
        ItemView {
            title: self.title.deep_view(),
            authors: self.authors.deep_view(),
            date: self.date.deep_view(),
            url: self.url.deep_view(),
            doi: self.doi.deep_view(),
            isbn: self.isbn.deep_view(),
            publisher: self.publisher.deep_view(),
            description: self.description.deep_view(),
            item_type: self.item_type.deep_view(),
            source: self.source.deep_view(),
        }
    }
}

/// The item with every field empty.
pub open spec fn empty_item() -> ItemView {
    ItemView {
        title: None,
        authors: Seq::empty(),
        date: None,
        url: None,
        doi: None,
        isbn: None,
        publisher: None,
        description: None,
        item_type: None,
        source: None,
    }
}

/// The value of an optional item.
pub open spec fn opt_item(o: Option<Item>) -> Option<ItemView> {
    match o {
        Some(i) => Some(i@),
        None => None,
    }
}

/// Has a title and at least one author.
pub open spec fn complete(i: ItemView) -> bool {
    i.title is Some && i.authors.len() > 0
}

impl Default for Item {
    fn default() -> (r: Item)
        ensures
            r@ == empty_item(),
    {
        let r = Item {
            title: None,
            authors: Vec::new(),
            date: None,
            url: None,
            doi: None,
            isbn: None,
            publisher: None,
            description: None,
            item_type: None,
            source: None,
        };
        assert(r.authors.deep_view() =~= Seq::<Seq<char>>::empty());
        r
    }
}

impl Item {
    pub fn is_complete(&self) -> (r: bool)
        ensures
            r == complete(self@),
    {
        self.title.is_some() && !self.authors.is_empty()
    }
}

} // verus!
