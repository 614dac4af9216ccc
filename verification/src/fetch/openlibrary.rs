//! OpenLibrary API for ISBN resolution
use vstd::prelude::*;
use crate::fetch::{FetchError, FetchErrorView};
use crate::fetch::crossref::outcome_view;
use crate::item::{Item, ItemView};
use crate::json::{JsonValue, array_of, first_element, first_of, get, get_opt, member_text, str_of};

verus! {

/// The request address for an ISBN.
pub open spec fn books_url(isbn: Seq<char>) -> Seq<char> {
    "https://openlibrary.org/api/books?bibkeys=ISBN:"@ + isbn + "&format=json&jscmd=data"@
}

/// The OpenLibrary address that describes an ISBN.
pub fn isbn_request_url(isbn: &str) -> (r: String)
    ensures
        r@ == books_url(isbn@),
{
    let mut u = String::from_str("https://openlibrary.org/api/books?bibkeys=ISBN:");
    u.append(isbn);
    u.append("&format=json&jscmd=data");
    u
}

/// The key under which the reply describes the book.
pub open spec fn book_key(isbn: Seq<char>) -> Seq<char> {
    "ISBN:"@ + isbn
}

/// The names of the authors that have one, in order.
pub open spec fn author_names(arr: Seq<JsonValue>) -> Seq<Seq<char>>
    decreases arr.len(),
{
    if arr.len() == 0 {
        Seq::empty()
    } else {
        let rest = author_names(arr.drop_last());
        match str_of(get(arr.last(), "name"@)) {
            Some(n) => rest.push(n),
            None => rest,
        }
    }
}

/// The item that an OpenLibrary reply describes.
pub open spec fn response_item(data: JsonValue, isbn: Seq<char>) -> Result<ItemView, FetchErrorView> {
    match get(data, book_key(isbn)) {
        None => Err(FetchErrorView::NotFound(isbn)),
        Some(book) => Ok(
            ItemView {
                title: str_of(get(book, "title"@)),
                authors: match array_of(get(book, "authors"@)) {
                    Some(arr) => author_names(arr),
                    None => Seq::empty(),
                },
                date: str_of(get(book, "publish_date"@)),
                url: str_of(get(book, "url"@)),
                doi: None,
                isbn: Some(isbn),
                publisher: str_of(get_opt(first_of(array_of(get(book, "publishers"@))), "name"@)),
                description: None,
                item_type: Some("book"@),
                source: Some("openlibrary"@),
            },
        ),
    }
}

fn author_names_exec(arr: &Vec<JsonValue>) -> (r: Vec<String>)
    ensures
        r.deep_view() == author_names(arr@),
{
    let mut out: Vec<String> = Vec::new();
    let mut i: usize = 0;
    while i < arr.len()
        invariant
            i <= arr.len(),
            out.deep_view() == author_names(arr@.take(i as int)),
        decreases arr.len() - i,
    {
        assert(arr@.take(i + 1).drop_last() =~= arr@.take(i as int));
        if let Some(n) = member_text(&arr[i], "name") {
            let ghost before = out.deep_view();
            out.push(n);
            assert(out.deep_view() =~= before.push(n@));
        }
        i = i + 1;
    }
    assert(arr@.take(i as int) =~= arr@);
    out
}

/// Reads an OpenLibrary reply into an item for the ISBN.
pub fn parse_response(data: &JsonValue, isbn: &str) -> (r: Result<Item, FetchError>)
    ensures
        outcome_view(r) == response_item(*data, isbn@),
{
    let mut key = String::from_str("ISBN:");
    key.append(isbn);
    let book = match data.get(key.as_str()) {
        Some(b) => b,
        None => {
            return Err(FetchError::NotFound(String::from_str(isbn)));
        },
    };
    let title = member_text(book, "title");
    let authors = match book.get("authors") {
        Some(a) => match a.as_array() {
            Some(arr) => author_names_exec(arr),
            None => Vec::new(),
        },
        None => Vec::new(),
    };
    let publisher = match book.get("publishers") {
        Some(p) => match first_element(p) {
            Some(f) => member_text(f, "name"),
            None => None,
        },
        None => None,
    };
    let date = member_text(book, "publish_date");
    let url = member_text(book, "url");
    let item = Item {
        title,
        authors,
        date,
        url,
        doi: None,
        isbn: Some(String::from_str(isbn)),
        publisher,
        description: None,
        item_type: Some(String::from_str("book")),
        source: Some(String::from_str("openlibrary")),
    };
    proof {
        if array_of(get(*book, "authors"@)) is None {
            assert(item.authors.deep_view() =~= Seq::<Seq<char>>::empty());
        }
    }
    Ok(item)
}

/// An OpenLibrary reply is read whenever it describes the ISBN; the item then
/// records that ISBN and is a book, and a reply without it means the ISBN
/// was not found.
pub proof fn law_reply_keeps_isbn(data: JsonValue, isbn: Seq<char>)
    ensures
        response_item(data, isbn) is Ok <==> get(data, book_key(isbn)) is Some,
        response_item(data, isbn) matches Ok(i) ==> i.isbn == Some(isbn) && i.item_type == Some(
            "book"@,
        ),
        response_item(data, isbn) matches Err(e) ==> e == FetchErrorView::NotFound(isbn),
{
}

proof fn lemma_author_names_all_named(arr: Seq<JsonValue>)
    requires
        forall|k: int| 0 <= k < arr.len() ==> (#[trigger] str_of(get(arr[k], "name"@))) is Some,
    ensures
        author_names(arr).len() == arr.len(),
        forall|k: int|
            0 <= k < arr.len() ==> #[trigger] author_names(arr)[k] == str_of(
                get(arr[k], "name"@),
            )->Some_0,
    decreases arr.len(),
{
    if arr.len() > 0 {
        let front = arr.drop_last();
        assert forall|k: int| 0 <= k < front.len() implies (#[trigger] str_of(
            get(front[k], "name"@),
        )) is Some by {
            assert(front[k] == arr[k]);
        }
        lemma_author_names_all_named(front);
        assert(str_of(get(arr[arr.len() - 1], "name"@)) is Some);
        assert forall|k: int| 0 <= k < arr.len() implies #[trigger] author_names(arr)[k] == str_of(
            get(arr[k], "name"@),
        )->Some_0 by {
            if k < front.len() {
                assert(front[k] == arr[k]);
                assert(author_names(arr)[k] == author_names(front)[k]);
            }
        }
    }
}

/// The authors of an OpenLibrary item are the names of the reply's `authors`
/// entries in the order of the array: when every entry has a name, author
/// `k` is the name of entry `k`.
pub proof fn law_openlibrary_authors_in_order(data: JsonValue, isbn: Seq<char>)
    ensures
        get(data, book_key(isbn)) matches Some(book) ==> (array_of(get(book, "authors"@)) matches Some(
            arr,
        ) ==> ((forall|k: int| 0 <= k < arr.len() ==> (#[trigger] str_of(get(arr[k], "name"@))) is Some)
            ==> response_item(data, isbn) is Ok && response_item(data, isbn)->Ok_0.authors.len()
            == arr.len() && forall|k: int|
            0 <= k < arr.len() ==> #[trigger] response_item(data, isbn)->Ok_0.authors[k] == str_of(
                get(arr[k], "name"@),
            )->Some_0)),
{
    if let Some(book) = get(data, book_key(isbn)) {
        if let Some(arr) = array_of(get(book, "authors"@)) {
            if forall|k: int| 0 <= k < arr.len() ==> (#[trigger] str_of(get(arr[k], "name"@))) is Some {
                lemma_author_names_all_named(arr);
            }
        }
    }
}

} // verus!
