//! CrossRef API for DOI resolution
use vstd::prelude::*;
use crate::fetch::{FetchError, FetchErrorView};
use crate::item::{Item, ItemView};
use crate::json::{
    JsonValue, array_of, first_element, first_of, get, get_opt, int_of, member_text, str_of,
    text_of,
};
use crate::text::{append_chars, i64_decimal, int_decimal, string_of, chars_of};

verus! {

/// The request address for a DOI.
pub open spec fn works_url(doi: Seq<char>) -> Seq<char> {
    "https://api.crossref.org/works/"@ + doi
}

/// The CrossRef address that describes a DOI.
pub fn doi_request_url(doi: &str) -> (r: String)
    ensures
        r@ == works_url(doi@),
{
    let mut u = String::from_str("https://api.crossref.org/works/");
    u.append(doi);
    u
}

/// An author's display name: `given family`, or the family name alone; an
/// author without a family name is left out.
pub open spec fn author_name(a: JsonValue) -> Option<Seq<char>> {
    let given = match str_of(get(a, "given"@)) {
        Some(g) => g,
        None => Seq::<char>::empty(),
    };
    let family = match str_of(get(a, "family"@)) {
        Some(f) => f,
        None => Seq::<char>::empty(),
    };
    if family.len() == 0 {
        None
    } else if given.len() == 0 {
        Some(family)
    } else {
        Some(given + seq![' '] + family)
    }
}

pub open spec fn author_names(arr: Seq<JsonValue>) -> Seq<Seq<char>>
    decreases arr.len(),
{
    if arr.len() == 0 {
        Seq::empty()
    } else {
        let rest = author_names(arr.drop_last());
        match author_name(arr.last()) {
            Some(n) => rest.push(n),
            None => rest,
        }
    }
}

/// The decimal text of each integer among `parts`, in order.
pub open spec fn int_texts(parts: Seq<JsonValue>) -> Seq<Seq<char>>
    decreases parts.len(),
{
    if parts.len() == 0 {
        Seq::empty()
    } else {
        let rest = int_texts(parts.drop_last());
        match int_of(parts.last()) {
            Some(n) => rest.push(int_decimal(n as int)),
            None => rest,
        }
    }
}

/// Texts joined with `-` between them.
pub open spec fn join_dash(parts: Seq<Seq<char>>) -> Seq<char>
    decreases parts.len(),
{
    if parts.len() == 0 {
        Seq::empty()
    } else if parts.len() == 1 {
        parts[0]
    } else {
        join_dash(parts.drop_last()) + seq!['-'] + parts.last()
    }
}

/// The first of `published-print`, `published-online` and `created` that the
/// message has.
pub open spec fn date_source(msg: JsonValue) -> Option<JsonValue> {
    match get(msg, "published-print"@) {
        Some(d) => Some(d),
        None => match get(msg, "published-online"@) {
            Some(d) => Some(d),
            None => get(msg, "created"@),
        },
    }
}

/// The first `date-parts` entry, its integers joined with `-`.
pub open spec fn message_date(msg: JsonValue) -> Option<Seq<char>> {
    match array_of(first_of(array_of(get_opt(date_source(msg), "date-parts"@)))) {
        Some(parts) => Some(join_dash(int_texts(parts))),
        None => None,
    }
}

/// CrossRef work types in the item vocabulary; others are kept as they are.
pub open spec fn item_type_of(t: Seq<char>) -> Seq<char> {
    if t == "journal-article"@ {
        "journalArticle"@
    } else if t == "book"@ {
        "book"@
    } else if t == "book-chapter"@ {
        "bookSection"@
    } else if t == "proceedings-article"@ {
        "conferencePaper"@
    } else {
        t
    }
}

/// The item that a CrossRef reply describes.
pub open spec fn response_item(data: JsonValue, doi: Seq<char>) -> Result<ItemView, FetchErrorView> {
    match get(data, "message"@) {
        None => Err(FetchErrorView::Parse("no message"@)),
        Some(msg) => Ok(
            ItemView {
                title: str_of(first_of(array_of(get(msg, "title"@)))),
                authors: match array_of(get(msg, "author"@)) {
                    Some(arr) => author_names(arr),
                    None => Seq::empty(),
                },
                date: message_date(msg),
                url: str_of(get(msg, "URL"@)),
                doi: Some(doi),
                isbn: None,
                publisher: str_of(get(msg, "publisher"@)),
                description: None,
                item_type: match str_of(get(msg, "type"@)) {
                    Some(t) => Some(item_type_of(t)),
                    None => None,
                },
                source: Some("crossref"@),
            },
        ),
    }
}

/// The value of a lookup's outcome.
pub open spec fn outcome_view(r: Result<Item, FetchError>) -> Result<ItemView, FetchErrorView> {
    match r {
        Ok(i) => Ok(i@),
        Err(e) => Err(e@),
    }
}

fn author_name_exec(a: &JsonValue) -> (r: Option<String>)
    ensures
        r.deep_view() == author_name(*a),
{
    let given = match member_text(a, "given") {
        Some(g) => g,
        None => String::new(),
    };
    let family = match member_text(a, "family") {
        Some(f) => f,
        None => String::new(),
    };
    let fam = chars_of(family.as_str());
    let giv = chars_of(given.as_str());
    if fam.len() == 0 {
        None
    } else if giv.len() == 0 {
        Some(family)
    } else {
        let mut n = giv;
        n.push(' ');
        append_chars(&mut n, fam.as_slice());
        Some(string_of(n.as_slice()))
    }
}

fn author_names_exec(arr: &Vec<JsonValue>) -> (r: Vec<String>)
    ensures
        r.deep_view() == author_names(arr@),
{
    let mut out: Vec<String> = Vec::new();
    let mut i: usize = 0;
    while i < arr.len()
        invariant
            i <= arr.len(),
            out.deep_view() == author_names(arr@.take(i as int)),
        decreases arr.len() - i,
    {
        assert(arr@.take(i + 1).drop_last() =~= arr@.take(i as int));
        if let Some(n) = author_name_exec(&arr[i]) {
            let ghost before = out.deep_view();
            out.push(n);
            assert(out.deep_view() =~= before.push(n@));
        }
        i = i + 1;
    }
    assert(arr@.take(i as int) =~= arr@);
    out
}

fn date_parts_exec(parts: &Vec<JsonValue>) -> (r: String)
    ensures
        r@ == join_dash(int_texts(parts@)),
{
    let mut out: Vec<char> = Vec::new();
    let mut count: usize = 0;
    let mut i: usize = 0;
    while i < parts.len()
        invariant
            i <= parts.len(),
            count == int_texts(parts@.take(i as int)).len(),
            count <= i,
            out@ == join_dash(int_texts(parts@.take(i as int))),
        decreases parts.len() - i,
    {
        assert(parts@.take(i + 1).drop_last() =~= parts@.take(i as int));
        let ghost prev = int_texts(parts@.take(i as int));
        if let Some(n) = parts[i].as_i64() {
            let d = i64_decimal(n);
            let ghost next = prev.push(d@);
            assert(int_texts(parts@.take(i + 1)) == next);
            assert(next.drop_last() =~= prev);
            if count > 0 {
                out.push('-');
            }
            append_chars(&mut out, d.as_slice());
            count = count + 1;
            assert(out@ =~= join_dash(next));
        }
        i = i + 1;
    }
    assert(parts@.take(i as int) =~= parts@);
    string_of(out.as_slice())
}

fn message_date_exec(msg: &JsonValue) -> (r: Option<String>)
    ensures
        r.deep_view() == message_date(*msg),
{
    let src = match msg.get("published-print") {
        Some(d) => Some(d),
        None => match msg.get("published-online") {
            Some(d) => Some(d),
            None => msg.get("created"),
        },
    };
    let dp = match src {
        Some(d) => d.get("date-parts"),
        None => None,
    };
    let first = match dp {
        Some(a) => first_element(a),
        None => None,
    };
    match first {
        Some(f) => match f.as_array() {
            Some(parts) => Some(date_parts_exec(parts)),
            None => None,
        },
        None => None,
    }
}

fn item_type_exec(t: String) -> (r: String)
    ensures
        r@ == item_type_of(t@),
{
    if crate::json::same_text(t.as_str(), "journal-article") {
        String::from_str("journalArticle")
    } else if crate::json::same_text(t.as_str(), "book") {
        String::from_str("book")
    } else if crate::json::same_text(t.as_str(), "book-chapter") {
        String::from_str("bookSection")
    } else if crate::json::same_text(t.as_str(), "proceedings-article") {
        String::from_str("conferencePaper")
    } else {
        t
    }
}

/// Reads a CrossRef reply into an item for the DOI.
pub fn parse_response(data: &JsonValue, doi: &str) -> (r: Result<Item, FetchError>)
    ensures
        outcome_view(r) == response_item(*data, doi@),
{
    let msg = match data.get("message") {
        Some(m) => m,
        None => {
            return Err(FetchError::Parse(String::from_str("no message")));
        },
    };
    let title = match msg.get("title") {
        Some(t) => match first_element(t) {
            Some(f) => text_of(f),
            None => None,
        },
        None => None,
    };
    let authors = match msg.get("author") {
        Some(a) => match a.as_array() {
            Some(arr) => author_names_exec(arr),
            None => Vec::new(),
        },
        None => Vec::new(),
    };
    let date = message_date_exec(msg);
    let publisher = member_text(msg, "publisher");
    let url = member_text(msg, "URL");
    let item_type = match member_text(msg, "type") {
        Some(t) => Some(item_type_exec(t)),
        None => None,
    };
    let item = Item {
        title,
        authors,
        date,
        url,
        doi: Some(String::from_str(doi)),
        isbn: None,
        publisher,
        description: None,
        item_type,
        source: Some(String::from_str("crossref")),
    };
    proof {
        if array_of(get(*msg, "author"@)) is None {
            assert(item.authors.deep_view() =~= Seq::<Seq<char>>::empty());
        }
    }
    Ok(item)
}

/// A CrossRef reply is read whenever it has a `message`; the item then
/// records the DOI that was asked for and comes from CrossRef.
pub proof fn law_reply_keeps_doi(data: JsonValue, doi: Seq<char>)
    ensures
        response_item(data, doi) is Ok <==> get(data, "message"@) is Some,
        response_item(data, doi) matches Ok(i) ==> i.doi == Some(doi) && i.source == Some(
            "crossref"@,
        ),
        response_item(data, doi) matches Err(e) ==> e == FetchErrorView::Parse("no message"@),
{
}

/// CrossRef work types in the item vocabulary: `journal-article` is a
/// `journalArticle`, `book` a `book`, `book-chapter` a `bookSection`,
/// `proceedings-article` a `conferencePaper`; any other type is kept as it is,
/// and a reply whose type is not text has no item type.
pub proof fn law_crossref_item_types(data: JsonValue, doi: Seq<char>)
    ensures
        get(data, "message"@) matches Some(msg) ==> (str_of(get(msg, "type"@)) == Some(
            "journal-article"@,
        ) ==> response_item(data, doi) is Ok && response_item(data, doi)->Ok_0.item_type == Some(
            "journalArticle"@,
        )),
        get(data, "message"@) matches Some(msg) ==> (str_of(get(msg, "type"@)) == Some("book"@)
            ==> response_item(data, doi) is Ok && response_item(data, doi)->Ok_0.item_type == Some(
            "book"@,
        )),
        get(data, "message"@) matches Some(msg) ==> (str_of(get(msg, "type"@)) == Some(
            "book-chapter"@,
        ) ==> response_item(data, doi) is Ok && response_item(data, doi)->Ok_0.item_type == Some(
            "bookSection"@,
        )),
        get(data, "message"@) matches Some(msg) ==> (str_of(get(msg, "type"@)) == Some(
            "proceedings-article"@,
        ) ==> response_item(data, doi) is Ok && response_item(data, doi)->Ok_0.item_type == Some(
            "conferencePaper"@,
        )),
        get(data, "message"@) matches Some(msg) ==> (str_of(get(msg, "type"@)) matches Some(t) ==> (
        t != "journal-article"@ && t != "book"@ && t != "book-chapter"@ && t
            != "proceedings-article"@ ==> response_item(data, doi) is Ok && response_item(
            data,
            doi,
        )->Ok_0.item_type == Some(t))),
        get(data, "message"@) matches Some(msg) ==> (str_of(get(msg, "type"@)) is None
            ==> response_item(data, doi) is Ok && response_item(data, doi)->Ok_0.item_type is None),
{
    reveal_strlit("journal-article");
    reveal_strlit("book");
    reveal_strlit("book-chapter");
    reveal_strlit("proceedings-article");
    assert("book-chapter"@.len() != "journal-article"@.len());
    assert("book-chapter"@.len() != "book"@.len());
    assert("proceedings-article"@.len() != "journal-article"@.len());
    assert("proceedings-article"@.len() != "book"@.len());
    assert("proceedings-article"@.len() != "book-chapter"@.len());
    assert("book"@.len() != "journal-article"@.len());
}

/// An author entry with a non-empty family name: `given family`, or the
/// family name alone when the given name is missing or empty.
pub open spec fn display_name(a: JsonValue) -> Seq<char> {
    let family = str_of(get(a, "family"@))->Some_0;
    match str_of(get(a, "given"@)) {
        Some(g) => if g.len() > 0 {
            g + seq![' '] + family
        } else {
            family
        },
        None => family,
    }
}

pub open spec fn has_family(a: JsonValue) -> bool {
    str_of(get(a, "family"@)) matches Some(f) && f.len() > 0
}

proof fn lemma_author_names_all_named(arr: Seq<JsonValue>)
    requires
        forall|k: int| 0 <= k < arr.len() ==> has_family(#[trigger] arr[k]),
    ensures
        author_names(arr).len() == arr.len(),
        forall|k: int| 0 <= k < arr.len() ==> #[trigger] author_names(arr)[k] == display_name(arr[k]),
    decreases arr.len(),
{
    if arr.len() > 0 {
        let front = arr.drop_last();
        assert forall|k: int| 0 <= k < front.len() implies has_family(#[trigger] front[k]) by {
            assert(front[k] == arr[k]);
        }
        lemma_author_names_all_named(front);
        assert(has_family(arr[arr.len() - 1]));
        assert forall|k: int| 0 <= k < arr.len() implies #[trigger] author_names(arr)[k]
            == display_name(arr[k]) by {
            if k < front.len() {
                assert(front[k] == arr[k]);
                assert(author_names(arr)[k] == author_names(front)[k]);
            }
        }
    }
}

/// The authors of a CrossRef item follow the reply's `author` array in order:
/// when every entry has a family name, author `k` is entry `k` as
/// `given family` (or the family name alone).
pub proof fn law_crossref_authors_in_order(data: JsonValue, doi: Seq<char>)
    ensures
        get(data, "message"@) matches Some(msg) ==> (array_of(get(msg, "author"@)) matches Some(arr)
            ==> ((forall|k: int| 0 <= k < arr.len() ==> has_family(#[trigger] arr[k]))
            ==> response_item(data, doi) is Ok && response_item(data, doi)->Ok_0.authors.len()
            == arr.len() && forall|k: int|
            0 <= k < arr.len() ==> #[trigger] response_item(data, doi)->Ok_0.authors[k]
                == display_name(arr[k]))),
{
    if let Some(msg) = get(data, "message"@) {
        if let Some(arr) = array_of(get(msg, "author"@)) {
            if forall|k: int| 0 <= k < arr.len() ==> has_family(#[trigger] arr[k]) {
                lemma_author_names_all_named(arr);
            }
        }
    }
}

} // verus!
