//! HTML metadata extraction
//!
//! Extracts metadata from JSON-LD, OpenGraph, Dublin Core, Highwire Press tags, and standard meta tags.
use vstd::prelude::*;
use crate::item::{Item, ItemView, empty_item, opt_item};
use crate::json::{JsonValue, array_of, get, same_text, str_of, text_of};
use crate::text::{chars_of, starts_with, starts_with_exec, string_of, sub_chars, trim, trim_string};

verus! {

/// For the document that `scraper::Html::parse_document` reads from `html`:
/// `None` when `scraper::Selector::parse(selector)` fails, else the attribute
/// `attr` of each element that the selector matches, in the order in which
/// `Html::select` yields them (the order in which the parser created the
/// nodes, which reparenting can make differ from document order).
pub uninterp spec fn selected_attrs(html: Seq<char>, selector: Seq<char>, attr: Seq<char>) -> Option<
    Seq<Option<Seq<char>>>,
>;

/// For the document that `scraper::Html::parse_document` reads from `html`:
/// `None` when `scraper::Selector::parse(selector)` fails, else the text of
/// each element that the selector matches, in the order in which
/// `Html::select` yields them.
pub uninterp spec fn selected_texts(html: Seq<char>, selector: Seq<char>) -> Option<Seq<Seq<char>>>;

/// Parses the document and the selector with `scraper` and reads one
/// attribute of every selected element; the contract names the outcome, which
/// depends on the three strings alone.
#[verifier::external_body]
fn select_attrs(html: &str, selector: &str, attr: &str) -> (r: Option<Vec<Option<String>>>)
    ensures
        r.deep_view() == selected_attrs(html@, selector@, attr@),
{
    let doc = scraper::Html::parse_document(html);
    let sel = scraper::Selector::parse(selector).ok()?;
    Some(doc.select(&sel).map(|el| el.value().attr(attr).map(String::from)).collect())
}

/// Parses the document and the selector with `scraper` and collects the text
/// of every selected element; the contract names the outcome, which depends
/// on the two strings alone.
#[verifier::external_body]
fn select_texts(html: &str, selector: &str) -> (r: Option<Vec<String>>)
    ensures
        r.deep_view() == selected_texts(html@, selector@),
{
    let doc = scraper::Html::parse_document(html);
    let sel = scraper::Selector::parse(selector).ok()?;
    Some(doc.select(&sel).map(|el| el.text().collect::<String>()).collect())
}

/// The selector for `<meta name="...">`.
pub open spec fn name_selector(name: Seq<char>) -> Seq<char> {
    "meta[name=\""@ + name + "\"]"@
}

/// The selector for `<meta property="...">`.
pub open spec fn property_selector(name: Seq<char>) -> Seq<char> {
    "meta[property=\""@ + name + "\"]"@
}

/// The selector for JSON-LD scripts.
pub open spec fn jsonld_selector() -> Seq<char> {
    "script[type=\"application/ld+json\"]"@
}

/// A `content` attribute trimmed, when something is left.
pub open spec fn usable(content: Option<Seq<char>>) -> Option<Seq<char>> {
    match content {
        Some(c) => if trim(c).len() > 0 {
            Some(trim(c))
        } else {
            None
        },
        None => None,
    }
}

/// The usable content of the first selected element.
pub open spec fn first_usable(els: Seq<Option<Seq<char>>>) -> Option<Seq<char>> {
    if els.len() > 0 {
        usable(els[0])
    } else {
        None
    }
}

/// The usable contents of all selected elements, in order.
pub open spec fn all_usable(els: Seq<Option<Seq<char>>>) -> Seq<Seq<char>>
    decreases els.len(),
{
    if els.len() == 0 {
        Seq::empty()
    } else {
        let rest = all_usable(els.drop_last());
        match usable(els.last()) {
            Some(c) => rest.push(c),
            None => rest,
        }
    }
}

/// A single meta value: the first `<meta name=...>`, else the first
/// `<meta property=...>` (OpenGraph); only the first element of each kind is
/// looked at.
pub open spec fn meta_value(html: Seq<char>, name: Seq<char>) -> Option<Seq<char>> {
    match selected_attrs(html, name_selector(name), "content"@) {
        None => None,
        Some(els) => match first_usable(els) {
            Some(v) => Some(v),
            None => match selected_attrs(html, property_selector(name), "content"@) {
                None => None,
                Some(els2) => first_usable(els2),
            },
        },
    }
}

/// All values of `<meta name=...>` tags with that name.
pub open spec fn meta_values(html: Seq<char>, name: Seq<char>) -> Seq<Seq<char>> {
    match selected_attrs(html, name_selector(name), "content"@) {
        Some(els) => all_usable(els),
        None => Seq::empty(),
    }
}

pub open spec fn or_else(a: Option<Seq<char>>, b: Option<Seq<char>>) -> Option<Seq<char>> {
    match a {
        Some(x) => Some(x),
        None => b,
    }
}

fn selector_for(prefix: &str, name: &str) -> (r: String)
    ensures
        r@ == prefix@ + name@ + "\"]"@,
{
    let mut s = String::from_str(prefix);
    s.append(name);
    s.append("\"]");
    s
}

fn usable_exec(content: &Option<String>) -> (r: Option<String>)
    ensures
        r.deep_view() == usable(content.deep_view()),
{
    match content {
        Some(c) => {
            let t = trim_string(c.as_str());
            let tc = chars_of(t.as_str());
            if tc.len() > 0 {
                Some(t)
            } else {
                None
            }
        },
        None => None,
    }
}

fn first_usable_exec(els: &Vec<Option<String>>) -> (r: Option<String>)
    ensures
        r.deep_view() == first_usable(els.deep_view()),
{
    if els.len() > 0 {
        usable_exec(&els[0])
    } else {
        None
    }
}

/// Get a single meta tag value
fn get_meta(html: &str, name: &str) -> (r: Option<String>)
    ensures
        r.deep_view() == meta_value(html@, name@),
{
    let by_name = select_attrs(html, selector_for("meta[name=\"", name).as_str(), "content");
    let els = match by_name {
        Some(e) => e,
        None => {
            return None;
        },
    };
    if let Some(v) = first_usable_exec(&els) {
        return Some(v);
    }
    match select_attrs(html, selector_for("meta[property=\"", name).as_str(), "content") {
        Some(e2) => first_usable_exec(&e2),
        None => None,
    }
}

/// Get all meta tag values with the same name
fn get_all_meta(html: &str, name: &str) -> (r: Vec<String>)
    ensures
        r.deep_view() == meta_values(html@, name@),
{
    let mut values: Vec<String> = Vec::new();
    if let Some(els) = select_attrs(html, selector_for("meta[name=\"", name).as_str(), "content") {
        let mut i: usize = 0;
        while i < els.len()
            invariant
                i <= els.len(),
                values.deep_view() == all_usable(els.deep_view().take(i as int)),
            decreases els.len() - i,
        {
            assert(els.deep_view().take(i + 1).drop_last() =~= els.deep_view().take(i as int));
            if let Some(c) = usable_exec(&els[i]) {
                let ghost before = values.deep_view();
                values.push(c);
                assert(values.deep_view() =~= before.push(c@));
            }
            i = i + 1;
        }
        assert(els.deep_view().take(i as int) =~= els.deep_view());
    } else {
        assert(values.deep_view() =~= Seq::<Seq<char>>::empty());
    }
    values
}

/// Highwire Press tags, as academic publishers write them.
pub open spec fn highwire_item(html: Seq<char>) -> Option<ItemView> {
    match meta_value(html, "citation_title"@) {
        None => None,
        Some(title) => Some(
            ItemView {
                title: Some(title),
                authors: meta_values(html, "citation_author"@),
                date: or_else(
                    meta_value(html, "citation_publication_date"@),
                    meta_value(html, "citation_date"@),
                ),
                doi: meta_value(html, "citation_doi"@),
                publisher: meta_value(html, "citation_publisher"@),
                item_type: Some("journalArticle"@),
                source: Some("highwire"@),
                ..empty_item()
            },
        ),
    }
}

/// Extract from Highwire Press meta tags (academic papers)
fn extract_highwire(html: &str) -> (r: Option<Item>)
    ensures
        opt_item(r) == highwire_item(html@),
{
    let title = match get_meta(html, "citation_title") {
        Some(t) => t,
        None => {
            return None;
        },
    };
    let authors = get_all_meta(html, "citation_author");
    let date = match get_meta(html, "citation_publication_date") {
        Some(d) => Some(d),
        None => get_meta(html, "citation_date"),
    };
    let doi = get_meta(html, "citation_doi");
    let publisher = get_meta(html, "citation_publisher");
    Some(
        Item {
            title: Some(title),
            authors,
            date,
            url: None,
            doi,
            isbn: None,
            publisher,
            description: None,
            item_type: Some(String::from_str("journalArticle")),
            source: Some(String::from_str("highwire")),
        },
    )
}

/// Dublin Core tags, under `DC.` or `dc.`.
pub open spec fn dublincore_item(html: Seq<char>) -> Option<ItemView> {
    match or_else(meta_value(html, "DC.title"@), meta_value(html, "dc.title"@)) {
        None => None,
        Some(title) => Some(
            ItemView {
                title: Some(title),
                authors: meta_values(html, "DC.creator"@) + meta_values(html, "dc.creator"@),
                date: or_else(meta_value(html, "DC.date"@), meta_value(html, "dc.date"@)),
                publisher: or_else(
                    meta_value(html, "DC.publisher"@),
                    meta_value(html, "dc.publisher"@),
                ),
                description: or_else(
                    meta_value(html, "DC.description"@),
                    meta_value(html, "dc.description"@),
                ),
                item_type: Some("document"@),
                source: Some("dublincore"@),
                ..empty_item()
            },
        ),
    }
}

fn meta_either(html: &str, upper: &str, lower: &str) -> (r: Option<String>)
    ensures
        r.deep_view() == or_else(meta_value(html@, upper@), meta_value(html@, lower@)),
{
    match get_meta(html, upper) {
        Some(v) => Some(v),
        None => get_meta(html, lower),
    }
}

/// Extract from Dublin Core meta tags
fn extract_dublincore(html: &str) -> (r: Option<Item>)
    ensures
        opt_item(r) == dublincore_item(html@),
{
    let title = match meta_either(html, "DC.title", "dc.title") {
        Some(t) => t,
        None => {
            return None;
        },
    };
    let mut authors = get_all_meta(html, "DC.creator");
    let mut lower = get_all_meta(html, "dc.creator");
    let ghost a0 = authors.deep_view();
    let ghost a1 = lower.deep_view();
    authors.append(&mut lower);
    assert(authors.deep_view() =~= a0 + a1);
    let date = meta_either(html, "DC.date", "dc.date");
    let publisher = meta_either(html, "DC.publisher", "dc.publisher");
    let description = meta_either(html, "DC.description", "dc.description");
    Some(
        Item {
            title: Some(title),
            authors,
            date,
            url: None,
            doi: None,
            isbn: None,
            publisher,
            description,
            item_type: Some(String::from_str("document")),
            source: Some(String::from_str("dublincore")),
        },
    )
}

/// OpenGraph `og:type` values in the item vocabulary.
pub open spec fn og_item_type(t: Seq<char>) -> Seq<char> {
    if starts_with(t, "video"@) {
        "video"@
    } else if t == "article"@ {
        "journalArticle"@
    } else if t == "book"@ {
        "book"@
    } else if t == "music.song"@ || t == "music.album"@ {
        "audio"@
    } else {
        "webpage"@
    }
}

/// OpenGraph tags.
pub open spec fn opengraph_item(html: Seq<char>) -> Option<ItemView> {
    match meta_value(html, "og:title"@) {
        None => None,
        Some(title) => Some(
            ItemView {
                title: Some(title),
                url: meta_value(html, "og:url"@),
                description: meta_value(html, "og:description"@),
                item_type: match meta_value(html, "og:type"@) {
                    Some(t) => Some(og_item_type(t)),
                    None => None,
                },
                source: Some("opengraph"@),
                ..empty_item()
            },
        ),
    }
}

fn og_item_type_exec(t: &String) -> (r: String)
    ensures
        r@ == og_item_type(t@),
{
    let tc = chars_of(t.as_str());
    let video = chars_of("video");
    if starts_with_exec(tc.as_slice(), video.as_slice()) {
        String::from_str("video")
    } else if crate::json::same_text(t.as_str(), "article") {
        String::from_str("journalArticle")
    } else if crate::json::same_text(t.as_str(), "book") {
        String::from_str("book")
    } else if crate::json::same_text(t.as_str(), "music.song") || crate::json::same_text(
        t.as_str(),
        "music.album",
    ) {
        String::from_str("audio")
    } else {
        String::from_str("webpage")
    }
}

/// Extract from OpenGraph meta tags
fn extract_opengraph(html: &str) -> (r: Option<Item>)
    ensures
        opt_item(r) == opengraph_item(html@),
{
    let title = match get_meta(html, "og:title") {
        Some(t) => t,
        None => {
            return None;
        },
    };
    let item_type = match get_meta(html, "og:type") {
        Some(t) => Some(og_item_type_exec(&t)),
        None => None,
    };
    let description = get_meta(html, "og:description");
    let url = get_meta(html, "og:url");
    let item = Item {
        title: Some(title),
        authors: Vec::new(),
        date: None,
        url,
        doi: None,
        isbn: None,
        publisher: None,
        description,
        item_type,
        source: Some(String::from_str("opengraph")),
    };
    assert(item.authors.deep_view() =~= Seq::<Seq<char>>::empty());
    Some(item)
}

/// The `<title>` element with `description` and `author` meta tags.
pub open spec fn plain_meta_item(html: Seq<char>) -> Option<ItemView> {
    match selected_texts(html, "title"@) {
        None => None,
        Some(ts) => if ts.len() > 0 && trim(ts[0]).len() > 0 {
            Some(
                ItemView {
                    title: Some(trim(ts[0])),
                    authors: match meta_value(html, "author"@) {
                        Some(a) => seq![a],
                        None => Seq::empty(),
                    },
                    description: meta_value(html, "description"@),
                    item_type: Some("webpage"@),
                    source: Some("meta"@),
                    ..empty_item()
                },
            )
        } else {
            None
        },
    }
}

/// Extract from standard meta tags
fn extract_meta(html: &str) -> (r: Option<Item>)
    ensures
        opt_item(r) == plain_meta_item(html@),
{
    let titles = match select_texts(html, "title") {
        Some(ts) => ts,
        None => {
            return None;
        },
    };
    if titles.len() == 0 {
        return None;
    }
    let title = trim_string(titles[0].as_str());
    let tc = chars_of(title.as_str());
    if tc.len() == 0 {
        return None;
    }
    let description = get_meta(html, "description");
    let author = get_meta(html, "author");
    let mut authors: Vec<String> = Vec::new();
    if let Some(a) = author {
        authors.push(a);
    }
    let item = Item {
        title: Some(title),
        authors,
        date: None,
        url: None,
        doi: None,
        isbn: None,
        publisher: None,
        description,
        item_type: Some(String::from_str("webpage")),
        source: Some(String::from_str("meta")),
    };
    assert(item.authors.deep_view() =~= match meta_value(html@, "author"@) {
        Some(a) => seq![a],
        None => Seq::<Seq<char>>::empty(),
    });
    Some(item)
}

/// The text of each JSON-LD script of the page, in the order in which
/// `Html::select` yields them.
pub open spec fn jsonld_texts(html: Seq<char>) -> Seq<Seq<char>> {
    match selected_texts(html, jsonld_selector()) {
        Some(ts) => ts,
        None => Seq::empty(),
    }
}

/// The JSON-LD scripts of a page (`<script type="application/ld+json">`),
/// whose text a JSON reader turns into the documents that `extract_html`
/// takes.
pub fn jsonld_scripts(html: &str) -> (r: Vec<String>)
    ensures
        r.deep_view() == jsonld_texts(html@),
{
    match select_texts(html, "script[type=\"application/ld+json\"]") {
        Some(ts) => ts,
        None => {
            let v: Vec<String> = Vec::new();
            assert(v.deep_view() =~= Seq::<Seq<char>>::empty());
            v
        },
    }
}

/// The `@type` of a JSON-LD object: a string, or the first entry of an array.
pub open spec fn jsonld_type(obj: JsonValue) -> Option<Seq<char>> {
    match get(obj, "@type"@) {
        Some(JsonValue::Str(s)) => Some(s@),
        Some(JsonValue::Array(arr)) => if arr@.len() > 0 {
            str_of(Some(arr@[0]))
        } else {
            None
        },
        _ => None,
    }
}

/// The schema.org types that are read, in the item vocabulary.
pub open spec fn jsonld_item_type(t: Seq<char>) -> Option<Seq<char>> {
    if t == "Article"@ || t == "NewsArticle"@ || t == "ScholarlyArticle"@ || t == "TechArticle"@ {
        Some("journalArticle"@)
    } else if t == "Book"@ {
        Some("book"@)
    } else if t == "WebPage"@ || t == "WebSite"@ {
        Some("webpage"@)
    } else if t == "VideoObject"@ {
        Some("video"@)
    } else if t == "BlogPosting"@ {
        Some("blogPost"@)
    } else {
        None
    }
}

pub open spec fn or_value(a: Option<JsonValue>, b: Option<JsonValue>) -> Option<JsonValue> {
    match a {
        Some(x) => Some(x),
        None => b,
    }
}

/// Author names: a string entry is the name, an object entry gives its
/// `name`; other entries are left out.
pub open spec fn jsonld_author_list(arr: Seq<JsonValue>) -> Seq<Seq<char>>
    decreases arr.len(),
{
    if arr.len() == 0 {
        Seq::empty()
    } else {
        let rest = jsonld_author_list(arr.drop_last());
        match str_of(Some(arr.last())) {
            Some(n) => rest.push(n),
            None => match str_of(get(arr.last(), "name"@)) {
                Some(n) => rest.push(n),
                None => rest,
            },
        }
    }
}

/// The `author` member, one value or an array of them.
pub open spec fn jsonld_authors(obj: JsonValue) -> Seq<Seq<char>> {
    match get(obj, "author"@) {
        None => Seq::empty(),
        Some(JsonValue::Array(arr)) => jsonld_author_list(arr@),
        Some(other) => jsonld_author_list(seq![other]),
    }
}

/// At most the first `n` characters.
pub open spec fn first_chars(s: Seq<char>, n: nat) -> Seq<char> {
    if s.len() <= n {
        s
    } else {
        s.take(n as int)
    }
}

/// The item that one JSON-LD object describes.
pub open spec fn jsonld_object_item(obj: JsonValue) -> Option<ItemView> {
    match jsonld_type(obj) {
        None => None,
        Some(t) => match jsonld_item_type(t) {
            None => None,
            Some(normalized) => {
                let title = str_of(or_value(get(obj, "headline"@), get(obj, "name"@)));
                let authors = jsonld_authors(obj);
                if title is None && authors.len() == 0 {
                    None
                } else {
                    Some(
                        ItemView {
                            title: title,
                            authors: authors,
                            date: match str_of(
                                or_value(get(obj, "datePublished"@), get(obj, "dateCreated"@)),
                            ) {
                                Some(d) => Some(first_chars(d, 10)),
                                None => None,
                            },
                            url: str_of(get(obj, "url"@)),
                            publisher: str_of(
                                match get(obj, "publisher"@) {
                                    Some(p) => or_value(get(p, "name"@), Some(p)),
                                    None => None,
                                },
                            ),
                            description: str_of(get(obj, "description"@)),
                            item_type: Some(normalized),
                            source: Some("jsonld"@),
                            ..empty_item()
                        },
                    )
                }
            },
        },
    }
}

/// The first entry that describes an item.
pub open spec fn first_object_item(entries: Seq<JsonValue>) -> Option<ItemView>
    decreases entries.len(),
{
    if entries.len() == 0 {
        None
    } else {
        match jsonld_object_item(entries[0]) {
            Some(i) => Some(i),
            None => first_object_item(entries.drop_first()),
        }
    }
}

/// The item of a JSON-LD document: from its `@graph`, else from its entries
/// when it is an array, else from the document itself.
pub open spec fn jsonld_value_item(data: JsonValue) -> Option<ItemView> {
    let from_graph = match array_of(get(data, "@graph"@)) {
        Some(g) => first_object_item(g),
        None => None,
    };
    let from_array = match array_of(Some(data)) {
        Some(a) => first_object_item(a),
        None => None,
    };
    match from_graph {
        Some(i) => Some(i),
        None => match from_array {
            Some(i) => Some(i),
            None => jsonld_object_item(data),
        },
    }
}

/// The item of the first JSON-LD document that describes one.
pub open spec fn jsonld_item(docs: Seq<JsonValue>) -> Option<ItemView>
    decreases docs.len(),
{
    if docs.len() == 0 {
        None
    } else {
        match jsonld_value_item(docs[0]) {
            Some(i) => Some(i),
            None => jsonld_item(docs.drop_first()),
        }
    }
}

fn jsonld_type_exec(obj: &JsonValue) -> (r: Option<String>)
    ensures
        r.deep_view() == jsonld_type(*obj),
{
    match obj.get("@type") {
        Some(JsonValue::Str(s)) => Some(s.clone()),
        Some(JsonValue::Array(arr)) => if arr.len() > 0 {
            text_of(&arr[0])
        } else {
            None
        },
        _ => None,
    }
}

fn jsonld_item_type_exec(t: &str) -> (r: Option<String>)
    ensures
        r.deep_view() == jsonld_item_type(t@),
{
    if same_text(t, "Article") || same_text(t, "NewsArticle") || same_text(t, "ScholarlyArticle")
        || same_text(t, "TechArticle") {
        Some(String::from_str("journalArticle"))
    } else if same_text(t, "Book") {
        Some(String::from_str("book"))
    } else if same_text(t, "WebPage") || same_text(t, "WebSite") {
        Some(String::from_str("webpage"))
    } else if same_text(t, "VideoObject") {
        Some(String::from_str("video"))
    } else if same_text(t, "BlogPosting") {
        Some(String::from_str("blogPost"))
    } else {
        None
    }
}

fn author_entry(a: &JsonValue) -> (r: Option<String>)
    ensures
        r.deep_view() == match str_of(Some(*a)) {
            Some(n) => Some(n),
            None => str_of(get(*a, "name"@)),
        },
{
    match text_of(a) {
        Some(n) => Some(n),
        None => crate::json::member_text(a, "name"),
    }
}

fn extract_jsonld_authors(obj: &JsonValue) -> (r: Vec<String>)
    ensures
        r.deep_view() == jsonld_authors(*obj),
{
    let mut out: Vec<String> = Vec::new();
    match obj.get("author") {
        None => {
            assert(out.deep_view() =~= Seq::<Seq<char>>::empty());
        },
        Some(JsonValue::Array(arr)) => {
            let mut i: usize = 0;
            while i < arr.len()
                invariant
                    i <= arr.len(),
                    out.deep_view() == jsonld_author_list(arr@.take(i as int)),
                decreases arr.len() - i,
            {
                assert(arr@.take(i + 1).drop_last() =~= arr@.take(i as int));
                if let Some(n) = author_entry(&arr[i]) {
                    let ghost before = out.deep_view();
                    out.push(n);
                    assert(out.deep_view() =~= before.push(n@));
                }
                i = i + 1;
            }
            assert(arr@.take(i as int) =~= arr@);
        },
        Some(other) => {
            let ghost one = seq![*other];
            assert(one.drop_last() =~= Seq::<JsonValue>::empty());
            assert(one.last() == *other);
            assert(jsonld_author_list(one.drop_last()) =~= Seq::<Seq<char>>::empty());
            if let Some(n) = author_entry(other) {
                out.push(n);
                assert(out.deep_view() =~= seq![n@]);
            } else {
                assert(out.deep_view() =~= Seq::<Seq<char>>::empty());
            }
            assert(out.deep_view() =~= jsonld_author_list(one));
        },
    }
    out
}

fn first_chars_exec(s: &String, n: usize) -> (r: String)
    ensures
        r@ == first_chars(s@, n as nat),
{
    let cs = chars_of(s.as_str());
    if cs.len() <= n {
        s.clone()
    } else {
        string_of(sub_chars(cs.as_slice(), 0, n).as_slice())
    }
}

fn or_member<'a>(obj: &'a JsonValue, a: &str, b: &str) -> (r: Option<&'a JsonValue>)
    ensures
        match r {
            Some(x) => or_value(get(*obj, a@), get(*obj, b@)) == Some(*x),
            None => or_value(get(*obj, a@), get(*obj, b@)) is None,
        },
{
    match obj.get(a) {
        Some(x) => Some(x),
        None => obj.get(b),
    }
}

fn parse_jsonld_object(obj: &JsonValue) -> (r: Option<Item>)
    ensures
        opt_item(r) == jsonld_object_item(*obj),
{
    let found_type = match jsonld_type_exec(obj) {
        Some(t) => t,
        None => {
            return None;
        },
    };
    let normalized = match jsonld_item_type_exec(found_type.as_str()) {
        Some(n) => n,
        None => {
            return None;
        },
    };
    let title = match or_member(obj, "headline", "name") {
        Some(v) => text_of(v),
        None => None,
    };
    let authors = extract_jsonld_authors(obj);
    let date = match or_member(obj, "datePublished", "dateCreated") {
        Some(v) => match text_of(v) {
            Some(d) => Some(first_chars_exec(&d, 10)),
            None => None,
        },
        None => None,
    };
    let url = crate::json::member_text(obj, "url");
    let description = crate::json::member_text(obj, "description");
    let publisher = match obj.get("publisher") {
        Some(p) => match p.get("name") {
            Some(n) => text_of(n),
            None => text_of(p),
        },
        None => None,
    };
    if title.is_none() && authors.len() == 0 {
        return None;
    }
    Some(
        Item {
            title,
            authors,
            date,
            url,
            doi: None,
            isbn: None,
            publisher,
            description,
            item_type: Some(normalized),
            source: Some(String::from_str("jsonld")),
        },
    )
}

fn first_entry_item(entries: &Vec<JsonValue>) -> (r: Option<Item>)
    ensures
        opt_item(r) == first_object_item(entries@),
{
    let mut i: usize = 0;
    assert(entries@.skip(0) =~= entries@);
    while i < entries.len()
        invariant
            i <= entries.len(),
            first_object_item(entries@) == first_object_item(entries@.skip(i as int)),
        decreases entries.len() - i,
    {
        assert(entries@.skip(i as int).drop_first() =~= entries@.skip(i + 1));
        assert(entries@.skip(i as int)[0] == entries@[i as int]);
        if let Some(item) = parse_jsonld_object(&entries[i]) {
            return Some(item);
        }
        i = i + 1;
    }
    None
}

fn parse_jsonld_value(data: &JsonValue) -> (r: Option<Item>)
    ensures
        opt_item(r) == jsonld_value_item(*data),
{
    if let Some(g) = data.get("@graph") {
        if let Some(entries) = g.as_array() {
            if let Some(item) = first_entry_item(entries) {
                return Some(item);
            }
        }
    }
    if let Some(arr) = data.as_array() {
        if let Some(item) = first_entry_item(arr) {
            return Some(item);
        }
    }
    parse_jsonld_object(data)
}

/// Extract from JSON-LD structured data
fn extract_jsonld(docs: &Vec<JsonValue>) -> (r: Option<Item>)
    ensures
        opt_item(r) == jsonld_item(docs@),
{
    let mut i: usize = 0;
    assert(docs@.skip(0) =~= docs@);
    while i < docs.len()
        invariant
            i <= docs.len(),
            jsonld_item(docs@) == jsonld_item(docs@.skip(i as int)),
        decreases docs.len() - i,
    {
        assert(docs@.skip(i as int).drop_first() =~= docs@.skip(i + 1));
        assert(docs@.skip(i as int)[0] == docs@[i as int]);
        if let Some(item) = parse_jsonld_value(&docs[i]) {
            return Some(item);
        }
        i = i + 1;
    }
    None
}

/// The items of a page: from the first source that yields one, in priority
/// order JSON-LD, Highwire Press, Dublin Core, OpenGraph, plain meta tags.
pub open spec fn page_items(html: Seq<char>, docs: Seq<JsonValue>) -> Seq<ItemView> {
    match jsonld_item(docs) {
        Some(i) => seq![i],
        None => match highwire_item(html) {
            Some(i) => seq![i],
            None => match dublincore_item(html) {
                Some(i) => seq![i],
                None => match opengraph_item(html) {
                    Some(i) => seq![i],
                    None => match plain_meta_item(html) {
                        Some(i) => seq![i],
                        None => Seq::empty(),
                    },
                },
            },
        },
    }
}

pub open spec fn items_view(items: Seq<Item>) -> Seq<ItemView> {
    items.map_values(|i: Item| i@)
}

fn single(item: Item) -> (r: Vec<Item>)
    ensures
        items_view(r@) == seq![item@],
{
    let mut v: Vec<Item> = Vec::new();
    v.push(item);
    assert(items_view(v@) =~= seq![item@]);
    v
}

/// Extract metadata from HTML content. `jsonld` holds the JSON-LD scripts of
/// the page that read as JSON, parsed, in the order of [`jsonld_scripts`].
pub fn extract_html(html: &str, jsonld: &Vec<JsonValue>) -> (r: Vec<Item>)
    ensures
        items_view(r@) == page_items(html@, jsonld@),
{
    if let Some(item) = extract_jsonld(jsonld) {
        return single(item);
    }
    if let Some(item) = extract_highwire(html) {
        return single(item);
    }
    if let Some(item) = extract_dublincore(html) {
        return single(item);
    }
    if let Some(item) = extract_opengraph(html) {
        return single(item);
    }
    if let Some(item) = extract_meta(html) {
        return single(item);
    }
    let v: Vec<Item> = Vec::new();
    assert(items_view(v@) =~= Seq::<ItemView>::empty());
    v
}

/// An item with a title or an author.
pub open spec fn titled(i: ItemView) -> bool {
    i.title is Some || i.authors.len() > 0
}

proof fn lemma_first_object_item_titled(entries: Seq<JsonValue>)
    ensures
        first_object_item(entries) matches Some(i) ==> titled(i),
    decreases entries.len(),
{
    if entries.len() > 0 {
        lemma_first_object_item_titled(entries.drop_first());
    }
}

proof fn lemma_jsonld_item_titled(docs: Seq<JsonValue>)
    ensures
        jsonld_item(docs) matches Some(i) ==> titled(i),
    decreases docs.len(),
{
    if docs.len() > 0 {
        lemma_jsonld_item_titled(docs.drop_first());
        let d = docs[0];
        match array_of(get(d, "@graph"@)) {
            Some(g) => lemma_first_object_item_titled(g),
            None => {},
        }
        match array_of(Some(d)) {
            Some(a) => lemma_first_object_item_titled(a),
            None => {},
        }
    }
}

/// A page gives at most one item, and an item always has a title or an
/// author.
pub proof fn law_page_items_titled(html: Seq<char>, docs: Seq<JsonValue>)
    ensures
        page_items(html, docs).len() <= 1,
        forall|k: int| 0 <= k < page_items(html, docs).len() ==> titled(#[trigger] page_items(html, docs)[k]),
{
    lemma_jsonld_item_titled(docs);
}

proof fn lemma_first_object_item_source(entries: Seq<JsonValue>)
    ensures
        first_object_item(entries) matches Some(i) ==> i.source == Some("jsonld"@),
    decreases entries.len(),
{
    if entries.len() > 0 {
        lemma_first_object_item_source(entries.drop_first());
    }
}

proof fn lemma_jsonld_item_source(docs: Seq<JsonValue>)
    ensures
        jsonld_item(docs) matches Some(i) ==> i.source == Some("jsonld"@),
    decreases docs.len(),
{
    if docs.len() > 0 {
        lemma_jsonld_item_source(docs.drop_first());
        let d = docs[0];
        match array_of(get(d, "@graph"@)) {
            Some(g) => lemma_first_object_item_source(g),
            None => {},
        }
        match array_of(Some(d)) {
            Some(a) => lemma_first_object_item_source(a),
            None => {},
        }
    }
}

/// The extractors are tried in a fixed order: JSON-LD, Highwire Press,
/// Dublin Core, OpenGraph, then the plain `<title>` and meta tags. A page
/// without a JSON-LD item but with a `citation_title` gives the Highwire item
/// (its title, every `citation_author`, its `citation_doi`) whatever other
/// tags it has; each later kind of item comes only when no earlier kind
/// exists, and a page gives no item only when none exists.
pub proof fn law_extractor_priority(html: Seq<char>, docs: Seq<JsonValue>)
    ensures
        jsonld_item(docs) is None && meta_value(html, "citation_title"@) is Some ==> {
            let items = page_items(html, docs);
            &&& items.len() == 1
            &&& items[0].source == Some("highwire"@)
            &&& items[0].item_type == Some("journalArticle"@)
            &&& items[0].title == meta_value(html, "citation_title"@)
            &&& items[0].authors == meta_values(html, "citation_author"@)
            &&& items[0].doi == meta_value(html, "citation_doi"@)
        },
        page_items(html, docs).len() > 0 && page_items(html, docs)[0].source != Some("jsonld"@)
            ==> jsonld_item(docs) is None,
        page_items(html, docs).len() > 0 && page_items(html, docs)[0].source == Some(
            "dublincore"@,
        ) ==> meta_value(html, "citation_title"@) is None,
        page_items(html, docs).len() > 0 && page_items(html, docs)[0].source == Some(
            "opengraph"@,
        ) ==> meta_value(html, "citation_title"@) is None && meta_value(html, "DC.title"@) is None
            && meta_value(html, "dc.title"@) is None,
        page_items(html, docs).len() > 0 && page_items(html, docs)[0].source == Some("meta"@)
            ==> meta_value(html, "citation_title"@) is None && meta_value(html, "DC.title"@) is None
            && meta_value(html, "dc.title"@) is None && meta_value(html, "og:title"@) is None,
        page_items(html, docs).len() == 0 ==> jsonld_item(docs) is None && meta_value(
            html,
            "citation_title"@,
        ) is None && meta_value(html, "DC.title"@) is None && meta_value(html, "dc.title"@) is None
            && meta_value(html, "og:title"@) is None,
{
    lemma_jsonld_item_source(docs);
    reveal_strlit("jsonld");
    reveal_strlit("highwire");
    reveal_strlit("dublincore");
    reveal_strlit("opengraph");
    reveal_strlit("meta");
    assert("jsonld"@.len() == 6);
    assert("highwire"@.len() == 8);
    assert("dublincore"@.len() == 10);
    assert("opengraph"@.len() == 9);
    assert("meta"@.len() == 4);
}

/// A content that is there and not blank.
pub open spec fn filled(o: Option<Seq<char>>) -> bool {
    o matches Some(c) && trim(c).len() > 0
}

/// All selected contents, trimmed, in the order selected: when every element
/// has a `content` that is not blank, value `k` is the trimmed content of
/// element `k`.
pub proof fn law_all_usable_in_order(els: Seq<Option<Seq<char>>>)
    ensures
        (forall|k: int| 0 <= k < els.len() ==> filled(#[trigger] els[k])) ==> all_usable(els).len() == els.len() && forall|k: int|
            0 <= k < els.len() ==> #[trigger] all_usable(els)[k] == trim(els[k]->Some_0),
    decreases els.len(),
{
    if els.len() > 0 && forall|k: int| 0 <= k < els.len() ==> filled(#[trigger] els[k]) {
        let front = els.drop_last();
        assert forall|k: int| 0 <= k < front.len() implies filled(#[trigger] front[k]) by {
            assert(front[k] == els[k]);
        }
        law_all_usable_in_order(front);
        assert(filled(els[els.len() - 1]));
        assert forall|k: int| 0 <= k < els.len() implies #[trigger] all_usable(els)[k] == trim(
            els[k]->Some_0,
        ) by {
            if k < front.len() {
                assert(front[k] == els[k]);
                assert(all_usable(els)[k] == all_usable(front)[k]);
            }
        }
    }
}

} // verus!
