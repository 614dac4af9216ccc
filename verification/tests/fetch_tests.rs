use willow_extractor::detect::Identifier;
use willow_extractor::fetch::crossref;
use willow_extractor::fetch::openlibrary;
use willow_extractor::fetch::{check_status, lookup_for, next_lookup, FetchError, Lookup};
use willow_extractor::json::JsonValue;

fn to_json(v: serde_json::Value) -> JsonValue {
    match v {
        serde_json::Value::Null => JsonValue::Null,
        serde_json::Value::Bool(b) => JsonValue::Bool(b),
        serde_json::Value::Number(n) => JsonValue::Number(n.as_i64()),
        serde_json::Value::String(s) => JsonValue::Str(s),
        serde_json::Value::Array(a) => JsonValue::Array(a.into_iter().map(to_json).collect()),
        serde_json::Value::Object(m) => {
            JsonValue::Object(m.into_iter().map(|(k, v)| (k, to_json(v))).collect())
        }
    }
}

fn json(text: &str) -> JsonValue {
    to_json(serde_json::from_str(text).unwrap())
}

#[test]
fn crossref_reply_is_read() {
    let data = json(
        r#"{"message": {"title": ["A Title", "Other"],
            "author": [{"given": "Ada", "family": "Lovelace"}, {"family": "Babbage"},
                       {"given": "NoFamily"}],
            "published-online": {"date-parts": [[2020, 5, 1.5, -3]]},
            "created": {"date-parts": [[1999]]},
            "publisher": "ACM", "URL": "https://doi.org/x", "type": "proceedings-article"}}"#,
    );
    let item = crossref::parse_response(&data, "10.1/x").unwrap();
    assert_eq!(item.title.as_deref(), Some("A Title"));
    assert_eq!(item.authors, vec!["Ada Lovelace".to_string(), "Babbage".to_string()]);
    assert_eq!(item.date.as_deref(), Some("2020-5--3"));
    assert_eq!(item.publisher.as_deref(), Some("ACM"));
    assert_eq!(item.url.as_deref(), Some("https://doi.org/x"));
    assert_eq!(item.doi.as_deref(), Some("10.1/x"));
    assert_eq!(item.item_type.as_deref(), Some("conferencePaper"));
    assert_eq!(item.source.as_deref(), Some("crossref"));
}

#[test]
fn crossref_without_message_is_a_parse_error() {
    let data = json(r#"{"status": "ok"}"#);
    match crossref::parse_response(&data, "10.1/x") {
        Err(FetchError::Parse(m)) => assert_eq!(m, "no message"),
        other => panic!("unexpected {:?}", other),
    }
}

#[test]
fn crossref_unknown_type_is_kept() {
    let data = json(r#"{"message": {"type": "dataset"}}"#);
    let item = crossref::parse_response(&data, "d").unwrap();
    assert_eq!(item.item_type.as_deref(), Some("dataset"));
    assert!(item.authors.is_empty());
    assert_eq!(item.title, None);
    assert_eq!(item.date, None);
}

#[test]
fn openlibrary_reply_is_read() {
    let data = json(
        r#"{"ISBN:0306406152": {"title": "T", "authors": [{"name": "A"}, {"x": 1}],
            "publishers": [{"name": "P"}, {"name": "Q"}], "publish_date": "1990",
            "url": "https://openlibrary.org/b"}}"#,
    );
    let item = openlibrary::parse_response(&data, "0306406152").unwrap();
    assert_eq!(item.title.as_deref(), Some("T"));
    assert_eq!(item.authors, vec!["A".to_string()]);
    assert_eq!(item.publisher.as_deref(), Some("P"));
    assert_eq!(item.date.as_deref(), Some("1990"));
    assert_eq!(item.isbn.as_deref(), Some("0306406152"));
    assert_eq!(item.item_type.as_deref(), Some("book"));
    assert_eq!(item.source.as_deref(), Some("openlibrary"));
}

#[test]
fn openlibrary_missing_book_is_not_found() {
    let data = json(r#"{}"#);
    match openlibrary::parse_response(&data, "123") {
        Err(FetchError::NotFound(m)) => assert_eq!(m, "123"),
        other => panic!("unexpected {:?}", other),
    }
}

#[test]
fn request_urls() {
    assert_eq!(crossref::doi_request_url("10.1/x"), "https://api.crossref.org/works/10.1/x");
    assert_eq!(
        openlibrary::isbn_request_url("123"),
        "https://openlibrary.org/api/books?bibkeys=ISBN:123&format=json&jscmd=data"
    );
}

#[test]
fn error_messages_and_status() {
    assert_eq!(FetchError::Network("down".to_string()).message(), "network error: down");
    assert_eq!(FetchError::NotFound("x".to_string()).message(), "not found: x");
    assert_eq!(FetchError::Parse("bad".to_string()).message(), "parse error: bad");
    assert!(check_status(true, "x").is_ok());
    match check_status(false, "x") {
        Err(FetchError::NotFound(m)) => assert_eq!(m, "x"),
        other => panic!("unexpected {:?}", other),
    }
}

#[test]
fn lookups_skip_unresolvable_identifiers() {
    let ids = vec![
        Identifier::Pmid("1".to_string()),
        Identifier::Arxiv("2".to_string()),
        Identifier::Isbn("3".to_string()),
        Identifier::Doi("4".to_string()),
    ];
    match next_lookup(&ids, 0) {
        Some((2, Lookup::OpenLibrary(k))) => assert_eq!(k, "3"),
        other => panic!("unexpected {:?}", other),
    }
    match next_lookup(&ids, 3) {
        Some((3, Lookup::Crossref(k))) => assert_eq!(k, "4"),
        other => panic!("unexpected {:?}", other),
    }
    assert!(next_lookup(&ids, 4).is_none());
    assert!(lookup_for(&Identifier::Pmid("1".to_string())).is_none());
}
