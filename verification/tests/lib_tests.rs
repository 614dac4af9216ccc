use std::time::Duration;
use willow_extractor::detect::Identifier;
use willow_extractor::{
    fallback_identifiers, has_good_metadata, is_pdf_reply, search_identifiers, Config,
    ExtractError, Item,
};

fn item(title: Option<&str>, authors: &[&str], date: Option<&str>) -> Item {
    let mut i = Item::default();
    i.title = title.map(String::from);
    i.authors = authors.iter().map(|a| a.to_string()).collect();
    i.date = date.map(String::from);
    i
}

#[test]
fn config_defaults() {
    let c = Config::default();
    assert_eq!(c.request_timeout, Duration::from_secs(30));
    assert_eq!(c.api_timeout, Duration::from_secs(10));
    assert_eq!(c.user_agent, "Mozilla/5.0 (compatible; Willow/1.0)");
    assert_eq!(c.max_pdf_pages, 5);
}

#[test]
fn item_completeness() {
    assert!(item(Some("T"), &["A"], None).is_complete());
    assert!(!item(Some("T"), &[], None).is_complete());
    assert!(!item(None, &["A"], None).is_complete());
    let d = Item::default();
    assert!(d.title.is_none() && d.authors.is_empty() && d.source.is_none());
}

#[test]
fn extract_error_texts() {
    assert_eq!(ExtractError::Network("x".to_string()).message(), "network: x");
    assert_eq!(ExtractError::Parse("y".to_string()).message(), "parse: y");
    assert_eq!(ExtractError::Timeout.message(), "timeout");
    assert!(matches!(
        ExtractError::from_request_failure(true, "t".to_string()),
        ExtractError::Timeout
    ));
    match ExtractError::from_request_failure(false, "t".to_string()) {
        ExtractError::Network(m) => assert_eq!(m, "t"),
        other => panic!("unexpected {:?}", other),
    }
}

#[test]
fn pdf_replies() {
    assert!(is_pdf_reply("http://x/PAPER.PDF", None));
    assert!(is_pdf_reply("http://x/a", Some("application/pdf; charset=binary")));
    assert!(!is_pdf_reply("http://x/a", Some("text/html")));
    assert!(!is_pdf_reply("http://x/a", None));
}

#[test]
fn good_metadata_needs_title_and_author_or_date() {
    assert!(has_good_metadata(&vec![item(None, &[], None), item(Some("T"), &[], Some("2000"))]));
    assert!(!has_good_metadata(&vec![item(Some("T"), &[], None), item(None, &["A"], Some("1"))]));
    assert!(!has_good_metadata(&vec![]));
}

#[test]
fn fallback_puts_the_url_doi_first() {
    let sparse = vec![item(Some("T"), &[], None)];
    let ids = fallback_identifiers(&sparse, "PMID: 5 and 10.1000/zz", Some("https://doi.org/10.5555/abc."));
    assert_eq!(
        ids,
        vec![
            Identifier::Doi("10.5555/abc".to_string()),
            Identifier::Doi("10.1000/zz".to_string()),
            Identifier::Pmid("5".to_string()),
        ]
    );
    let good = vec![item(Some("T"), &["A"], None)];
    assert!(fallback_identifiers(&good, "10.1000/zz", None).is_empty());
}

#[test]
fn search_prefers_doi_then_isbn() {
    assert_eq!(
        search_identifiers("ISBN 0-306-40615-2 10.1000/q"),
        vec![Identifier::Doi("10.1000/q".to_string())]
    );
    assert_eq!(
        search_identifiers("ISBN 0-306-40615-2 PMID 9"),
        vec![Identifier::Isbn("0306406152".to_string())]
    );
    assert_eq!(
        search_identifiers("PMID 9 arXiv:1234.5678"),
        vec![
            Identifier::Arxiv("1234.5678".to_string()),
            Identifier::Pmid("9".to_string())
        ]
    );
}
