use willow_extractor::extract::{extract_html, jsonld_scripts};
use willow_extractor::json::JsonValue;
use willow_extractor::Item;

fn to_json(v: serde_json::Value) -> JsonValue {
    match v {
        serde_json::Value::Null => JsonValue::Null,
        serde_json::Value::Bool(b) => JsonValue::Bool(b),
        serde_json::Value::Number(n) => JsonValue::Number(n.as_i64()),
        serde_json::Value::String(s) => JsonValue::Str(s),
        serde_json::Value::Array(a) => JsonValue::Array(a.into_iter().map(to_json).collect()),
        serde_json::Value::Object(m) => {
            JsonValue::Object(m.into_iter().map(|(k, v)| (k, to_json(v))).collect())
        }
    }
}

fn page(html: &str) -> Vec<Item> {
    let docs: Vec<JsonValue> = jsonld_scripts(html)
        .iter()
        .filter_map(|t| serde_json::from_str::<serde_json::Value>(t).ok())
        .map(to_json)
        .collect();
    extract_html(html, &docs)
}

#[test]
fn test_extract_jsonld() {
    let html = r#"
        <html>
        <head>
        <script type="application/ld+json">
        {
            "@type": "Article",
            "headline": "Test Article",
            "author": {"name": "John Doe"},
            "datePublished": "2024-01-15"
        }
        </script>
        </head>
        </html>
        "#;

    let items = page(html);
    assert_eq!(items.len(), 1);
    assert_eq!(items[0].title, Some("Test Article".to_string()));
    assert_eq!(items[0].authors, vec!["John Doe"]);
}

#[test]
fn test_extract_opengraph() {
    let html = r#"
        <html>
        <head>
        <meta property="og:title" content="OG Title">
        <meta property="og:type" content="article">
        <meta property="og:description" content="Description here">
        </head>
        </html>
        "#;

    let items = page(html);
    assert_eq!(items.len(), 1);
    assert_eq!(items[0].title, Some("OG Title".to_string()));
}

#[test]
fn test_extract_highwire() {
    let html = r#"
        <html>
        <head>
        <meta name="citation_title" content="Academic Paper">
        <meta name="citation_author" content="Alice Smith">
        <meta name="citation_author" content="Bob Jones">
        <meta name="citation_doi" content="10.1000/test">
        </head>
        </html>
        "#;

    let items = page(html);
    assert_eq!(items.len(), 1);
    assert_eq!(items[0].title, Some("Academic Paper".to_string()));
    assert_eq!(items[0].authors.len(), 2);
    assert_eq!(items[0].doi, Some("10.1000/test".to_string()));
}

#[test]
fn jsonld_graph_and_fields() {
    let html = r#"<script type="application/ld+json">
        {"@graph": [{"@type": "Thing", "name": "skip"},
                    {"@type": ["Book", "Other"], "name": "A Book",
                     "author": ["Ann", {"name": "Ben"}, 3],
                     "dateCreated": "2019-05-06T10:00:00Z",
                     "publisher": {"name": "Pub"}, "url": "http://b", "description": "D"}]}
        </script>"#;
    let items = page(html);
    assert_eq!(items.len(), 1);
    let i = &items[0];
    assert_eq!(i.title.as_deref(), Some("A Book"));
    assert_eq!(i.authors, vec!["Ann".to_string(), "Ben".to_string()]);
    assert_eq!(i.date.as_deref(), Some("2019-05-06"));
    assert_eq!(i.publisher.as_deref(), Some("Pub"));
    assert_eq!(i.url.as_deref(), Some("http://b"));
    assert_eq!(i.description.as_deref(), Some("D"));
    assert_eq!(i.item_type.as_deref(), Some("book"));
    assert_eq!(i.source.as_deref(), Some("jsonld"));
}

#[test]
fn jsonld_without_title_or_author_falls_through() {
    let html = r#"<script type="application/ld+json">{"@type": "Article"}</script>
        <meta name="DC.title" content=" DC Title ">
        <meta name="DC.creator" content="X">
        <meta name="dc.creator" content="Y">
        <meta name="dc.date" content="2001">"#;
    let items = page(html);
    assert_eq!(items.len(), 1);
    assert_eq!(items[0].title.as_deref(), Some("DC Title"));
    assert_eq!(items[0].authors, vec!["X".to_string(), "Y".to_string()]);
    assert_eq!(items[0].date.as_deref(), Some("2001"));
    assert_eq!(items[0].source.as_deref(), Some("dublincore"));
    assert_eq!(items[0].item_type.as_deref(), Some("document"));
}

#[test]
fn opengraph_types() {
    let html = r#"<meta property="og:title" content="V"><meta property="og:type" content="video.movie">"#;
    assert_eq!(page(html)[0].item_type.as_deref(), Some("video"));
    let html = r#"<meta property="og:title" content="V"><meta property="og:type" content="music.album">"#;
    assert_eq!(page(html)[0].item_type.as_deref(), Some("audio"));
    let html = r#"<meta property="og:title" content="V"><meta property="og:type" content="website">"#;
    assert_eq!(page(html)[0].item_type.as_deref(), Some("webpage"));
}

#[test]
fn plain_title_and_author() {
    let html = "<html><head><title>  Page  </title><meta name=\"author\" content=\"Me\"></head></html>";
    let items = page(html);
    assert_eq!(items.len(), 1);
    assert_eq!(items[0].title.as_deref(), Some("Page"));
    assert_eq!(items[0].authors, vec!["Me".to_string()]);
    assert_eq!(items[0].source.as_deref(), Some("meta"));
    assert!(page("<html><head><title>   </title></head></html>").is_empty());
}

#[test]
fn only_first_meta_of_a_name_is_read() {
    let html = r#"<meta name="citation_title" content="  "><meta name="citation_title" content="Second">
        <meta property="citation_title" content="Prop">"#;
    let items = page(html);
    assert_eq!(items[0].title.as_deref(), Some("Prop"));
}
