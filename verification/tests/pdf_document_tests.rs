use lopdf::content::{Content, Operation};
use lopdf::{Dictionary, Document, Object, Stream, StringFormat};
use willow_extractor::detect::Identifier;
use willow_extractor::extract::{extract_pdf, try_extract_pdf, PdfPlan};
use willow_extractor::Config;

fn text_object(bytes: &[u8]) -> Object {
    Object::String(bytes.to_vec(), StringFormat::Literal)
}

fn name(s: &str) -> Object {
    Object::Name(s.as_bytes().to_vec())
}

fn make_pdf(info: Option<Vec<(&str, Object)>>, text: &str) -> Vec<u8> {
    let mut doc = Document::with_version("1.5");
    let pages_id = doc.new_object_id();
    let mut font = Dictionary::new();
    font.set("Type", name("Font"));
    font.set("Subtype", name("Type1"));
    font.set("BaseFont", name("Courier"));
    let font_id = doc.add_object(font);
    let mut fonts = Dictionary::new();
    fonts.set("F1", font_id);
    let mut resources = Dictionary::new();
    resources.set("Font", fonts);
    let resources_id = doc.add_object(resources);
    let content = Content {
        operations: vec![
            Operation::new("BT", vec![]),
            Operation::new("Tf", vec![name("F1"), Object::Integer(12)]),
            Operation::new("Td", vec![Object::Integer(100), Object::Integer(600)]),
            Operation::new("Tj", vec![Object::string_literal(text)]),
            Operation::new("ET", vec![]),
        ],
    };
    let content_id = doc.add_object(Stream::new(Dictionary::new(), content.encode().unwrap()));
    let mut page = Dictionary::new();
    page.set("Type", name("Page"));
    page.set("Parent", pages_id);
    page.set("Contents", content_id);
    let page_id = doc.add_object(page);
    let mut pages = Dictionary::new();
    pages.set("Type", name("Pages"));
    pages.set("Kids", vec![Object::Reference(page_id)]);
    pages.set("Count", Object::Integer(1));
    pages.set("Resources", resources_id);
    pages.set(
        "MediaBox",
        vec![Object::Integer(0), Object::Integer(0), Object::Integer(595), Object::Integer(842)],
    );
    doc.objects.insert(pages_id, Object::Dictionary(pages));
    let mut catalog = Dictionary::new();
    catalog.set("Type", name("Catalog"));
    catalog.set("Pages", pages_id);
    let catalog_id = doc.add_object(catalog);
    doc.trailer.set("Root", catalog_id);
    if let Some(entries) = info {
        let mut d = Dictionary::new();
        for (k, v) in entries {
            d.set(k, v);
        }
        let info_id = doc.add_object(d);
        doc.trailer.set("Info", info_id);
    }
    let mut buf = Vec::new();
    doc.save_to(&mut buf).unwrap();
    buf
}

#[test]
fn complete_document_information_is_the_outcome() {
    let pdf = make_pdf(
        Some(vec![
            ("Title", text_object(b"  Deep Things ")),
            ("Author", text_object(b"Ann, Bob & Cy; ")),
            ("CreationDate", text_object(b"D:20210304120000")),
        ]),
        "See 10.1000/abc",
    );
    match try_extract_pdf(&pdf, Some("http://x/a.pdf"), &Config::default()) {
        Some(PdfPlan::Done(Some(item))) => {
            assert_eq!(item.title.as_deref(), Some("Deep Things"));
            assert_eq!(item.authors, vec!["Ann".to_string(), "Bob".to_string(), "Cy".to_string()]);
            assert_eq!(item.date.as_deref(), Some("2021"));
            assert_eq!(item.url.as_deref(), Some("http://x/a.pdf"));
            assert_eq!(item.source.as_deref(), Some("pdf"));
            assert_eq!(item.item_type.as_deref(), Some("document"));
        }
        _ => panic!("expected the document information"),
    }
}

#[test]
fn partial_information_is_the_fallback_of_the_text_identifiers() {
    let pdf = make_pdf(
        Some(vec![
            ("Title", text_object(&[0xFE, 0xFF, 0x00, 0x48, 0x00, 0x69, 0xD8, 0x3D, 0xDE, 0x00])),
            ("CreationDate", text_object(b"1999 spring")),
        ]),
        "See 10.1000/abc and PMID: 77",
    );
    match try_extract_pdf(&pdf, None, &Config::default()) {
        Some(PdfPlan::Resolve { identifiers, fallback }) => {
            assert_eq!(
                identifiers,
                vec![
                    Identifier::Doi("10.1000/abc".to_string()),
                    Identifier::Pmid("77".to_string())
                ]
            );
            let item = fallback.unwrap();
            assert_eq!(item.title.as_deref(), Some("Hi\u{1F600}"));
            assert!(item.authors.is_empty());
            assert_eq!(item.date.as_deref(), Some("1999"));
        }
        _ => panic!("expected identifiers to resolve"),
    }
}

#[test]
fn no_information_falls_back_to_the_file_name() {
    let pdf = make_pdf(None, "nothing here");
    match try_extract_pdf(&pdf, Some("http://x/Kim - Notes.pdf"), &Config::default()) {
        Some(PdfPlan::Resolve { identifiers, fallback }) => {
            assert!(identifiers.is_empty());
            let item = fallback.unwrap();
            assert_eq!(item.title.as_deref(), Some("Kim"));
            assert_eq!(item.authors, vec!["Notes".to_string()]);
            assert_eq!(item.source.as_deref(), Some("filename"));
        }
        _ => panic!("expected a plan"),
    }
}

#[test]
fn latin1_and_name_values() {
    let pdf = make_pdf(
        Some(vec![("Title", text_object(&[0x43, 0x61, 0x66, 0xE9])), ("Author", name("Zed"))]),
        "",
    );
    match try_extract_pdf(&pdf, None, &Config::default()) {
        Some(PdfPlan::Done(Some(item))) => {
            assert_eq!(item.title.as_deref(), Some("Café"));
            assert_eq!(item.authors, vec!["Zed".to_string()]);
            assert_eq!(item.date, None);
        }
        _ => panic!("expected the document information"),
    }
}

#[test]
fn complete_information_planned_directly() {
    let pdf = make_pdf(
        Some(vec![("Title", text_object(b"Alpha")), ("Author", text_object(b"Ann"))]),
        "",
    );
    match extract_pdf(&pdf, None, &Config::default()) {
        PdfPlan::Done(Some(item)) => {
            assert_eq!(item.title.as_deref(), Some("Alpha"));
            assert_eq!(item.authors, vec!["Ann".to_string()]);
            assert_eq!(item.url, None);
        }
        _ => panic!("expected the document information"),
    }
}

#[test]
fn a_creation_date_cut_inside_a_character_stops() {
    let pdf = make_pdf(
        Some(vec![
            ("Title", text_object(b"T")),
            ("CreationDate", text_object("D:abc\u{20AC}".as_bytes())),
        ]),
        "",
    );
    assert!(try_extract_pdf(&pdf, None, &Config::default()).is_none());
}
