use willow_extractor::extract::{extract_pdf, try_extract_pdf, PdfPlan};
use willow_extractor::{Config, Item};

fn from_name(url: &str) -> Option<Item> {
    match try_extract_pdf(b"not a pdf at all", Some(url), &Config::default()) {
        Some(PdfPlan::Done(x)) => x,
        _ => panic!("unreadable bytes must fall back to the file name"),
    }
}

#[test]
fn filename_author_title_year() {
    let item = from_name("https://x.org/papers/Smith%20-%20Deep%20Learning%20-%202019.pdf?dl=1").unwrap();
    assert_eq!(item.authors, vec!["Smith".to_string()]);
    assert_eq!(item.title.as_deref(), Some("Deep Learning"));
    assert_eq!(item.date.as_deref(), Some("2019"));
    assert_eq!(item.source.as_deref(), Some("filename"));
    assert_eq!(item.item_type.as_deref(), Some("document"));
    assert_eq!(
        item.url.as_deref(),
        Some("https://x.org/papers/Smith%20-%20Deep%20Learning%20-%202019.pdf?dl=1")
    );
}

#[test]
fn filename_year_in_parentheses() {
    let item = from_name("/Doe – A Study (2020).PDF").unwrap();
    assert_eq!(item.authors, vec!["Doe".to_string()]);
    assert_eq!(item.title.as_deref(), Some("A Study"));
    assert_eq!(item.date.as_deref(), Some("2020"));
}

#[test]
fn filename_title_author() {
    let item = from_name("a/b/My Title - Someone.pdf").unwrap();
    assert_eq!(item.title.as_deref(), Some("My Title"));
    assert_eq!(item.authors, vec!["Someone".to_string()]);
    assert_eq!(item.date, None);
}

#[test]
fn filename_as_title() {
    let item = from_name("report.pdf").unwrap();
    assert_eq!(item.title.as_deref(), Some("report"));
    assert!(item.authors.is_empty());
    assert!(from_name("report.Pdf").is_none());
    assert!(from_name("report.txt").is_none());
    assert!(from_name("bad%FF.pdf").is_none());
}

#[test]
fn unreadable_bytes_are_planned_directly() {
    match extract_pdf(b"%PDF-broken", Some("http://x/Lee - Notes - 2001.pdf"), &Config::default()) {
        PdfPlan::Done(Some(item)) => {
            assert_eq!(item.authors, vec!["Lee".to_string()]);
            assert_eq!(item.date.as_deref(), Some("2001"));
        }
        _ => panic!("expected the file name guess"),
    }
}

#[test]
fn no_url_no_item() {
    match try_extract_pdf(b"junk", None, &Config::default()) {
        Some(PdfPlan::Done(None)) => {}
        _ => panic!("expected nothing"),
    }
}

fn ref_name_item(
    re: &regex::Regex,
    re2: &regex::Regex,
    name: &str,
) -> (Option<String>, Vec<String>, Option<String>) {
    if let Some(caps) = re.captures(name) {
        return (
            caps.get(2).map(|m| m.as_str().trim().to_string()),
            caps.get(1).map(|m| vec![m.as_str().trim().to_string()]).unwrap_or_default(),
            caps.get(3).map(|m| m.as_str().to_string()),
        );
    }
    if let Some(caps) = re2.captures(name) {
        return (
            caps.get(1).map(|m| m.as_str().trim().to_string()),
            caps.get(2).map(|m| vec![m.as_str().trim().to_string()]).unwrap_or_default(),
            None,
        );
    }
    (Some(name.to_string()), vec![], None)
}

#[test]
fn filename_grammar_agrees_with_the_expressions() {
    let pieces = [
        "A", "B c", " ", "  ", "-", "–", "—", "(", ")", "2019", "(2020)", "123", "\n", "x\ny", "- ",
        " -", "- 1999", "-2001)", "Ab", "-\n", " (1234",
    ];
    let re = regex::Regex::new(r"^(.+?)\s*[-–—]\s*(.+?)\s*[-–—(]\s*(\d{4})\)?$").unwrap();
    let re2 = regex::Regex::new(r"^(.+?)\s*[-–—]\s*(.+?)$").unwrap();
    let mut names: Vec<String> = Vec::new();
    for a in pieces.iter() {
        for b in pieces.iter() {
            for c in pieces.iter() {
                names.push(format!("{}{}{}", a, b, c));
            }
        }
    }
    for name in names {
        if name.contains('/') || name.contains('?') || name.contains('%') {
            continue;
        }
        let url = format!("{}.pdf", name);
        let item = from_name(&url).unwrap();
        let got = (item.title.clone(), item.authors.clone(), item.date.clone());
        assert_eq!(got, ref_name_item(&re, &re2, &name), "name {:?}", name);
    }
}
