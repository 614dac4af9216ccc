use willow_extractor::detect::{
    detect_all, detect_doi, detect_isbn, is_valid_isbn, normalize_isbn, Identifier,
};

#[test]
fn test_detect_doi() {
    assert_eq!(
        detect_doi("Check out 10.1000/xyz123 for more"),
        Some("10.1000/xyz123".to_string())
    );
    assert_eq!(
        detect_doi("DOI: 10.1038/nature12373."),
        Some("10.1038/nature12373".to_string())
    );
}

#[test]
fn test_detect_isbn() {
    // Valid ISBN-13
    assert_eq!(
        detect_isbn("ISBN 978-0-13-468599-1"),
        Some("9780134685991".to_string())
    );
}

#[test]
fn test_detect_all() {
    let text = "See 10.1000/test and ISBN 978-0-13-468599-1 and PMID: 12345";
    let ids = detect_all(text);
    assert!(ids.contains(&Identifier::Doi("10.1000/test".to_string())));
    assert!(ids.contains(&Identifier::Pmid("12345".to_string())));
}

#[test]
fn detect_all_orders_and_dedups() {
    let text = "PMID: 7 arXiv:1234.56789v2 10.1000/b 10.1000/a 10.1000/b ISBN 0-306-40615-2";
    let ids = detect_all(text);
    assert_eq!(
        ids,
        vec![
            Identifier::Arxiv("1234.56789v2".to_string()),
            Identifier::Doi("10.1000/a".to_string()),
            Identifier::Doi("10.1000/b".to_string()),
            Identifier::Isbn("0306406152".to_string()),
            Identifier::Pmid("7".to_string()),
        ]
    );
}

#[test]
fn detect_doi_trims_trailing_punctuation() {
    assert_eq!(detect_doi("(10.1234/abc.;,)"), Some("10.1234/abc.;,)".to_string()));
    assert_eq!(detect_doi("10.1234/abc.;,"), Some("10.1234/abc".to_string()));
    assert_eq!(detect_doi("10.1234/..."), Some("10.1234/".to_string()));
    assert_eq!(detect_doi("10.123/abc"), None);
    assert_eq!(detect_doi("see <10.55555/x>y"), Some("10.55555/x".to_string()));
}

#[test]
fn detect_isbn_rejects_bad_checksum() {
    assert_eq!(detect_isbn("ISBN 978-0-13-468599-2"), None);
    assert_eq!(detect_isbn("ISBN:0-306-40615-2"), Some("0306406152".to_string()));
    // Only one separator may follow "ISBN".
    assert_eq!(detect_isbn("ISBN: 0-306-40615-2"), None);
    assert_eq!(detect_isbn("ISBN 080442957x"), Some("080442957X".to_string()));
    assert_eq!(detect_isbn("no prefix 9780134685991"), None);
}

#[test]
fn detect_isbn_falls_back_to_ten_digits() {
    // With the 978 prefix there are too few digits, so the match is the
    // ten characters after "ISBN ".
    assert_eq!(detect_isbn("ISBN 978013468599"), None);
    assert_eq!(detect_isbn("ISBN 9780306406"), None);
}

#[test]
fn detect_arxiv_forms() {
    let ids = detect_all("arXiv:hep-th/9901001 and arXiv:2101.00001");
    assert!(ids.contains(&Identifier::Arxiv("hep-th/9901001".to_string())));
    assert!(ids.contains(&Identifier::Arxiv("2101.00001".to_string())));
}

// The same detection written with the regular expressions that describe the
// grammars, to compare against on many inputs.
struct Grammars {
    doi: regex::Regex,
    isbn: regex::Regex,
    pmid: regex::Regex,
    arxiv: regex::Regex,
}

fn grammars() -> Grammars {
    Grammars {
        doi: regex::Regex::new(r#"10\.\d{4,}/[^\s\]>"']+"#).unwrap(),
        isbn: regex::Regex::new(r"ISBN[:\s-]?(?:97[89][- ]?)?(?:\d[- ]?){9}[\dXx]").unwrap(),
        pmid: regex::Regex::new(r"PMID[:\s]*(\d+)").unwrap(),
        arxiv: regex::Regex::new(r"arXiv:(\d{4}\.\d{4,5}(?:v\d+)?|[a-z-]+/\d{7})").unwrap(),
    }
}

fn ref_doi(g: &Grammars, text: &str) -> Option<String> {
    g.doi.find(text).map(|m| m.as_str().trim_end_matches(['.', ',', ';']).to_string())
}

fn ref_normalize(isbn: &str) -> String {
    isbn.chars()
        .filter(|c| c.is_ascii_digit() || *c == 'X' || *c == 'x')
        .collect::<String>()
        .to_uppercase()
}

fn ref_valid(isbn: &str) -> bool {
    let chars: Vec<char> = isbn.chars().collect();
    match isbn.len() {
        10 => {
            let mut sum = 0;
            for (i, c) in chars.iter().enumerate() {
                let d = if *c == 'X' { 10 } else { c.to_digit(10).unwrap_or(0) as i32 };
                sum += d * (10 - i as i32);
            }
            sum % 11 == 0
        }
        13 => {
            let mut sum = 0;
            for (i, c) in chars.iter().enumerate() {
                let d = c.to_digit(10).unwrap_or(0) as i32;
                sum += d * if i % 2 == 0 { 1 } else { 3 };
            }
            sum % 10 == 0
        }
        _ => false,
    }
}

fn ref_isbn(g: &Grammars, text: &str) -> Option<String> {
    g.isbn.find(text).and_then(|m| {
        let n = ref_normalize(m.as_str());
        if ref_valid(&n) { Some(n) } else { None }
    })
}

fn ref_all(g: &Grammars, text: &str) -> Vec<(u8, String)> {
    let mut out = Vec::new();
    for m in g.doi.find_iter(text) {
        out.push((1u8, m.as_str().trim_end_matches(['.', ',', ';']).to_string()));
    }
    for m in g.isbn.find_iter(text) {
        let n = ref_normalize(m.as_str());
        if ref_valid(&n) {
            out.push((2u8, n));
        }
    }
    for c in g.pmid.captures_iter(text) {
        out.push((3u8, c.get(1).unwrap().as_str().to_string()));
    }
    for c in g.arxiv.captures_iter(text) {
        out.push((0u8, c.get(1).unwrap().as_str().to_string()));
    }
    out
}

fn pair(id: &Identifier) -> (u8, String) {
    match id {
        Identifier::Arxiv(s) => (0, s.clone()),
        Identifier::Doi(s) => (1, s.clone()),
        Identifier::Isbn(s) => (2, s.clone()),
        Identifier::Pmid(s) => (3, s.clone()),
    }
}

fn corpus() -> Vec<String> {
    let pieces = [
        "10.1000/xyz", "10.12345/a.b,", "10.123/x", "10.1234/", "10.1234/\"q\"", "10.1234/a]b",
        "10.١٢٣٤/abc", "10.1234/a\tb", "10.10.1234/x", "1010.1234/z", "10.1234/é\u{301}x",
        "ISBN 978-0-13-468599-1", "ISBN978013468599", "ISBN 0 3 0 6 4 0 6 1 5 2",
        "ISBN-0-306-40615-2", "ISBN: 979-10-90636-07-1", "ISBN 97801346859912", "ISBN\u{a0}0306406152",
        "ISBN 080442957X", "ISBN 080442957x", "ISBNISBN 0306406152", "ISBN 978-", "ISBN --0306406152",
        "PMID: 12345", "PMID12", "PMID:  :  99x", "PMID ", "PMIDa1", "PMID:\n42",
        "arXiv:1234.5678", "arXiv:1234.56789v12", "arXiv:1234.56789v", "arXiv:12345.6789",
        "arXiv:hep-th/9901001", "arXiv:hep-th/990100", "arXiv:-/12345678", "arXiv:1234.567",
        "arXiv:ABC/1234567", "arxiv:1234.5678", " ", ".", ";", "\n", "x",
    ];
    let mut out: Vec<String> = Vec::new();
    for a in pieces.iter() {
        out.push(a.to_string());
        for b in pieces.iter() {
            out.push(format!("{}{}", a, b));
            out.push(format!("{} {}", a, b));
        }
    }
    out
}

#[test]
fn detection_agrees_with_the_grammar_expressions() {
    let g = grammars();
    for text in corpus() {
        assert_eq!(detect_doi(&text), ref_doi(&g, &text), "doi in {:?}", text);
        assert_eq!(detect_isbn(&text), ref_isbn(&g, &text), "isbn in {:?}", text);
        let ours: Vec<(u8, String)> = detect_all(&text).iter().map(pair).collect();
        let mut expected = ref_all(&g, &text);
        expected.sort_by(|a, b| {
            let ka = match a.0 { 0 => "Arxiv", 1 => "Doi", 2 => "Isbn", _ => "Pmid" };
            let kb = match b.0 { 0 => "Arxiv", 1 => "Doi", 2 => "Isbn", _ => "Pmid" };
            format!("{}({:?})", ka, a.1).cmp(&format!("{}({:?})", kb, b.1))
        });
        expected.dedup();
        assert_eq!(ours, expected, "all in {:?}", text);
    }
}

#[test]
fn order_follows_debug_text() {
    // `"` (0x22) sorts before `#` (0x23): by their `Debug` text the shorter
    // DOI comes first, though `)` would sort after `#`.
    assert_eq!(
        detect_all("10.1234/a# 10.1234/a"),
        vec![
            Identifier::Doi("10.1234/a".to_string()),
            Identifier::Doi("10.1234/a#".to_string())
        ]
    );
}

#[test]
fn unicode_decimal_digits_count_as_digits() {
    assert_eq!(detect_doi("10.\u{661}\u{662}\u{663}\u{664}/abc"), Some("10.\u{661}\u{662}\u{663}\u{664}/abc".to_string()));
    assert_eq!(detect_doi("10.\u{bd}\u{bd}\u{bd}\u{bd}/abc"), None);
    let ids = detect_all("PMID: \u{967}\u{968}");
    assert_eq!(ids, vec![Identifier::Pmid("\u{967}\u{968}".to_string())]);
}

#[test]
fn plain_identifiers_follow_their_debug_text() {
    let ids = detect_all("10.2000/b arXiv:hep-th/9901001 arXiv:1234.56789 10.1000/a");
    assert_eq!(
        ids,
        vec![
            Identifier::Arxiv("1234.56789".to_string()),
            Identifier::Arxiv("hep-th/9901001".to_string()),
            Identifier::Doi("10.1000/a".to_string()),
            Identifier::Doi("10.2000/b".to_string()),
        ]
    );
}

#[test]
fn a_detected_doi_detects_as_itself() {
    let d = detect_doi("DOI: 10.1038/nature12373.").unwrap();
    assert_eq!(detect_doi(&d), Some(d.clone()));
    assert_eq!(detect_doi("10.1234/."), Some("10.1234/".to_string()));
    assert_eq!(detect_doi("10.1234/"), None);
}

#[test]
fn a_normalized_isbn_normalizes_to_itself() {
    let i = detect_isbn("ISBN 0-306-40615-2").unwrap();
    assert_eq!(i, "0306406152");
    assert_eq!(detect_isbn(&format!("ISBN {}", i)), Some(i.clone()));
    let x = detect_isbn("ISBN 0-8044-2957-x").unwrap();
    assert_eq!(x, "080442957X");
    assert_eq!(detect_isbn(&format!("ISBN {}", x)), Some(x.clone()));
}

#[test]
fn isbn_validity_goes_by_byte_length() {
    assert!(!is_valid_isbn(""));
    assert!(!is_valid_isbn("013468599"));
    assert!(is_valid_isbn("0306406152"));
    assert!(is_valid_isbn("080442957X"));
    assert!(is_valid_isbn("9780134685991"));
    assert!(!is_valid_isbn("9780134685992"));
    assert!(is_valid_isbn("0000000000"));
    // Ten characters, eleven bytes.
    assert!(!is_valid_isbn("\u{e9}000000000"));
}

#[test]
fn normalizing_an_isbn_twice_changes_nothing() {
    for text in ["ISBN 0-8044-2957-x", "978-0-13-468599-1", "x\u{e9}9 Xy", ""] {
        let once = normalize_isbn(text);
        assert!(once.chars().all(|c| c.is_ascii_digit() || c == 'X'));
        assert_eq!(normalize_isbn(&once), once);
    }
    assert_eq!(normalize_isbn("ISBN 0-8044-2957-x"), "080442957X");
    assert_eq!(normalize_isbn("x\u{e9}9 Xy"), "X9X");
}

#[test]
fn escaped_identifiers_follow_their_debug_text() {
    let ids = detect_all("10.1000/a\\b 10.1000/a");
    assert_eq!(
        ids,
        vec![
            Identifier::Doi("10.1000/a".to_string()),
            Identifier::Doi("10.1000/a\\b".to_string()),
        ]
    );
}
