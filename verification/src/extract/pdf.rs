//! PDF metadata extraction: the document information dictionary, identifiers
//! in the text of the first pages, and the file name as a last resort.
use vstd::prelude::*;
use vstd::utf8::{decode_utf8, encode_utf8, valid_utf8};
use crate::detect::{
    Class, IdView, Identifier, detect_all, digits_at, digits_at_exec, found_ids, has_view,
    run_end, run_end_exec, sorted_distinct,
};
use crate::item::{Item, ItemView, complete, empty_item, opt_item};
use crate::text::{
    chars_of, is_ascii_digit, string_of, sub_chars, trim, trimmed, utf8_len, utf8_len_upto,
    utf8_width, utf8_width_exec,
};
use crate::Config;

verus! {

/// A value of the document information dictionary, by the kinds the
/// extractor tells apart.
#[derive(Debug)]
pub enum PdfField {
    /// The dictionary has no such entry.
    Absent,
    /// A string object, as its bytes.
    Text(Vec<u8>),
    /// A name object, as its bytes.
    Name(Vec<u8>),
    /// Any other object.
    Other,
}

pub enum PdfFieldView {
    Absent,
    Text(Seq<u8>),
    Name(Seq<u8>),
    Other,
}

impl View for PdfField {
    type V = PdfFieldView;

    open spec fn view(&self) -> PdfFieldView {
        match self {
            PdfField::Absent => PdfFieldView::Absent,
            PdfField::Text(b) => PdfFieldView::Text(b@),
            PdfField::Name(b) => PdfFieldView::Name(b@),
            PdfField::Other => PdfFieldView::Other,
        }
    }
}

pub open spec fn opt_field(o: Option<PdfField>) -> Option<PdfFieldView> {
    match o {
        Some(f) => Some(f@),
        None => None,
    }
}

/// `None` when `lopdf::Document::load_mem(bytes)` fails; else the number of
/// pages that `get_pages` lists.
pub uninterp spec fn pdf_page_count(bytes: Seq<u8>) -> Option<usize>;

/// For the document that `lopdf::Document::load_mem(bytes)` reads: `None`
/// when loading fails, when the trailer entry `info_key` is missing or no
/// reference, or when `get_dictionary` fails for it; else the entry `key` of
/// that dictionary.
pub uninterp spec fn pdf_info_entry(bytes: Seq<u8>, info_key: Seq<u8>, key: Seq<u8>) -> Option<
    PdfFieldView,
>;

/// The text that `extract_text(pages)` gives for the document that
/// `load_mem(bytes)` reads; empty when either fails.
pub uninterp spec fn pdf_pages_text(bytes: Seq<u8>, pages: Seq<u32>) -> Seq<char>;

/// Loads the document with `lopdf` and counts its pages; the contract names
/// the outcome. `lopdf` is built without its `rayon` feature, so a document is
/// loaded on the calling thread, in one order, and the outcome depends on the
/// bytes alone; the same holds of the two wrappers below.
#[verifier::external_body]
fn page_count(bytes: &[u8]) -> (r: Option<usize>)
    ensures
        r == pdf_page_count(bytes@),
{
    lopdf::Document::load_mem(bytes).ok().map(|d| d.get_pages().len())
}

/// Loads the document with `lopdf` and reads one entry of the dictionary that
/// the trailer entry `info_key` refers to; the contract names the outcome.
#[verifier::external_body]
fn info_entry(bytes: &[u8], info_key: &[u8], key: &[u8]) -> (r: Option<PdfField>)
    ensures
        opt_field(r) == pdf_info_entry(bytes@, info_key@, key@),
{
    let doc = lopdf::Document::load_mem(bytes).ok()?;
    let id = doc.trailer.get(info_key).ok()?.as_reference().ok()?;
    let dict = doc.get_dictionary(id).ok()?;
    Some(
        match dict.get(key) {
            Ok(lopdf::Object::String(b, _)) => PdfField::Text(b.clone()),
            Ok(lopdf::Object::Name(n)) => PdfField::Name(n.clone()),
            Ok(_) => PdfField::Other,
            Err(_) => PdfField::Absent,
        },
    )
}

/// Loads the document with `lopdf` and extracts the text of the given pages;
/// the contract names the outcome.
#[verifier::external_body]
fn pages_text(bytes: &[u8], pages: &[u32]) -> (r: String)
    ensures
        r@ == pdf_pages_text(bytes@, pages@),
{
    lopdf::Document::load_mem(bytes).ok().and_then(|d| d.extract_text(pages).ok()).unwrap_or_default()
}

/// `String::from_utf8`: the text when the bytes are UTF-8.
#[verifier::external_body]
fn utf8_text(bytes: &[u8]) -> (r: Option<String>)
    ensures
        r.deep_view() == (if valid_utf8(bytes@) {
            Some(decode_utf8(bytes@))
        } else {
            None
        }),
{
    String::from_utf8(bytes.to_vec()).ok()
}

/// UTF-16 decoding: a unit outside the surrogate range is its own character, a
/// high surrogate followed by a low one makes one character, anything else is
/// an error.
pub open spec fn utf16_decode(u: Seq<u16>) -> Option<Seq<char>>
    decreases u.len(),
{
    if u.len() == 0 {
        Some(Seq::empty())
    } else if u[0] < 0xD800 || u[0] > 0xDFFF {
        match utf16_decode(u.drop_first()) {
            Some(rest) => Some(seq![(u[0] as u32) as char] + rest),
            None => None,
        }
    } else if u[0] <= 0xDBFF && u.len() >= 2 && 0xDC00 <= u[1] <= 0xDFFF {
        match utf16_decode(u.skip(2)) {
            Some(rest) => Some(
                seq![((0x10000 + (u[0] - 0xD800) * 0x400 + (u[1] - 0xDC00)) as u32) as char]
                    + rest,
            ),
            None => None,
        }
    } else {
        None
    }
}

/// `String::from_utf16`: the text when the units are well-formed UTF-16.
#[verifier::external_body]
fn utf16_text(units: &[u16]) -> (r: Option<String>)
    ensures
        r.deep_view() == utf16_decode(units@),
{
    String::from_utf16(units).ok()
}

/// Big-endian 16-bit units of consecutive byte pairs; an odd last byte is
/// dropped.
pub open spec fn be_units(b: Seq<u8>) -> Seq<u16> {
    Seq::new(b.len() / 2, |i: int| (b[2 * i] as int * 256 + b[2 * i + 1] as int) as u16)
}

/// Each byte as the character with that code point.
pub open spec fn latin1(b: Seq<u8>) -> Seq<char> {
    Seq::new(b.len(), |i: int| b[i] as char)
}

/// The text of an information value before trimming: UTF-16BE after a
/// `FE FF` mark, else UTF-8, else Latin-1; a name only as UTF-8.
pub open spec fn raw_field_text(f: PdfFieldView) -> Option<Seq<char>> {
    match f {
        PdfFieldView::Text(b) => if b.len() >= 2 && b[0] == 0xFE && b[1] == 0xFF {
            utf16_decode(be_units(b.skip(2)))
        } else if valid_utf8(b) {
            Some(decode_utf8(b))
        } else {
            Some(latin1(b))
        },
        PdfFieldView::Name(n) => if valid_utf8(n) {
            Some(decode_utf8(n))
        } else {
            None
        },
        _ => None,
    }
}

/// The trimmed text of an information value, when something is left.
pub open spec fn field_text(f: PdfFieldView) -> Option<Seq<char>> {
    match raw_field_text(f) {
        Some(s) => if trim(s).len() > 0 {
            Some(trim(s))
        } else {
            None
        },
        None => None,
    }
}

fn be_units_exec(b: &Vec<u8>, start: usize) -> (r: Vec<u16>)
    requires
        start <= b.len(),
    ensures
        r@ == be_units(b@.skip(start as int)),
{
    let ghost s = b@.skip(start as int);
    let count = (b.len() - start) / 2;
    let mut out: Vec<u16> = Vec::new();
    let mut i: usize = 0;
    while i < count
        invariant
            i <= count,
            count == (b.len() - start) / 2,
            start <= b.len(),
            s == b@.skip(start as int),
            out@.len() == i,
            forall|k: int| 0 <= k < i ==> out@[k] == be_units(s)[k],
        decreases count - i,
    {
        let hi = b[start + 2 * i] as u16;
        let lo = b[start + 2 * i + 1] as u16;
        assert(s[2 * i as int] == b@[start + 2 * i]);
        assert(s[2 * i + 1] == b@[start + 2 * i + 1]);
        out.push(hi * 256 + lo);
        i = i + 1;
    }
    assert(out@ =~= be_units(s));
    out
}

fn latin1_exec(b: &Vec<u8>) -> (r: String)
    ensures
        r@ == latin1(b@),
{
    let mut out: Vec<char> = Vec::new();
    let mut i: usize = 0;
    while i < b.len()
        invariant
            i <= b.len(),
            out@.len() == i,
            forall|k: int| 0 <= k < i ==> out@[k] == latin1(b@)[k],
        decreases b.len() - i,
    {
        out.push(b[i] as char);
        i = i + 1;
    }
    assert(out@ =~= latin1(b@));
    string_of(out.as_slice())
}

fn raw_field_text_exec(f: &PdfField) -> (r: Option<String>)
    ensures
        r.deep_view() == raw_field_text(f@),
{
    match f {
        PdfField::Text(b) => {
            if b.len() >= 2 && b[0] == 0xFE && b[1] == 0xFF {
                let units = be_units_exec(b, 2);
                utf16_text(units.as_slice())
            } else {
                match utf8_text(b.as_slice()) {
                    Some(s) => Some(s),
                    None => Some(latin1_exec(b)),
                }
            }
        },
        PdfField::Name(n) => utf8_text(n.as_slice()),
        _ => None,
    }
}

fn get_pdf_string(f: &PdfField) -> (r: Option<String>)
    ensures
        r.deep_view() == field_text(f@),
{
    match raw_field_text_exec(f) {
        Some(s) => {
            let cs = chars_of(s.as_str());
            let t = trimmed(cs.as_slice());
            if t.len() > 0 {
                Some(string_of(t.as_slice()))
            } else {
                None
            }
        },
        None => None,
    }
}

/// A separator between author names: `,`, `;` or `&`.
pub open spec fn author_sep(c: char) -> bool {
    c == ',' || c == ';' || c == '&'
}

/// The pieces between separators, empty pieces included.
pub open spec fn split_pieces(s: Seq<char>) -> Seq<Seq<char>>
    decreases s.len(),
{
    if s.len() == 0 {
        seq![Seq::empty()]
    } else {
        let p = split_pieces(s.drop_last());
        if author_sep(s.last()) {
            p.push(Seq::empty())
        } else {
            p.update(p.len() - 1, p.last().push(s.last()))
        }
    }
}

/// The trimmed pieces that are not empty.
pub open spec fn kept_names(pieces: Seq<Seq<char>>) -> Seq<Seq<char>>
    decreases pieces.len(),
{
    if pieces.len() == 0 {
        Seq::empty()
    } else {
        let r = kept_names(pieces.drop_last());
        if trim(pieces.last()).len() > 0 {
            r.push(trim(pieces.last()))
        } else {
            r
        }
    }
}

/// Author names: the text split at `,`, `;` and `&`, trimmed, empty ones
/// dropped.
pub open spec fn split_authors(s: Seq<char>) -> Seq<Seq<char>> {
    kept_names(split_pieces(s))
}

fn split_authors_exec(s: &String) -> (r: Vec<String>)
    ensures
        r.deep_view() == split_authors(s@),
{
    let cs = chars_of(s.as_str());
    let mut done: Vec<String> = Vec::new();
    let mut cur: Vec<char> = Vec::new();
    let ghost mut pieces: Seq<Seq<char>> = Seq::empty();
    let mut i: usize = 0;
    assert(cs@.take(0) =~= Seq::<char>::empty());
    assert(split_pieces(Seq::<char>::empty()) =~= pieces.push(cur@));
    while i < cs.len()
        invariant
            i <= cs.len(),
            cs@ == s@,
            split_pieces(cs@.take(i as int)) == pieces.push(cur@),
            done.deep_view() == kept_names(pieces),
        decreases cs.len() - i,
    {
        let c = cs[i];
        assert(cs@.take(i + 1).drop_last() =~= cs@.take(i as int));
        assert(cs@.take(i + 1).last() == c);
        if c == ',' || c == ';' || c == '&' {
            let t = trimmed(cur.as_slice());
            let ghost np = pieces.push(cur@);
            assert(np.drop_last() =~= pieces);
            if t.len() > 0 {
                let ghost before = done.deep_view();
                done.push(string_of(t.as_slice()));
                assert(done.deep_view() =~= before.push(t@));
            }
            proof {
                pieces = np;
            }
            cur = Vec::new();
            assert(split_pieces(cs@.take(i + 1)) =~= pieces.push(cur@));
        } else {
            let ghost old_cur = cur@;
            cur.push(c);
            assert(pieces.push(old_cur).update(pieces.len() as int, old_cur.push(c)) =~= pieces.push(
                cur@,
            ));
        }
        i = i + 1;
    }
    assert(cs@.take(i as int) =~= cs@);
    let t = trimmed(cur.as_slice());
    let ghost np = pieces.push(cur@);
    assert(np.drop_last() =~= pieces);
    if t.len() > 0 {
        let ghost before = done.deep_view();
        done.push(string_of(t.as_slice()));
        assert(done.deep_view() =~= before.push(t@));
    }
    done
}

/// How many leading characters take exactly `n` bytes; `None` when byte `n`
/// falls inside a character or past the end.
pub open spec fn chars_for_bytes(s: Seq<char>, n: int) -> Option<int>
    decreases s.len(),
{
    if n == 0 {
        Some(0)
    } else if n < 0 || s.len() == 0 {
        None
    } else {
        match chars_for_bytes(s.drop_first(), n - utf8_width(s[0])) {
            Some(k) => Some(k + 1),
            None => None,
        }
    }
}

pub open spec fn pdf_date_prefix(d: Seq<char>) -> bool {
    d.len() >= 2 && d[0] == 'D' && d[1] == ':'
}

/// The creation date `D:...` is cut at bytes 2 to 6; that cut stops the
/// program when byte 6 falls inside a character.
pub open spec fn year_cut_fails(d: Seq<char>) -> bool {
    pdf_date_prefix(d) && utf8_len(d) >= 6 && chars_for_bytes(d.skip(2), 4) is None
}

/// The year of a creation date: bytes 2 to 6 of a `D:` date, else its first
/// four characters when they are ASCII digits (byte length at least four and
/// four leading ASCII digits say the same).
pub open spec fn pdf_year(d: Seq<char>) -> Option<Seq<char>> {
    if pdf_date_prefix(d) && utf8_len(d) >= 6 {
        match chars_for_bytes(d.skip(2), 4) {
            Some(k) => Some(d.subrange(2, 2 + k)),
            None => None,
        }
    } else if d.len() >= 4 && (forall|i: int| 0 <= i < 4 ==> is_ascii_digit(#[trigger] d[i])) {
        Some(d.take(4))
    } else {
        None
    }
}

/// Whether the text takes at least six bytes in UTF-8.
fn at_least_six_bytes(d: &[char]) -> (r: bool)
    ensures
        r == (utf8_len(d@) >= 6),
{
    utf8_len_upto(d, 6) == 6
}

fn chars_for_bytes_exec(s: &[char], start: usize, n: usize) -> (r: Option<usize>)
    requires
        start <= s.len(),
        n <= 4,
    ensures
        match r {
            Some(k) => chars_for_bytes(s@.skip(start as int), n as int) == Some(k as int) && start
                + k <= s.len(),
            None => chars_for_bytes(s@.skip(start as int), n as int) is None,
        },
{
    let mut k: usize = 0;
    let mut left: usize = n;
    while left > 0 && start + k < s.len() && utf8_width_exec(s[start + k]) <= left
        invariant
            start + k <= s.len(),
            left <= 4,
            chars_for_bytes(s@.skip(start as int), n as int) == match chars_for_bytes(
                s@.skip(start + k),
                left as int,
            ) {
                Some(j) => Some(j + k),
                None => None,
            },
        decreases s.len() - (start + k),
    {
        assert(s@.skip(start + k).drop_first() =~= s@.skip(start + k + 1));
        assert(s@.skip(start + k)[0] == s@[start + k]);
        left = left - utf8_width_exec(s[start + k]);
        k = k + 1;
    }
    if left == 0 {
        Some(k)
    } else {
        if start + k < s.len() {
            assert(s@.skip(start + k)[0] == s@[start + k]);
            assert(chars_for_bytes(
                s@.skip(start + k).drop_first(),
                left - utf8_width(s@[start + k]),
            ) is None);
        }
        None
    }
}

fn year_cut_fails_exec(d: &[char]) -> (r: bool)
    ensures
        r == year_cut_fails(d@),
{
    d.len() >= 2 && d[0] == 'D' && d[1] == ':' && at_least_six_bytes(d) && chars_for_bytes_exec(
        d,
        2,
        4,
    ).is_none()
}

fn pdf_year_exec(d: &[char]) -> (r: Option<String>)
    requires
        !year_cut_fails(d@),
    ensures
        r.deep_view() == pdf_year(d@),
{
    if d.len() >= 2 && d[0] == 'D' && d[1] == ':' && at_least_six_bytes(d) {
        match chars_for_bytes_exec(d, 2, 4) {
            Some(k) => Some(string_of(sub_chars(d, 2, 2 + k).as_slice())),
            None => None,
        }
    } else if d.len() >= 4 && ('0' <= d[0] && d[0] <= '9') && ('0' <= d[1] && d[1] <= '9') && (
    '0' <= d[2] && d[2] <= '9') && ('0' <= d[3] && d[3] <= '9') {
        Some(string_of(sub_chars(d, 0, 4).as_slice()))
    } else {
        if d.len() >= 4 {
            assert(!(forall|i: int| 0 <= i < 4 ==> is_ascii_digit(#[trigger] d@[i])) || !(
            '0' <= d@[0] && d@[0] <= '9'));
        }
        None
    }
}

/// The dictionary key of the document information in the trailer: `Info`.
pub open spec fn info_key() -> Seq<u8> {
    seq![73u8, 110u8, 102u8, 111u8]
}

/// `Title`
pub open spec fn title_key() -> Seq<u8> {
    seq![84u8, 105u8, 116u8, 108u8, 101u8]
}

/// `Author`
pub open spec fn author_key() -> Seq<u8> {
    seq![65u8, 117u8, 116u8, 104u8, 111u8, 114u8]
}

/// `CreationDate`
pub open spec fn creation_date_key() -> Seq<u8> {
    seq![67u8, 114u8, 101u8, 97u8, 116u8, 105u8, 111u8, 110u8, 68u8, 97u8, 116u8, 101u8]
}

fn info_key_exec() -> (r: Vec<u8>)
    ensures
        r@ == info_key(),
{
    let r: Vec<u8> = vec![73, 110, 102, 111];
    assert(r@ =~= info_key());
    r
}

fn title_key_exec() -> (r: Vec<u8>)
    ensures
        r@ == title_key(),
{
    let r: Vec<u8> = vec![84, 105, 116, 108, 101];
    assert(r@ =~= title_key());
    r
}

fn author_key_exec() -> (r: Vec<u8>)
    ensures
        r@ == author_key(),
{
    let r: Vec<u8> = vec![65, 117, 116, 104, 111, 114];
    assert(r@ =~= author_key());
    r
}

fn creation_date_key_exec() -> (r: Vec<u8>)
    ensures
        r@ == creation_date_key(),
{
    let r: Vec<u8> = vec![67, 114, 101, 97, 116, 105, 111, 110, 68, 97, 116, 101];
    assert(r@ =~= creation_date_key());
    r
}

pub open spec fn opt_text(o: Option<&str>) -> Option<Seq<char>> {
    match o {
        Some(s) => Some(s@),
        None => None,
    }
}

/// Reading the creation date stops the program (see [`year_cut_fails`]).
pub open spec fn metadata_fails(bytes: Seq<u8>) -> bool {
    match (
        pdf_info_entry(bytes, info_key(), title_key()),
        pdf_info_entry(bytes, info_key(), author_key()),
        pdf_info_entry(bytes, info_key(), creation_date_key()),
    ) {
        (Some(_), Some(_), Some(c)) => match field_text(c) {
            Some(d) => year_cut_fails(d),
            None => false,
        },
        _ => false,
    }
}

/// The item that the document information describes, when the document has
/// an information dictionary.
pub open spec fn metadata_item(bytes: Seq<u8>, url: Option<Seq<char>>) -> Option<ItemView> {
    match (
        pdf_info_entry(bytes, info_key(), title_key()),
        pdf_info_entry(bytes, info_key(), author_key()),
        pdf_info_entry(bytes, info_key(), creation_date_key()),
    ) {
        (Some(t), Some(a), Some(c)) => Some(
            ItemView {
                title: field_text(t),
                authors: match field_text(a) {
                    Some(s) => split_authors(s),
                    None => Seq::empty(),
                },
                date: match field_text(c) {
                    Some(d) => pdf_year(d),
                    None => None,
                },
                url: url,
                item_type: Some("document"@),
                source: Some("pdf"@),
                ..empty_item()
            },
        ),
        _ => None,
    }
}

fn extract_pdf_metadata(bytes: &[u8], source_url: Option<&str>) -> (r: Option<Item>)
    requires
        !metadata_fails(bytes@),
    ensures
        opt_item(r) == metadata_item(bytes@, opt_text(source_url)),
{
    let info = info_key_exec();
    let tk = title_key_exec();
    let ak = author_key_exec();
    let ck = creation_date_key_exec();
    let t = info_entry(bytes, info.as_slice(), tk.as_slice());
    let a = info_entry(bytes, info.as_slice(), ak.as_slice());
    let c = info_entry(bytes, info.as_slice(), ck.as_slice());
    let (tf, af, cf) = match (t, a, c) {
        (Some(tf), Some(af), Some(cf)) => (tf, af, cf),
        _ => {
            return None;
        },
    };
    let title = get_pdf_string(&tf);
    let authors = match get_pdf_string(&af) {
        Some(s) => split_authors_exec(&s),
        None => {
            let v: Vec<String> = Vec::new();
            assert(v.deep_view() =~= Seq::<Seq<char>>::empty());
            v
        },
    };
    let date = match get_pdf_string(&cf) {
        Some(d) => {
            let dc = chars_of(d.as_str());
            pdf_year_exec(dc.as_slice())
        },
        None => None,
    };
    let url = match source_url {
        Some(u) => Some(String::from_str(u)),
        None => None,
    };
    Some(
        Item {
            title,
            authors,
            date,
            url,
            doi: None,
            isbn: None,
            publisher: None,
            description: None,
            item_type: Some(String::from_str("document")),
            source: Some(String::from_str("pdf")),
        },
    )
}

/// Whether the metadata step stops the program for these bytes.
fn metadata_fails_exec(bytes: &[u8]) -> (r: bool)
    ensures
        r == metadata_fails(bytes@),
{
    let info = info_key_exec();
    let tk = title_key_exec();
    let ak = author_key_exec();
    let ck = creation_date_key_exec();
    let t = info_entry(bytes, info.as_slice(), tk.as_slice());
    let a = info_entry(bytes, info.as_slice(), ak.as_slice());
    let c = info_entry(bytes, info.as_slice(), ck.as_slice());
    match (t, a, c) {
        (Some(_), Some(_), Some(cf)) => match get_pdf_string(&cf) {
            Some(d) => {
                let dc = chars_of(d.as_str());
                year_cut_fails_exec(dc.as_slice())
            },
            None => false,
        },
        _ => false,
    }
}

/// The pages whose text is searched: `1..=m` with `m` the smaller of the
/// limit and the page count, as a `u32`.
pub open spec fn page_numbers(m: usize) -> Seq<u32> {
    Seq::new((m as u32) as nat, |i: int| (i + 1) as u32)
}

fn page_numbers_exec(max_pages: usize, count: usize) -> (r: Vec<u32>)
    ensures
        r@ == page_numbers(if max_pages < count {
            max_pages
        } else {
            count
        }),
{
    let m = if max_pages < count {
        max_pages
    } else {
        count
    };
    let top: u32 = #[verifier::truncate] (m as u32);
    let mut out: Vec<u32> = Vec::new();
    let mut i: u32 = 0;
    while i < top
        invariant
            i <= top,
            top == (m as u32),
            out@.len() == i,
            forall|k: int| 0 <= k < i ==> out@[k] == (k + 1) as u32,
        decreases top - i,
    {
        out.push(i + 1);
        i = i + 1;
    }
    assert(out@ =~= page_numbers(m));
    out
}

/// `-`, `–` or `—`.
pub open spec fn dash(c: char) -> bool {
    c == '-' || c == '\u{2013}' || c == '\u{2014}'
}

/// End of the whitespace run at `i`.
pub open spec fn space_end(n: Seq<char>, i: int) -> int {
    run_end(Class::Space, n, i)
}

/// No line break in `n[a..b]` (what `.` does not match).
pub open spec fn no_newline(n: Seq<char>, a: int, b: int) -> bool {
    forall|k: int| a <= k < b ==> #[trigger] n[k] != '\n'
}

/// From `l` to the end: spaces, a dash or `(`, spaces, four digits, an
/// optional `)`; the position of the digits.
pub open spec fn year_tail(n: Seq<char>, l: int) -> Option<int> {
    let a = space_end(n, l);
    if 0 <= a < n.len() && (dash(n[a]) || n[a] == '(') {
        let b = space_end(n, a + 1);
        if digits_at(n, b, 4) && (b + 4 == n.len() || (b + 5 == n.len() && n[b + 4] == ')')) {
            Some(b)
        } else {
            None
        }
    } else {
        None
    }
}

/// The shortest title ending at `l` or later (with no line break) that the
/// year tail follows: `(title end, year start)`.
pub open spec fn titled_tail(n: Seq<char>, l: int) -> Option<(int, int)>
    decreases n.len() + 1 - l,
{
    if l < 1 || l > n.len() || n[l - 1] == '\n' {
        None
    } else {
        match year_tail(n, l) {
            Some(b) => Some((l, b)),
            None => titled_tail(n, l + 1),
        }
    }
}

/// The title start `j`, from the end of the spaces after the dash back to the
/// dash, whose title the year tail can follow.
pub open spec fn dated_from(n: Seq<char>, w: int, j: int) -> Option<(int, int, int)>
    decreases j - w,
{
    if j <= w {
        None
    } else {
        match titled_tail(n, j + 1) {
            Some((l, b)) => Some((j, l, b)),
            None => dated_from(n, w, j - 1),
        }
    }
}

/// After an author ending at `i`: spaces, a dash, then a dated title.
pub open spec fn dated_at(n: Seq<char>, i: int) -> Option<(int, int, int)> {
    let w = space_end(n, i);
    if 0 <= w < n.len() && dash(n[w]) {
        dated_from(n, w, space_end(n, w + 1))
    } else {
        None
    }
}

/// "Author - Title - Year" or "Author - Title (Year)": the shortest author
/// (no line break) that a dated title follows; `(author end, title start,
/// title end, year start)`.
pub open spec fn dated_search(n: Seq<char>, i: int) -> Option<(int, int, int, int)>
    decreases n.len() + 1 - i,
{
    if i < 1 || i > n.len() || n[i - 1] == '\n' {
        None
    } else {
        match dated_at(n, i) {
            Some((j, l, b)) => Some((i, j, l, b)),
            None => dated_search(n, i + 1),
        }
    }
}

/// The start `j` of a second part that runs to the end without a line break.
pub open spec fn rest_from(n: Seq<char>, w: int, j: int) -> Option<int>
    decreases j - w,
{
    if j <= w {
        None
    } else if j < n.len() && no_newline(n, j, n.len() as int) {
        Some(j)
    } else {
        rest_from(n, w, j - 1)
    }
}

pub open spec fn pair_at(n: Seq<char>, i: int) -> Option<int> {
    let w = space_end(n, i);
    if 0 <= w < n.len() && dash(n[w]) {
        rest_from(n, w, space_end(n, w + 1))
    } else {
        None
    }
}

/// "Title - Author": the shortest first part (no line break) followed by
/// spaces, a dash and a second part; `(first end, second start)`.
pub open spec fn pair_search(n: Seq<char>, i: int) -> Option<(int, int)>
    decreases n.len() + 1 - i,
{
    if i < 1 || i > n.len() || n[i - 1] == '\n' {
        None
    } else {
        match pair_at(n, i) {
            Some(j) => Some((i, j)),
            None => pair_search(n, i + 1),
        }
    }
}

fn is_dash(c: char) -> (r: bool)
    ensures
        r == dash(c),
{
    c == '-' || c == '\u{2013}' || c == '\u{2014}'
}

fn year_tail_exec(n: &[char], l: usize) -> (r: Option<usize>)
    requires
        l <= n.len(),
    ensures
        match r {
            Some(b) => year_tail(n@, l as int) == Some(b as int) && b + 4 <= n.len(),
            None => year_tail(n@, l as int) is None,
        },
{
    let a = run_end_exec(Class::Space, n, l);
    if a < n.len() && (is_dash(n[a]) || n[a] == '(') {
        let b = run_end_exec(Class::Space, n, a + 1);
        if digits_at_exec(n, b, 4) && (n.len() - b == 4 || (n.len() - b == 5 && n[b + 4] == ')')) {
            Some(b)
        } else {
            None
        }
    } else {
        None
    }
}

fn titled_tail_exec(n: &[char], l0: usize) -> (r: Option<(usize, usize)>)
    requires
        1 <= l0,
    ensures
        match r {
            Some((l, b)) => titled_tail(n@, l0 as int) == Some((l as int, b as int)) && l0 <= l
                <= n.len() && b + 4 <= n.len(),
            None => titled_tail(n@, l0 as int) is None,
        },
{
    let mut idx = l0 - 1;
    while idx < n.len() && n[idx] != '\n'
        invariant
            l0 <= idx + 1,
            titled_tail(n@, l0 as int) == titled_tail(n@, idx + 1),
        decreases n.len() - idx,
    {
        if let Some(b) = year_tail_exec(n, idx + 1) {
            return Some((idx + 1, b));
        }
        idx = idx + 1;
    }
    None
}

fn dated_at_exec(n: &[char], i: usize) -> (r: Option<(usize, usize, usize)>)
    requires
        i <= n.len(),
    ensures
        match r {
            Some((j, l, b)) => dated_at(n@, i as int) == Some((j as int, l as int, b as int))
                && j <= l <= n.len() && b + 4 <= n.len(),
            None => dated_at(n@, i as int) is None,
        },
{
    let w = run_end_exec(Class::Space, n, i);
    if w < n.len() && is_dash(n[w]) {
        let m = run_end_exec(Class::Space, n, w + 1);
        let mut j = m;
        while j > w
            invariant
                w < j <= m || j == w,
                m <= n.len(),
                w < m,
                dated_at(n@, i as int) == dated_from(n@, w as int, m as int),
                dated_from(n@, w as int, m as int) == dated_from(n@, w as int, j as int),
            decreases j,
        {
            if j < n.len() {
                if let Some((l, b)) = titled_tail_exec(n, j + 1) {
                    return Some((j, l, b));
                }
            }
            j = j - 1;
        }
        None
    } else {
        None
    }
}

fn dated_search_exec(n: &[char]) -> (r: Option<(usize, usize, usize, usize)>)
    ensures
        match r {
            Some((i, j, l, b)) => dated_search(n@, 1) == Some(
                (i as int, j as int, l as int, b as int),
            ) && 1 <= i <= n.len() && j <= l <= n.len() && b + 4 <= n.len(),
            None => dated_search(n@, 1) is None,
        },
{
    let mut idx: usize = 0;
    while idx < n.len() && n[idx] != '\n'
        invariant
            dated_search(n@, 1) == dated_search(n@, idx + 1),
        decreases n.len() - idx,
    {
        if let Some((j, l, b)) = dated_at_exec(n, idx + 1) {
            return Some((idx + 1, j, l, b));
        }
        idx = idx + 1;
    }
    None
}

fn no_newline_exec(n: &[char], a: usize) -> (r: bool)
    requires
        a <= n.len(),
    ensures
        r == no_newline(n@, a as int, n@.len() as int),
{
    let mut k = a;
    while k < n.len()
        invariant
            a <= k <= n.len(),
            no_newline(n@, a as int, k as int),
        decreases n.len() - k,
    {
        if n[k] == '\n' {
            return false;
        }
        k = k + 1;
    }
    true
}

fn pair_at_exec(n: &[char], i: usize) -> (r: Option<usize>)
    requires
        i <= n.len(),
    ensures
        match r {
            Some(j) => pair_at(n@, i as int) == Some(j as int) && j < n.len(),
            None => pair_at(n@, i as int) is None,
        },
{
    let w = run_end_exec(Class::Space, n, i);
    if w < n.len() && is_dash(n[w]) {
        let m = run_end_exec(Class::Space, n, w + 1);
        let mut j = m;
        while j > w
            invariant
                w < j <= m || j == w,
                m <= n.len(),
                w < m,
                pair_at(n@, i as int) == rest_from(n@, w as int, m as int),
                rest_from(n@, w as int, m as int) == rest_from(n@, w as int, j as int),
            decreases j,
        {
            if j < n.len() && no_newline_exec(n, j) {
                return Some(j);
            }
            j = j - 1;
        }
        None
    } else {
        None
    }
}

fn pair_search_exec(n: &[char]) -> (r: Option<(usize, usize)>)
    ensures
        match r {
            Some((i, j)) => pair_search(n@, 1) == Some((i as int, j as int)) && 1 <= i <= n.len()
                && j < n.len(),
            None => pair_search(n@, 1) is None,
        },
{
    let mut idx: usize = 0;
    while idx < n.len() && n[idx] != '\n'
        invariant
            pair_search(n@, 1) == pair_search(n@, idx + 1),
        decreases n.len() - idx,
    {
        if let Some(j) = pair_at_exec(n, idx + 1) {
            return Some((idx + 1, j));
        }
        idx = idx + 1;
    }
    None
}

/// The item that a file name (without `.pdf`) describes.
pub open spec fn name_item(name: Seq<char>, url: Seq<char>) -> ItemView {
    match dated_search(name, 1) {
        Some((i, j, l, b)) => ItemView {
            title: Some(trim(name.subrange(j, l))),
            authors: seq![trim(name.subrange(0, i))],
            date: Some(name.subrange(b, b + 4)),
            url: Some(url),
            item_type: Some("document"@),
            source: Some("filename"@),
            ..empty_item()
        },
        None => match pair_search(name, 1) {
            Some((i, j)) => ItemView {
                title: Some(trim(name.subrange(0, i))),
                authors: seq![trim(name.subrange(j, name.len() as int))],
                url: Some(url),
                item_type: Some("document"@),
                source: Some("filename"@),
                ..empty_item()
            },
            None => ItemView {
                title: Some(name),
                url: Some(url),
                item_type: Some("document"@),
                source: Some("filename"@),
                ..empty_item()
            },
        },
    }
}

/// The text after the last `/` (all of it when there is none).
pub open spec fn last_segment(u: Seq<char>) -> Seq<char>
    decreases u.len(),
{
    if u.len() == 0 {
        u
    } else if u.last() == '/' {
        Seq::empty()
    } else {
        last_segment(u.drop_last()).push(u.last())
    }
}

/// The text before the first `?` (all of it when there is none).
pub open spec fn before_query(s: Seq<char>) -> Seq<char>
    decreases s.len(),
{
    if s.len() == 0 {
        s
    } else if s[0] == '?' {
        Seq::empty()
    } else {
        seq![s[0]] + before_query(s.drop_first())
    }
}

/// The value of a hexadecimal digit byte.
pub open spec fn hex_value(b: u8) -> Option<int> {
    if 48 <= b <= 57 {
        Some(b - 48)
    } else if 65 <= b <= 70 {
        Some(b - 55)
    } else if 97 <= b <= 102 {
        Some(b - 87)
    } else {
        None
    }
}

/// Percent-decoding: `%` and two hexadecimal digits stand for one byte; any
/// other byte, a lone `%` included, stands for itself.
pub open spec fn percent_decode(b: Seq<u8>) -> Seq<u8>
    decreases b.len(),
{
    if b.len() == 0 {
        b
    } else if b[0] == 37 && b.len() >= 3 && hex_value(b[1]) is Some && hex_value(b[2]) is Some {
        seq![(hex_value(b[1]).unwrap() * 16 + hex_value(b[2]).unwrap()) as u8] + percent_decode(
            b.skip(3),
        )
    } else {
        seq![b[0]] + percent_decode(b.drop_first())
    }
}

/// What `urlencoding::decode` gives: the percent-decoded bytes of the UTF-8
/// text, when they are UTF-8 in turn.
pub open spec fn url_decoded(s: Seq<char>) -> Option<Seq<char>> {
    let b = percent_decode(encode_utf8(s));
    if valid_utf8(b) {
        Some(decode_utf8(b))
    } else {
        None
    }
}

/// `urlencoding::decode(s)`, as an owned string.
#[verifier::external_body]
fn url_decode(s: &str) -> (r: Option<String>)
    ensures
        r.deep_view() == url_decoded(s@),
{
    urlencoding::decode(s).ok().map(|c| c.into_owned())
}

/// The name with a `.pdf` or `.PDF` ending cut off.
pub open spec fn strip_pdf(f: Seq<char>) -> Option<Seq<char>> {
    if f.len() >= 4 && f.subrange(f.len() - 4, f.len() as int) == seq!['.', 'p', 'd', 'f'] {
        Some(f.take(f.len() - 4))
    } else if f.len() >= 4 && f.subrange(f.len() - 4, f.len() as int) == seq!['.', 'P', 'D', 'F'] {
        Some(f.take(f.len() - 4))
    } else {
        None
    }
}

/// The item that the file name in a URL describes.
pub open spec fn filename_item(url: Seq<char>) -> Option<ItemView> {
    match url_decoded(before_query(last_segment(url))) {
        None => None,
        Some(f) => match strip_pdf(f) {
            None => None,
            Some(name) => Some(name_item(name, url)),
        },
    }
}

fn last_segment_exec(u: &[char]) -> (r: Vec<char>)
    ensures
        r@ == last_segment(u@),
{
    let mut b = u.len();
    assert(u@.subrange(b as int, u@.len() as int) =~= Seq::<char>::empty());
    assert(u@.take(b as int) =~= u@);
    while b > 0 && u[b - 1] != '/'
        invariant
            b <= u.len(),
            last_segment(u@) == last_segment(u@.take(b as int)) + u@.subrange(b as int, u@.len() as int),
        decreases b,
    {
        assert(u@.take(b as int).drop_last() =~= u@.take(b - 1));
        assert(u@.take(b as int).last() == u@[b - 1]);
        assert(u@.subrange(b - 1, u@.len() as int) =~= seq![u@[b - 1]] + u@.subrange(
            b as int,
            u@.len() as int,
        ));
        assert(last_segment(u@.take(b - 1)).push(u@[b - 1]) + u@.subrange(b as int, u@.len() as int)
            =~= last_segment(u@.take(b - 1)) + u@.subrange(b - 1, u@.len() as int));
        b = b - 1;
    }
    if b > 0 {
        assert(u@.take(b as int).last() == u@[b - 1]);
    }
    assert(Seq::<char>::empty() + u@.subrange(b as int, u@.len() as int) =~= u@.subrange(
        b as int,
        u@.len() as int,
    ));
    sub_chars(u, b, u.len())
}

fn before_query_exec(s: &[char]) -> (r: Vec<char>)
    ensures
        r@ == before_query(s@),
{
    let mut i: usize = 0;
    assert(s@.skip(0) =~= s@);
    while i < s.len() && s[i] != '?'
        invariant
            i <= s.len(),
            before_query(s@) == s@.take(i as int) + before_query(s@.skip(i as int)),
            forall|k: int| 0 <= k < i ==> s@[k] != '?',
        decreases s.len() - i,
    {
        assert(s@.skip(i as int).drop_first() =~= s@.skip(i + 1));
        assert(s@.skip(i as int)[0] == s@[i as int]);
        assert(s@.take(i + 1) =~= s@.take(i as int) + seq![s@[i as int]]);
        i = i + 1;
    }
    if i < s.len() {
        assert(s@.skip(i as int)[0] == s@[i as int]);
    }
    assert(s@.take(i as int) + Seq::<char>::empty() =~= s@.take(i as int));
    sub_chars(s, 0, i)
}

fn strip_pdf_exec(f: &[char]) -> (r: Option<Vec<char>>)
    ensures
        match r {
            Some(n) => strip_pdf(f@) == Some(n@),
            None => strip_pdf(f@) is None,
        },
{
    let len = f.len();
    if len >= 4 && f[len - 4] == '.' {
        if f[len - 3] == 'p' && f[len - 2] == 'd' && f[len - 1] == 'f' {
            assert(f@.subrange(len - 4, len as int) =~= seq!['.', 'p', 'd', 'f']);
            return Some(sub_chars(f, 0, len - 4));
        }
        if f[len - 3] == 'P' && f[len - 2] == 'D' && f[len - 1] == 'F' {
            assert(f@.subrange(len - 4, len as int) =~= seq!['.', 'P', 'D', 'F']);
            assert(f@.subrange(len - 4, len as int) != seq!['.', 'p', 'd', 'f']);
            return Some(sub_chars(f, 0, len - 4));
        }
        assert(f@.subrange(len - 4, len as int)[1] == f@[len - 3]);
        assert(f@.subrange(len - 4, len as int)[2] == f@[len - 2]);
        assert(f@.subrange(len - 4, len as int)[3] == f@[len - 1]);
        assert(seq!['.', 'p', 'd', 'f'][1] == 'p');
        assert(seq!['.', 'P', 'D', 'F'][1] == 'P');
        assert(seq!['.', 'p', 'd', 'f'][2] == 'd');
        assert(seq!['.', 'P', 'D', 'F'][2] == 'D');
        assert(seq!['.', 'p', 'd', 'f'][3] == 'f');
        assert(seq!['.', 'P', 'D', 'F'][3] == 'F');
        None
    } else {
        if len >= 4 {
            assert(f@.subrange(len - 4, len as int)[0] == f@[len - 4]);
            assert(seq!['.', 'p', 'd', 'f'][0] == '.');
            assert(seq!['.', 'P', 'D', 'F'][0] == '.');
        }
        None
    }
}

fn document_item(title: Option<String>, authors: Vec<String>, date: Option<String>, url: &str) -> (r:
    Item)
    ensures
        r@ == (ItemView {
            title: title.deep_view(),
            authors: authors.deep_view(),
            date: date.deep_view(),
            url: Some(url@),
            item_type: Some("document"@),
            source: Some("filename"@),
            ..empty_item()
        }),
{
    Item {
        title,
        authors,
        date,
        url: Some(String::from_str(url)),
        doi: None,
        isbn: None,
        publisher: None,
        description: None,
        item_type: Some(String::from_str("document")),
        source: Some(String::from_str("filename")),
    }
}

fn name_item_exec(name: &[char], url: &str) -> (r: Item)
    ensures
        r@ == name_item(name@, url@),
{
    if let Some((i, j, l, b)) = dated_search_exec(name) {
        let title = string_of(trimmed(sub_chars(name, j, l).as_slice()).as_slice());
        let author = string_of(trimmed(sub_chars(name, 0, i).as_slice()).as_slice());
        let year = string_of(sub_chars(name, b, b + 4).as_slice());
        let mut authors: Vec<String> = Vec::new();
        authors.push(author);
        assert(authors.deep_view() =~= seq![trim(name@.subrange(0, i as int))]);
        return document_item(Some(title), authors, Some(year), url);
    }
    if let Some((i, j)) = pair_search_exec(name) {
        let title = string_of(trimmed(sub_chars(name, 0, i).as_slice()).as_slice());
        let author = string_of(trimmed(sub_chars(name, j, name.len()).as_slice()).as_slice());
        let mut authors: Vec<String> = Vec::new();
        authors.push(author);
        assert(authors.deep_view() =~= seq![trim(name@.subrange(j as int, name@.len() as int))]);
        return document_item(Some(title), authors, None, url);
    }
    let authors: Vec<String> = Vec::new();
    assert(authors.deep_view() =~= Seq::<Seq<char>>::empty());
    document_item(Some(string_of(name)), authors, None, url)
}

/// Metadata guessed from the file name at the end of a URL.
fn extract_from_filename(url: &str) -> (r: Option<Item>)
    ensures
        opt_item(r) == filename_item(url@),
{
    let u = chars_of(url);
    let seg = last_segment_exec(u.as_slice());
    let file = before_query_exec(seg.as_slice());
    let decoded = match url_decode(string_of(file.as_slice()).as_str()) {
        Some(d) => d,
        None => {
            return None;
        },
    };
    let dc = chars_of(decoded.as_str());
    match strip_pdf_exec(dc.as_slice()) {
        Some(name) => Some(name_item_exec(name.as_slice(), url)),
        None => None,
    }
}

/// What to do for a PDF once its bytes are read.
pub enum PdfPlan {
    /// The outcome, known without any lookup.
    Done(Option<Item>),
    /// Resolve these identifiers, in order; when none resolves, the outcome is
    /// `fallback`.
    Resolve { identifiers: Vec<Identifier>, fallback: Option<Item> },
}

/// The filename guess, when there is a URL.
pub open spec fn filename_fallback(url: Option<Seq<char>>) -> Option<ItemView> {
    match url {
        Some(u) => filename_item(u),
        None => None,
    }
}

/// An item with a title or an author.
pub open spec fn partial(m: Option<ItemView>) -> bool {
    match m {
        Some(i) => i.title is Some || i.authors.len() > 0,
        None => false,
    }
}

/// The text of the first pages that is searched for identifiers.
pub open spec fn searched_text(bytes: Seq<u8>, count: usize, max_pages: usize) -> Seq<char> {
    pdf_pages_text(
        bytes,
        page_numbers(
            if max_pages < count {
                max_pages
            } else {
                count
            },
        ),
    )
}

/// `plan` is what the PDF bytes call for: an unreadable document falls back to
/// the file name; complete document information is the outcome; otherwise
/// the identifiers in the text of the first `max_pages` pages are to be
/// resolved, with the partial document information, else the file name, as
/// the fallback.
pub open spec fn pdf_plan_ok(
    bytes: Seq<u8>,
    url: Option<Seq<char>>,
    max_pages: usize,
    plan: PdfPlan,
) -> bool {
    match pdf_page_count(bytes) {
        None => plan matches PdfPlan::Done(x) && opt_item(x) == filename_fallback(url),
        Some(count) => {
            let meta = metadata_item(bytes, url);
            if meta matches Some(m) && complete(m) {
                plan matches PdfPlan::Done(x) && opt_item(x) == meta
            } else {
                let text = searched_text(bytes, count, max_pages);
                &&& plan matches PdfPlan::Resolve { identifiers, fallback }
                &&& opt_item(plan->fallback) == (if partial(meta) {
                    meta
                } else {
                    filename_fallback(url)
                })
                &&& text.len() == 0 ==> plan->identifiers@.len() == 0
                &&& text.len() > 0 ==> sorted_distinct(plan->identifiers@)
                &&& text.len() > 0 ==> forall|x: IdView|
                    has_view(plan->identifiers@, x) <==> found_ids(text).contains(x)
            }
        },
    }
}

/// Plans the extraction of metadata from PDF bytes (see [`pdf_plan_ok`]).
/// Bytes whose document information has a `D:` creation date with its sixth
/// byte inside a character stop the program where the date is cut; they are
/// left out (see [`try_extract_pdf`]).
pub fn extract_pdf(bytes: &[u8], source_url: Option<&str>, config: &Config) -> (r: PdfPlan)
    requires
        !(pdf_page_count(bytes@) is Some && metadata_fails(bytes@)),
    ensures
        pdf_plan_ok(bytes@, opt_text(source_url), config.max_pdf_pages, r),
{
    let count = match page_count(bytes) {
        Some(c) => c,
        None => {
            let fb = match source_url {
                Some(u) => extract_from_filename(u),
                None => None,
            };
            return PdfPlan::Done(fb);
        },
    };
    let meta = extract_pdf_metadata(bytes, source_url);
    let is_complete = match &meta {
        Some(m) => m.title.is_some() && m.authors.len() > 0,
        None => false,
    };
    if is_complete {
        return PdfPlan::Done(meta);
    }
    let pages = page_numbers_exec(config.max_pdf_pages, count);
    let text = pages_text(bytes, pages.as_slice());
    let tc = chars_of(text.as_str());
    let identifiers = if tc.len() > 0 {
        detect_all(text.as_str())
    } else {
        Vec::new()
    };
    let is_partial = match &meta {
        Some(m) => m.title.is_some() || m.authors.len() > 0,
        None => false,
    };
    let fallback = if is_partial {
        meta
    } else {
        match source_url {
            Some(u) => extract_from_filename(u),
            None => None,
        }
    };
    PdfPlan::Resolve { identifiers, fallback }
}

/// Whatever a PDF plan yields without a lookup (its outcome, or its fallback
/// when no identifier resolves) has a title or an author and records the URL
/// the bytes came from.
pub proof fn law_pdf_items_titled(
    bytes: Seq<u8>,
    url: Option<Seq<char>>,
    max_pages: usize,
    plan: PdfPlan,
)
    requires
        pdf_plan_ok(bytes, url, max_pages, plan),
    ensures
        plan matches PdfPlan::Done(Some(i)) ==> partial(Some(i@)) && i@.url == url,
        plan matches PdfPlan::Resolve { fallback: Some(i), .. } ==> partial(Some(i@)) && i@.url
            == url,
{
}

/// The order of the PDF outcomes: complete document information is the
/// outcome; document information with a title or an author but not both is
/// the fallback of the lookups, whatever the URL; the file-name guess is the
/// fallback only when the document information has neither.
pub proof fn law_pdf_fallback_order(
    bytes: Seq<u8>,
    url: Option<Seq<char>>,
    max_pages: usize,
    plan: PdfPlan,
)
    requires
        pdf_plan_ok(bytes, url, max_pages, plan),
    ensures
        pdf_page_count(bytes) is Some ==> (metadata_item(bytes, url) matches Some(m) ==> (
        m.title is Some && m.authors.len() > 0 ==> plan is Done && opt_item(plan->Done_0) == Some(
            m,
        ))),
        pdf_page_count(bytes) is Some ==> (metadata_item(bytes, url) matches Some(m) ==> ((
        m.title is Some || m.authors.len() > 0) && !(m.title is Some && m.authors.len() > 0)
            ==> plan is Resolve && opt_item(plan->fallback) == Some(m) && m.source == Some(
            "pdf"@,
        ))),
        plan matches PdfPlan::Resolve { fallback: Some(i), .. } ==> (i@.source == Some(
            "filename"@,
        ) ==> (metadata_item(bytes, url) matches Some(m) ==> m.title is None && m.authors.len()
            == 0)),
{
    reveal_strlit("pdf");
    reveal_strlit("filename");
    assert("pdf"@.len() != "filename"@.len());
}

/// [`extract_pdf`] on any bytes: `None` exactly for those it leaves out.
pub fn try_extract_pdf(bytes: &[u8], source_url: Option<&str>, config: &Config) -> (r: Option<
    PdfPlan,
>)
    ensures
        match r {
            None => pdf_page_count(bytes@) is Some && metadata_fails(bytes@),
            Some(plan) => pdf_plan_ok(bytes@, opt_text(source_url), config.max_pdf_pages, plan),
        },
{
    if page_count(bytes).is_some() && metadata_fails_exec(bytes) {
        return None;
    }
    Some(extract_pdf(bytes, source_url, config))
}

} // verus!
