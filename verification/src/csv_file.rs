//! Reading a CSV file: decoding UTF-8 (with or without a byte-order mark) or
//! CP932, checking the quoting, and splitting it into a header and data rows.
use vstd::prelude::*;
use vstd::utf8::{valid_utf8, decode_utf8};
use vstd::string::StringSliceAdditionalSpecFns;
use crate::model::{ParsedCsv, ParsedCsvV, Result, invalid, fails_with, texts_view};
use crate::text::{decimal, decimal_text, decimal_u64, concat};

verus! {

// ---------------------------------------------------------------------------
// Quoting

/// How a scan of the quoting ends.
pub enum QuoteScan {
    Fine,
    /// A quote in the middle of a field, or text after a closing quote.
    Malformed(int),
    /// A quoted field that never closes.
    Unclosed(int),
}

/// The quoting scan from byte `i` on, in the given state; `line` counts the
/// line feeds seen, starting at 1.
pub open spec fn quote_scan(b: Seq<u8>, i: int, quoted: bool, start: bool, closed: bool, line: int) -> QuoteScan
    decreases b.len() - i,
{
    if i < 0 || i >= b.len() {
        if quoted {
            QuoteScan::Unclosed(line)
        } else {
            QuoteScan::Fine
        }
    } else {
        let c = b[i];
        let line2 = if c == 10 {
            line + 1
        } else {
            line
        };
        if quoted {
            if c == 34 {
                if i + 1 < b.len() && b[i + 1] == 34 {
                    quote_scan(b, i + 2, true, start, closed, line2)
                } else {
                    quote_scan(b, i + 1, false, start, true, line2)
                }
            } else {
                quote_scan(b, i + 1, true, start, closed, line2)
            }
        } else if c == 44 || c == 10 || c == 13 {
            quote_scan(b, i + 1, false, true, false, line2)
        } else if c == 34 && start {
            quote_scan(b, i + 1, true, false, closed, line2)
        } else if c == 34 || closed {
            QuoteScan::Malformed(line2)
        } else {
            quote_scan(b, i + 1, false, false, closed, line2)
        }
    }
}

/// The message of the quoting error in the bytes of a text, if any.
pub open spec fn quote_error(b: Seq<u8>) -> Option<Seq<char>> {
    match quote_scan(b, 0, false, true, false, 1) {
        QuoteScan::Fine => None,
        QuoteScan::Malformed(l) => Some(
            "CSVの"@ + decimal(l as nat) + "行付近で引用符の書式が不正です。"@,
        ),
        QuoteScan::Unclosed(l) => Some(
            "CSVの"@ + decimal(l as nat) + "行付近で引用符が閉じられていません。"@,
        ),
    }
}

/// Checks that quotes open only at the start of a field, close before a field
/// separator or line end, and are doubled inside a quoted field.
pub fn validate_csv_quotes(text: &str) -> (r: Result<()>)
    requires
        text.spec_bytes().len() < usize::MAX,
    ensures
        quote_error(text.spec_bytes()) is None ==> r is Ok,
        (quote_error(text.spec_bytes()) matches Some(m) ==> fails_with(r, m)),
{
    let bytes = text.as_bytes();
    let ghost b = bytes@;
    assert(b == text.spec_bytes());
    let mut quoted = false;
    let mut start = true;
    let mut closed = false;
    let mut line: usize = 1;
    let mut i: usize = 0;
    while i < bytes.len()
        invariant
            b == bytes@,
            b == text.spec_bytes(),
            i <= bytes.len(),
            1 <= line <= i + 1,
            bytes.len() < usize::MAX,
            quote_scan(b, 0, false, true, false, 1) == quote_scan(b, i as int, quoted, start, closed, line as int),
        decreases bytes.len() - i,
    {
        let c = bytes[i];
        let ghost (q0, s0, c0, l0) = (quoted, start, closed, line as int);
        if c == 10u8 {
            line = line + 1;
        }
        if quoted {
            if c == 34u8 {
                if i + 1 < bytes.len() && bytes[i + 1] == 34u8 {
                    i = i + 1;
                } else {
                    quoted = false;
                    closed = true;
                }
            }
        } else if c == 44u8 || c == 10u8 || c == 13u8 {
            start = true;
            closed = false;
        } else if c == 34u8 && start {
            quoted = true;
            start = false;
        } else if c == 34u8 || closed {
            assert(quote_scan(b, i as int, q0, s0, c0, l0) == QuoteScan::Malformed(line as int));
            let m = concat(
                concat("CSVの", decimal_text(line).as_str()).as_str(),
                "行付近で引用符の書式が不正です。",
            );
            return Err(crate::model::Error::Invalid(m));
        } else {
            start = false;
        }
        i = i + 1;
    }
    if quoted {
        assert(quote_scan(b, i as int, quoted, start, closed, line as int) == QuoteScan::Unclosed(line as int));
        let m = concat(
            concat("CSVの", decimal_text(line).as_str()).as_str(),
            "行付近で引用符が閉じられていません。",
        );
        return Err(crate::model::Error::Invalid(m));
    }
    Ok(())
}

// ---------------------------------------------------------------------------
// Decoding

/// What `encoding_rs::SHIFT_JIS.decode` makes of the bytes (a leading
/// byte-order mark selects the encoding it names): the text, or `None` when it
/// met malformed sequences.
pub uninterp spec fn spec_cp932(bytes: Seq<u8>) -> Option<Seq<char>>;

/// `std::str::from_utf8`: the text when the bytes are valid UTF-8.
#[verifier::external_body]
fn utf8_text(bytes: &[u8]) -> (r: Option<String>)
    ensures
        r is Some <==> valid_utf8(bytes@),
        (r matches Some(t) ==> t@ == decode_utf8(bytes@)),
{
    std::str::from_utf8(bytes).ok().map(|s| s.to_owned())
}

/// `encoding_rs::SHIFT_JIS.decode(bytes)`: the text, unless it reported
/// malformed sequences.
#[verifier::external_body]
fn cp932_text(bytes: &[u8]) -> (r: Option<String>)
    ensures
        (r matches Some(t) ==> spec_cp932(bytes@) == Some(t@)),
        r is None ==> spec_cp932(bytes@) is None,
{
    let (text, _, errors) = encoding_rs::SHIFT_JIS.decode(bytes);
    if errors {
        None
    } else {
        Some(text.into_owned())
    }
}

/// `s` without its leading U+FEFF characters.
pub open spec fn without_bom(s: Seq<char>) -> Seq<char>
    decreases s.len(),
{
    if s.len() > 0 && s[0] == '\u{feff}' {
        without_bom(s.drop_first())
    } else {
        s
    }
}

/// `str::trim_start_matches('\u{feff}')`.
#[verifier::external_body]
fn strip_bom(s: &str) -> (r: &str)
    ensures
        r@ == without_bom(s@),
        r.spec_bytes().len() <= isize::MAX,
{
    s.trim_start_matches('\u{feff}')
}

// ---------------------------------------------------------------------------
// Records

/// What the `csv` reader (default settings, equal record lengths required)
/// reads from the text: `None` when the header cannot be read; otherwise the
/// header fields, the records read before the first failing one, each
/// record's reported line, and, if a record failed, the reported line of the
/// failure.
pub uninterp spec fn spec_csv_records(text: Seq<char>) -> Option<
    (Seq<Seq<char>>, Seq<Seq<Seq<char>>>, Seq<Option<u64>>, Option<Option<u64>>),
>;

/// The records as the `csv` reader returns them.
pub struct CsvRecords {
    pub headers: Vec<String>,
    pub rows: Vec<Vec<String>>,
    pub positions: Vec<Option<u64>>,
    pub failure: Option<Option<u64>>,
}

pub open spec fn rows_view(v: Seq<Vec<String>>) -> Seq<Seq<Seq<char>>> {
    v.map_values(|r: Vec<String>| texts_view(r@))
}

/// Every line break of the text is a carriage return followed by a line feed.
pub open spec fn crlf_only(t: Seq<char>) -> bool {
    forall|i: int|
        0 <= i < t.len() ==> (#[trigger] t[i] == '\r' ==> i + 1 < t.len() && t[i + 1] == '\n') && (t[i] == '\n'
            ==> i > 0 && t[i - 1] == '\r')
}

/// Every position is present, each line above the one before.
pub open spec fn lines_rising(positions: Seq<Option<u64>>) -> bool {
    &&& forall|k: int| 0 <= k < positions.len() ==> (#[trigger] positions[k]) is Some
    &&& forall|j: int, k: int|
        0 <= j < k < positions.len() ==> #[trigger] positions[j]->0 < #[trigger] positions[k]->0
}

/// Every position is present, with a line of 2 or more, each line above the
/// one before.
pub open spec fn lines_from_two(positions: Seq<Option<u64>>) -> bool {
    &&& forall|k: int| 0 <= k < positions.len() ==> (#[trigger] positions[k] matches Some(l) && 2 <= l)
    &&& forall|j: int, k: int|
        0 <= j < k < positions.len() ==> #[trigger] positions[j]->0 < #[trigger] positions[k]->0
}

/// Records as a reader that is not flexible returns them from a text of `n`
/// characters: each has the header's length, and each has a position whose
/// line is at least 1, at most `n + 1`, and not below the line of the record
/// before it.
pub open spec fn records_shaped(
    headers: Seq<Seq<char>>,
    rows: Seq<Seq<Seq<char>>>,
    positions: Seq<Option<u64>>,
    n: nat,
) -> bool {
    &&& forall|k: int| 0 <= k < rows.len() ==> (#[trigger] rows[k]).len() == headers.len()
    &&& forall|k: int|
        0 <= k < positions.len() ==> (#[trigger] positions[k] matches Some(l) && 1 <= l <= n + 1)
    &&& forall|j: int, k: int|
        0 <= j < k < positions.len() ==> #[trigger] positions[j]->0 <= #[trigger] positions[k]->0
}

/// `csv::ReaderBuilder::new().flexible(false)` on the text: its `headers`, then
/// its `records` up to the first error. As the `csv` crate documents and its
/// source shows, a reader that is not flexible fails on a record whose length
/// differs from the header's, so every record it returns has the header's
/// length; each record carries the position where the reader began it, whose
/// line (one more than the line feeds read so far) never decreases and is at
/// most one more than the number of characters of the text. Lines can repeat:
/// the reader counts line feeds only, so records ended by a lone carriage
/// return share a line.
#[verifier::external_body]
fn read_records(text: &str) -> (r: Option<CsvRecords>)
    ensures
        r is None ==> spec_csv_records(text@) is None,
        (r matches Some(c) ==> c.positions.len() == c.rows.len()),
        (r matches Some(c) ==> records_shaped(texts_view(c.headers@), rows_view(c.rows@), c.positions@, text@.len())),
        (r matches Some(c) ==> (!text@.contains('\r') ==> lines_from_two(c.positions@))),
        (r matches Some(c) ==> (crlf_only(text@) ==> lines_rising(c.positions@))),
        (r matches Some(c) ==> spec_csv_records(text@) == Some(
            (texts_view(c.headers@), rows_view(c.rows@), c.positions@, c.failure),
        )),
{
    let mut reader = csv::ReaderBuilder::new().flexible(false).from_reader(text.as_bytes());
    let headers = reader.headers().ok()?.iter().map(String::from).collect();
    let mut out = CsvRecords { headers, rows: vec![], positions: vec![], failure: None };
    for record in reader.records() {
        match record {
            Ok(row) => {
                out.positions.push(row.position().map(|p| p.line()));
                out.rows.push(row.iter().map(String::from).collect());
            },
            Err(e) => return Some(CsvRecords { failure: Some(e.position().map(|p| p.line())), ..out }),
        }
    }
    Some(out)
}

/// The line reported for record `i`: the reader's position, else `i + 2`.
pub open spec fn record_line(positions: Seq<Option<u64>>, i: int) -> usize {
    match positions[i] {
        Some(l) => l as usize,
        None => (i + 2) as usize,
    }
}

/// The text `parse_csv` decodes from the bytes, if it can.
pub open spec fn decoded(bytes: Seq<u8>, encoding: Seq<char>) -> Option<Seq<char>> {
    if encoding == "utf-8"@ {
        if valid_utf8(bytes) {
            Some(decode_utf8(bytes))
        } else {
            None
        }
    } else if encoding == "cp932"@ {
        spec_cp932(bytes)
    } else {
        None
    }
}

/// What `parse_csv` returns for the bytes: each error with the inputs that
/// cause it, in the order it checks them, and otherwise the header and rows.
pub open spec fn parse_ok(bytes: Seq<u8>, encoding: Seq<char>, r: Result<ParsedCsv>) -> bool {
    if bytes.len() > 32 * 1024 * 1024 {
        fails_with(r, "CSVは32 MB以内にしてください。"@)
    } else if encoding != "utf-8"@ && encoding != "cp932"@ {
        fails_with(r, "対応していない文字コードです。"@)
    } else if encoding == "utf-8"@ && !valid_utf8(bytes) {
        fails_with(r, "UTF-8で読めません。文字コードを確認してください。"@)
    } else if encoding == "cp932"@ && spec_cp932(bytes) is None {
        fails_with(r, "CP932で読めません。文字コードを確認してください。"@)
    } else {
        let text = without_bom(decoded(bytes, encoding)->0);
        let b = vstd::utf8::encode_utf8(text);
        if quote_error(b) is Some {
            fails_with(r, quote_error(b)->0)
        } else {
            match spec_csv_records(text) {
                None => fails_with(r, "CSVの見出しを読み取れません。"@),
                Some(c) => records_outcome(c, r),
            }
        }
    }
}

/// What the parsed CSV is for the records the reader returned: each error in
/// the order it is checked (too few header fields, a record that failed, no
/// data row), and otherwise the header, the rows and each row's line.
pub open spec fn records_outcome(
    c: (Seq<Seq<char>>, Seq<Seq<Seq<char>>>, Seq<Option<u64>>, Option<Option<u64>>),
    r: Result<ParsedCsv>,
) -> bool {
    if c.0.len() < 2 {
        fails_with(r, "CSVには問題と答えの2列以上が必要です。"@)
    } else if c.3 is Some {
        fails_with(
            r,
            "CSVの"@ + decimal(
                match c.3->0 {
                    Some(l) => l as nat,
                    None => 0,
                },
            ) + "行付近で列数または書式が一致しません。"@,
        )
    } else if c.1.len() == 0 {
        fails_with(r, "CSVにデータ行がありません。"@)
    } else {
        r matches Ok(p) && p@ == ParsedCsvV {
            headers: c.0,
            rows: c.1,
            row_lines: Seq::new(c.1.len(), |i: int| record_line(c.2, i)),
        }
    }
}

/// Decodes the CSV bytes in the named encoding (`utf-8` or `cp932`) and splits
/// them into a header and data rows, each with its line in the file.
pub fn parse_csv(bytes: &[u8], encoding: &str) -> (r: Result<ParsedCsv>)
    ensures
        parse_ok(bytes@, encoding@, r),
        (r matches Ok(p) ==> forall|k: int| 0 <= k < p@.rows.len() ==> (#[trigger] p@.rows[k]).len() == p@.headers.len()),
        (r matches Ok(p) ==> forall|k: int| 0 <= k < p@.row_lines.len() ==> 1 <= #[trigger] p@.row_lines[k]),
        (r matches Ok(p) ==> forall|j: int, k: int|
            0 <= j < k < p@.row_lines.len() ==> #[trigger] p@.row_lines[j] <= #[trigger] p@.row_lines[k]),
        (r matches Ok(p) ==> (!without_bom(decoded(bytes@, encoding@)->0).contains('\r') ==> forall|j: int, k: int|
            0 <= j < k < p@.row_lines.len() ==> 2 <= #[trigger] p@.row_lines[j] < #[trigger] p@.row_lines[k])),
        (r matches Ok(p) ==> (!without_bom(decoded(bytes@, encoding@)->0).contains('\r') ==> forall|k: int|
            0 <= k < p@.row_lines.len() ==> 2 <= #[trigger] p@.row_lines[k])),
        (r matches Ok(p) ==> (crlf_only(without_bom(decoded(bytes@, encoding@)->0)) ==> forall|j: int, k: int|
            0 <= j < k < p@.row_lines.len() ==> #[trigger] p@.row_lines[j] < #[trigger] p@.row_lines[k])),
{
    if bytes.len() > 32 * 1024 * 1024 {
        return Err(invalid("CSVは32 MB以内にしてください。"));
    }
    proof {
        reveal_strlit("utf-8");
        reveal_strlit("cp932");
        assert("utf-8"@[0] != "cp932"@[0]);
        assert("utf-8"@ != "cp932"@);
    }
    let text = if crate::text::text_eq(encoding, "utf-8") {
        match utf8_text(bytes) {
            Some(t) => t,
            None => return Err(invalid("UTF-8で読めません。文字コードを確認してください。")),
        }
    } else if crate::text::text_eq(encoding, "cp932") {
        match cp932_text(bytes) {
            Some(t) => t,
            None => return Err(invalid("CP932で読めません。文字コードを確認してください。")),
        }
    } else {
        return Err(invalid("対応していない文字コードです。"));
    };
    let ghost raw = text@;
    assert(decoded(bytes@, encoding@) == Some(raw));
    let text = strip_bom(text.as_str());
    assert(text@ == without_bom(decoded(bytes@, encoding@)->0));
    assert(text.spec_bytes() == vstd::utf8::encode_utf8(text@));
    match validate_csv_quotes(text) {
        Ok(()) => {},
        Err(e) => {
            return Err(e);
        },
    }
    let rec = match read_records(text) {
        Some(c) => c,
        None => return Err(invalid("CSVの見出しを読み取れません。")),
    };
    let ghost headers = texts_view(rec.headers@);
    let ghost rows = rows_view(rec.rows@);
    let ghost positions = rec.positions@;
    proof {
        lemma_encode_utf8_len(text@);
    }
    let r = parsed_records(rec);
    proof {
        if r is Ok {
            let q = r->Ok_0@;
            assert forall|j: int, k: int| 0 <= j < k < q.row_lines.len() implies #[trigger] q.row_lines[j]
                <= #[trigger] q.row_lines[k] by {
                assert(positions[j] is Some && positions[k] is Some);
                assert(positions[j]->0 <= positions[k]->0);
            }
            assert forall|k: int| 0 <= k < q.row_lines.len() implies 1 <= #[trigger] q.row_lines[k] by {
                assert(positions[k] is Some);
            }
            if crlf_only(text@) {
                assert forall|j: int, k: int| 0 <= j < k < q.row_lines.len() implies #[trigger] q.row_lines[j]
                    < #[trigger] q.row_lines[k] by {
                    assert(positions[j] is Some && positions[k] is Some);
                    assert(positions[j]->0 < positions[k]->0);
                }
            }
            if !text@.contains('\r') {
                assert forall|j: int, k: int| 0 <= j < k < q.row_lines.len() implies 2 <= #[trigger] q.row_lines[j]
                    < #[trigger] q.row_lines[k] by {
                    assert(positions[j] is Some && positions[k] is Some);
                    assert(positions[j]->0 < positions[k]->0);
                }
            }
        }
    }
    r
}

/// The UTF-8 encoding of a text has at least as many bytes as it has characters.
proof fn lemma_encode_utf8_len(s: Seq<char>)
    ensures
        vstd::utf8::encode_utf8(s).len() >= s.len(),
    decreases s.len(),
{
    if s.len() > 0 {
        lemma_encode_utf8_len(s.drop_first());
    }
}

/// The parsed CSV that the reader's records give: the header must have two
/// fields or more, no record may have failed, and there must be a data row;
/// each row's line is the line of its position.
pub fn parsed_records(rec: CsvRecords) -> (r: Result<ParsedCsv>)
    requires
        rec.positions.len() == rec.rows.len(),
    ensures
        records_outcome((texts_view(rec.headers@), rows_view(rec.rows@), rec.positions@, rec.failure), r),
{
    if rec.headers.len() < 2 {
        return Err(invalid("CSVには問題と答えの2列以上が必要です。"));
    }
    match rec.failure {
        Some(at) => {
            let line = match at {
                Some(l) => l,
                None => 0,
            };
            let m = concat(
                concat("CSVの", decimal_u64(line).as_str()).as_str(),
                "行付近で列数または書式が一致しません。",
            );
            return Err(crate::model::Error::Invalid(m));
        },
        None => {},
    }
    if rec.rows.len() == 0 {
        return Err(invalid("CSVにデータ行がありません。"));
    }
    let CsvRecords { headers, rows, positions, .. } = rec;
    let mut row_lines: Vec<usize> = Vec::new();
    let mut i: usize = 0;
    while i < rows.len()
        invariant
            i <= rows.len(),
            positions.len() == rows.len(),
            row_lines.len() == i,
            forall|k: int| 0 <= k < i ==> row_lines@[k] == record_line(positions@, k),
        decreases rows.len() - i,
    {
        let l = match positions[i] {
            Some(l) => #[verifier::truncate] (l as usize),
            None => #[verifier::truncate] ((i as u128 + 2) as usize),
        };
        row_lines.push(l);
        i = i + 1;
    }
    let p = ParsedCsv { headers, rows, row_lines };
    assert(p@.row_lines =~= Seq::new(p.rows@.len(), |i: int| record_line(positions@, i)));
    assert(p@.rows =~= rows_view(p.rows@));
    Ok(p)
}

} // verus!
