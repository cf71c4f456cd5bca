//! Reading and writing the power file: the optional sentinel line, the header
//! line, and one CSV record per power.
use vstd::prelude::*;
use crate::power::{
    decode_row, encode_row, lemma_decoded_row_ok, lemma_row_round_trip, record_ok, Cell, Power,
};
use crate::schema::{COLUMN_HEADER, SENTINEL};
use crate::text::text_equals;

verus! {

/// Message of the error that saving reports when the CSV writer refuses a record.
pub const ENCODE_ERROR: &'static str = "Error: a power record could not be written as CSV";

/// What the CSV reader yields for a text whose first line is the header:
/// for each later record its fields, or `None` where the reader reports an error.
pub uninterp spec fn csv_records(text: Seq<char>) -> Seq<Option<Seq<Seq<char>>>>;

/// The text the CSV writer produces for one record, with its line terminator.
pub uninterp spec fn csv_record_line(fields: Seq<Seq<char>>) -> Option<Seq<char>>;

pub open spec fn rows_view(rows: Seq<Option<Vec<String>>>) -> Seq<Option<Seq<Seq<char>>>> {
    rows.map_values(
        |r: Option<Vec<String>>|
            match r {
                Some(v) => Some(v.deep_view()),
                None => None,
            },
    )
}

pub open spec fn powers_view(ps: Seq<Power>) -> Seq<Seq<Cell>> {
    ps.map_values(|p: Power| p@)
}

/// Relies on `csv::Reader` with `has_headers(true)` over the text's bytes:
/// each record after the header, as its fields, or `None` for a record the
/// reader reports an error on (such as a wrong number of fields).
#[verifier::external_body]
fn read_csv_records(text: &str) -> (r: Vec<Option<Vec<String>>>)
    ensures
        rows_view(r@) == csv_records(text@),
{
    let mut reader = csv::ReaderBuilder::new().has_headers(true).from_reader(text.as_bytes());
    let mut rows = Vec::new();
    for record in reader.records() {
        rows.push(record.ok().map(|fields| fields.iter().map(String::from).collect()));
    }
    rows
}

/// Relies on `csv::Writer` with `has_headers(false)` and its default `\n`
/// terminator: the bytes written for one record, or `None` where the writer
/// reports an error.
#[verifier::external_body]
fn write_csv_record(fields: &Vec<String>) -> (r: Option<String>)
    ensures
        match r {
            Some(s) => csv_record_line(fields.deep_view()) == Some(s@),
            None => csv_record_line(fields.deep_view()) is None,
        },
{
    let mut writer = csv::WriterBuilder::new().has_headers(false).from_writer(Vec::new());
    if writer.write_record(fields).is_err() {
        return None;
    }
    match writer.into_inner() {
        Ok(bytes) => String::from_utf8(bytes).ok(),
        Err(_) => None,
    }
}

/// The text after a first line that is exactly the sentinel (a `\r` before
/// its newline allowed); `None` when the first line is something else.
pub open spec fn after_sentinel(t: Seq<char>) -> Option<Seq<char>> {
    let n = SENTINEL@.len() as int;
    if t.len() >= n && t.subrange(0, n) == SENTINEL@ {
        let rest = t.skip(n);
        if rest.len() == 0 || rest == seq!['\r'] {
            Some(Seq::empty())
        } else if rest[0] == '\n' {
            Some(rest.skip(1))
        } else if rest.len() >= 2 && rest[0] == '\r' && rest[1] == '\n' {
            Some(rest.skip(2))
        } else {
            None
        }
    } else {
        None
    }
}

/// The table part of a file: the file without its sentinel line, if it has one.
pub open spec fn table_text(t: Seq<char>) -> Seq<char> {
    match after_sentinel(t) {
        Some(rest) => rest,
        None => t,
    }
}

/// The records of a sequence of rows, in order, leaving out the rows the
/// reader rejected and those that do not decode.
pub open spec fn decoded_list(rows: Seq<Option<Seq<Seq<char>>>>) -> Seq<Seq<Cell>>
    decreases rows.len(),
{
    if rows.len() == 0 {
        Seq::empty()
    } else {
        let init = decoded_list(rows.drop_last());
        match rows.last() {
            Some(r) => match decode_row(r) {
                Some(p) => init.push(p),
                None => init,
            },
            None => init,
        }
    }
}

/// Whether a row the reader produced decodes to a record.
pub open spec fn row_ok(row: Option<Seq<Seq<char>>>) -> bool {
    row matches Some(r) && decode_row(r) is Some
}

/// The records a file holds.
pub open spec fn load_records(t: Seq<char>) -> Seq<Seq<Cell>> {
    decoded_list(csv_records(table_text(t)))
}

/// The CSV text of a sequence of records, if the writer takes each of them.
pub open spec fn records_text(ps: Seq<Seq<Cell>>) -> Option<Seq<char>>
    decreases ps.len(),
{
    if ps.len() == 0 {
        Some(Seq::empty())
    } else {
        match (records_text(ps.drop_last()), csv_record_line(encode_row(ps.last()))) {
            (Some(a), Some(b)) => Some(a + b),
            _ => None,
        }
    }
}

/// The two header lines a saved file starts with.
pub open spec fn file_head() -> Seq<char> {
    SENTINEL@ + seq!['\n'] + COLUMN_HEADER@ + seq!['\n']
}

/// The whole text of a saved file, if the writer takes every record.
pub open spec fn file_text(ps: Seq<Seq<Cell>>) -> Option<Seq<char>> {
    match records_text(ps) {
        Some(body) => Some(file_head() + body),
        None => None,
    }
}

/// The table part of a file: drops a first line that is the sentinel.
pub fn strip_sentinel(text: &str) -> (r: &str)
    ensures
        r@ == table_text(text@),
{
    let len = text.unicode_len();
    let n = SENTINEL.unicode_len();
    if len < n || !text_equals(text.substring_char(0, n), SENTINEL) {
        return text;
    }
    let ghost rest = text@.skip(n as int);
    if len == n {
        assert(rest =~= Seq::<char>::empty());
        return text.substring_char(len, len);
    }
    let c0 = text.get_char(n);
    assert(rest[0] == c0);
    if c0 == '\n' {
        assert(text@.subrange(n + 1, len as int) =~= rest.skip(1));
        return text.substring_char(n + 1, len);
    }
    if c0 == '\r' {
        if len == n + 1 {
            assert(rest =~= seq!['\r']);
            return text.substring_char(len, len);
        }
        let c1 = text.get_char(n + 1);
        assert(rest[1] == c1);
        if c1 == '\n' {
            assert(text@.subrange(n + 2, len as int) =~= rest.skip(2));
            return text.substring_char(n + 2, len);
        }
        assert(rest.len() != 1);
        return text;
    }
    assert(rest.len() != 1 || rest[0] != '\r');
    text
}

/// Decodes the rows the CSV reader produced, in order, skipping rows the
/// reader rejected and rows with a column that does not decode as its kind.
pub fn decode_rows(rows: &Vec<Option<Vec<String>>>) -> (r: Vec<Power>)
    ensures
        powers_view(r@) == decoded_list(rows_view(rows@)),
{
    let mut out: Vec<Power> = Vec::new();
    let mut i: usize = 0;
    while i < rows.len()
        invariant
            i <= rows@.len(),
            powers_view(out@) == decoded_list(rows_view(rows@.subrange(0, i as int))),
        decreases rows@.len() - i,
    {
        let ghost before = out@;
        proof {
            assert(rows_view(rows@.subrange(0, i + 1)).drop_last() =~= rows_view(
                rows@.subrange(0, i as int),
            ));
        }
        match &rows[i] {
            Some(fields) => {
                match Power::from_row(fields) {
                    Some(p) => {
                        out.push(p);
                        assert(powers_view(out@) =~= powers_view(before).push(out@.last()@));
                    },
                    None => {},
                }
            },
            None => {},
        }
        i = i + 1;
    }
    assert(rows@.subrange(0, rows@.len() as int) =~= rows@);
    out
}

/// A copy of a list of records.
pub fn copy_powers(list: &Vec<Power>) -> (r: Vec<Power>)
    ensures
        powers_view(r@) == powers_view(list@),
{
    let mut out: Vec<Power> = Vec::new();
    let mut i: usize = 0;
    while i < list.len()
        invariant
            i <= list@.len(),
            out@.len() == i,
            forall|j: int| 0 <= j < i ==> (#[trigger] out@[j])@ == list@[j]@,
        decreases list@.len() - i,
    {
        out.push(list[i].duplicate());
        i = i + 1;
    }
    assert(powers_view(out@) =~= powers_view(list@));
    out
}

/// The records of a power file's text, in file order, and how many rows were
/// skipped. The sentinel line is dropped if present, the next line is the
/// header, and rows the reader rejects or that do not decode are skipped.
pub fn parse_power_file(text: &str) -> (r: (Vec<Power>, usize))
    ensures
        powers_view(r.0@) == load_records(text@),
        r.1 == csv_records(table_text(text@)).len() - load_records(text@).len(),
        forall|i: int| 0 <= i < r.0@.len() ==> (#[trigger] r.0@[i]).wf(),
{
    let table = strip_sentinel(text);
    let rows = read_csv_records(table);
    let powers = decode_rows(&rows);
    proof {
        lemma_decoded_len(rows_view(rows@));
        lemma_decoded_rows_ok(rows_view(rows@));
        assert forall|i: int| 0 <= i < powers@.len() implies (#[trigger] powers@[i]).wf() by {
            assert(powers_view(powers@)[i] == powers@[i]@);
        }
    }
    let skipped = rows.len() - powers.len();
    (powers, skipped)
}

/// A load never yields more records than the reader produced rows.
pub proof fn lemma_decoded_len(rows: Seq<Option<Seq<Seq<char>>>>)
    ensures
        decoded_list(rows).len() <= rows.len(),
    decreases rows.len(),
{
    if rows.len() > 0 {
        lemma_decoded_len(rows.drop_last());
    }
}

/// The text of a power file holding `list`: the sentinel line, the header
/// line, then one canonical CSV record per power, in order.
pub fn render_power_file(list: &Vec<Power>) -> (r: Result<String, String>)
    ensures
        match r {
            Ok(s) => file_text(powers_view(list@)) == Some(s@),
            Err(e) => file_text(powers_view(list@)) is None && e@ == ENCODE_ERROR@,
        },
{
    let mut out = String::from_str(SENTINEL);
    out.append("\n");
    out.append(COLUMN_HEADER);
    out.append("\n");
    proof {
        reveal_strlit("\n");
        assert(out@ =~= file_head());
    }
    let mut i: usize = 0;
    while i < list.len()
        invariant
            i <= list@.len(),
            records_text(powers_view(list@.subrange(0, i as int))) is Some,
            out@ == file_head() + records_text(powers_view(list@.subrange(0, i as int)))->0,
        decreases list@.len() - i,
    {
        let ghost done = powers_view(list@.subrange(0, i as int));
        let ghost next = powers_view(list@.subrange(0, i + 1));
        proof {
            assert(next.drop_last() =~= done);
            assert(next.last() == list@[i as int]@);
        }
        let row = list[i].to_row();
        match write_csv_record(&row) {
            Some(line) => {
                out.append(line.as_str());
                assert(out@ =~= file_head() + records_text(next)->0);
            },
            None => {
                proof {
                    lemma_failed_prefix(powers_view(list@), i as int + 1);
                    assert(powers_view(list@).subrange(0, i + 1) =~= next);
                }
                return Err(String::from_str(ENCODE_ERROR));
            },
        }
        i = i + 1;
    }
    assert(powers_view(list@.subrange(0, list@.len() as int)) =~= powers_view(list@));
    Ok(out)
}

/// Once a prefix of the records cannot be written, the whole sequence cannot.
proof fn lemma_failed_prefix(ps: Seq<Seq<Cell>>, k: int)
    requires
        0 <= k <= ps.len(),
        records_text(ps.subrange(0, k)) is None,
    ensures
        records_text(ps) is None,
    decreases ps.len() - k,
{
    if k < ps.len() {
        assert(ps.subrange(0, k + 1).drop_last() =~= ps.subrange(0, k));
        lemma_failed_prefix(ps, k + 1);
    } else {
        assert(ps.subrange(0, k) =~= ps);
    }
}

/// Every record a load yields is a well-formed record of the layout.
pub proof fn lemma_decoded_rows_ok(rows: Seq<Option<Seq<Seq<char>>>>)
    ensures
        forall|i: int| 0 <= i < decoded_list(rows).len() ==> record_ok(#[trigger] decoded_list(rows)[i]),
    decreases rows.len(),
{
    if rows.len() > 0 {
        lemma_decoded_rows_ok(rows.drop_last());
        let init = decoded_list(rows.drop_last());
        if let Some(r) = rows.last() {
            if let Some(p) = decode_row(r) {
                lemma_decoded_row_ok(r);
                assert forall|i: int| 0 <= i < decoded_list(rows).len() implies record_ok(
                    #[trigger] decoded_list(rows)[i],
                ) by {
                    if i < init.len() {
                        assert(decoded_list(rows)[i] == init[i]);
                    }
                }
            }
        }
    }
}

/// Saving then loading gives back the records: reading the canonical rows
/// written for well-formed records decodes to exactly those records, in order.
pub proof fn lemma_save_load_round_trip(ps: Seq<Seq<Cell>>)
    requires
        forall|i: int| 0 <= i < ps.len() ==> record_ok(#[trigger] ps[i]),
    ensures
        decoded_list(ps.map_values(|p: Seq<Cell>| Some(encode_row(p)))) == ps,
    decreases ps.len(),
{
    let rows = ps.map_values(|p: Seq<Cell>| Some(encode_row(p)));
    if ps.len() > 0 {
        let init = ps.drop_last();
        lemma_save_load_round_trip(init);
        assert(rows.drop_last() =~= init.map_values(|p: Seq<Cell>| Some(encode_row(p))));
        lemma_row_round_trip(ps.last());
        assert(decoded_list(rows) =~= ps);
    } else {
        assert(decoded_list(rows) =~= ps);
    }
}

/// A saved file, once its sentinel line is dropped, is the header line
/// followed by the records' CSV text: what the loader reads back.
pub proof fn lemma_saved_file_table(body: Seq<char>)
    ensures
        table_text(file_head() + body) == COLUMN_HEADER@ + seq!['\n'] + body,
{
    let t = file_head() + body;
    let n = SENTINEL@.len() as int;
    assert(t.subrange(0, n) =~= SENTINEL@);
    assert(t.skip(n) =~= seq!['\n'] + (COLUMN_HEADER@ + seq!['\n'] + body));
    assert(t.skip(n)[0] == '\n');
    assert(t.skip(n) != seq!['\r']) by {
        assert(seq!['\r'][0] == '\r');
    }
    assert(t.skip(n).skip(1) =~= COLUMN_HEADER@ + seq!['\n'] + body);
}

/// A file whose first line is the sentinel loads as the same file without
/// that line (when the remaining text does not itself start with one).
pub proof fn lemma_sentinel_line_ignored(rest: Seq<char>)
    requires
        after_sentinel(rest) is None,
    ensures
        load_records(SENTINEL@ + seq!['\n'] + rest) == load_records(rest),
{
    let t = SENTINEL@ + seq!['\n'] + rest;
    let n = SENTINEL@.len() as int;
    assert(t.subrange(0, n) =~= SENTINEL@);
    assert(t.skip(n) =~= seq!['\n'] + rest);
    assert(t.skip(n)[0] == '\n');
    assert(t.skip(n) != seq!['\r']) by {
        assert(seq!['\r'][0] == '\r');
    }
    assert(t.skip(n).skip(1) =~= rest);
}

/// A row that the reader rejected or that does not decode is skipped: the
/// load yields what it yields without that row, and does not stop there.
pub proof fn lemma_bad_row_skipped(rows: Seq<Option<Seq<Seq<char>>>>, i: int)
    requires
        0 <= i < rows.len(),
        !row_ok(rows[i]),
    ensures
        decoded_list(rows) == decoded_list(rows.remove(i)),
    decreases rows.len(),
{
    if i == rows.len() - 1 {
        assert(rows.remove(i) =~= rows.drop_last());
    } else {
        lemma_bad_row_skipped(rows.drop_last(), i);
        assert(rows.remove(i).drop_last() =~= rows.drop_last().remove(i));
        assert(rows.remove(i).last() == rows.last());
    }
}

/// Rows that all decode load as one record each.
pub proof fn lemma_good_rows_count(rows: Seq<Option<Seq<Seq<char>>>>)
    requires
        forall|j: int| 0 <= j < rows.len() ==> row_ok(#[trigger] rows[j]),
    ensures
        decoded_list(rows).len() == rows.len(),
    decreases rows.len(),
{
    if rows.len() > 0 {
        assert(row_ok(rows[rows.len() - 1]));
        lemma_good_rows_count(rows.drop_last());
    }
}

/// Among N rows of which exactly one is malformed, a load yields N - 1 records.
pub proof fn lemma_one_bad_row(rows: Seq<Option<Seq<Seq<char>>>>, i: int)
    requires
        0 <= i < rows.len(),
        !row_ok(rows[i]),
        forall|j: int| 0 <= j < rows.len() && j != i ==> row_ok(#[trigger] rows[j]),
    ensures
        decoded_list(rows).len() == rows.len() - 1,
{
    lemma_bad_row_skipped(rows, i);
    let rest = rows.remove(i);
    assert forall|j: int| 0 <= j < rest.len() implies row_ok(#[trigger] rest[j]) by {
        if j < i {
            assert(rest[j] == rows[j]);
        } else {
            assert(rest[j] == rows[j + 1]);
        }
    }
    lemma_good_rows_count(rest);
}

} // verus!
