//! Reading and writing the rows of CSV texts.
use crate::csv_text::{
    csv_text, field_text, fields_view, law_line_has_every_field, law_text_has_every_line,
    line_bytes, line_text, needs_quotes,
};
use vstd::prelude::*;
use vstd::utf8::encode_utf8;

verus! {

/// One item of a CSV text: the fields of a record, or the message that tells
/// why the record cannot be read.
pub type RowView = Result<Seq<Seq<char>>, Seq<char>>;

/// The rows that `csv::Reader` yields for a text, one after the other, when it
/// takes no row for a header.
pub uninterp spec fn csv_rows(text: Seq<u8>) -> Seq<RowView>;

/// The rows that a reader has not yielded yet.
pub uninterp spec fn rows_ahead(reader: &csv::Reader<&[u8]>) -> Seq<RowView>;

/// The records that a writer has written.
pub uninterp spec fn rows_written(writer: &RowWriter) -> Seq<Seq<Seq<char>>>;

/// A row as the library holds it.
pub open spec fn row_view(row: Result<Vec<String>, String>) -> RowView {
    match row {
        Ok(fields) => Ok(fields_view(fields@)),
        Err(message) => Err(message@),
    }
}

/// The rows as the library holds them.
pub open spec fn rows_view(rows: Seq<Result<Vec<String>, String>>) -> Seq<RowView> {
    rows.map_values(|row: Result<Vec<String>, String>| row_view(row))
}

/// All records have the same number of fields.
pub open spec fn same_lengths(rows: Seq<Seq<Seq<char>>>) -> bool {
    forall|i: int, j: int|
        0 <= i < rows.len() && 0 <= j < rows.len() ==> (#[trigger] rows[i]).len() == (
        #[trigger] rows[j]).len()
}

/// All records that can be read have the same number of fields, one at least.
pub open spec fn uniform(rows: Seq<RowView>) -> bool {
    forall|i: int, j: int|
        0 <= i < rows.len() && 0 <= j < rows.len() && rows[i] is Ok && rows[j] is Ok ==> (
        #[trigger] rows[i])->Ok_0.len() == (#[trigger] rows[j])->Ok_0.len() >= 1
}

/// The line of the record starts with the byte order mark of UTF-8: its first
/// field does, and stands there without quotes.
pub open spec fn starts_with_mark(fields: Seq<Seq<char>>) -> bool {
    fields.len() > 0 && !needs_quotes(fields[0]) && fields[0].len() > 0 && fields[0][0]
        == '\u{feff}'
}

/// The records without the byte order mark at the start of their text, if there
/// is one. Where the line of the first record is nothing but the mark, a blank
/// line is left of it, which is no record.
pub open spec fn unmarked(rows: Seq<Seq<Seq<char>>>) -> Seq<Seq<Seq<char>>> {
    if rows.len() == 0 || !starts_with_mark(rows[0]) {
        rows
    } else if rows[0].len() == 1 && rows[0][0].len() == 1 {
        rows.drop_first()
    } else {
        rows.update(0, rows[0].update(0, rows[0][0].drop_first()))
    }
}

/// `text` has the canonical line of each of these records, which have the same
/// number of fields, one at least.
pub open spec fn is_text_of(text: Seq<u8>, rows: Seq<Seq<Seq<char>>>) -> bool {
    &&& same_lengths(rows)
    &&& forall|i: int| 0 <= i < rows.len() ==> (#[trigger] rows[i]).len() >= 1
    &&& text == encode_utf8(csv_text(rows))
}

/// The rows of records that can all be read.
pub open spec fn readable(rows: Seq<Seq<Seq<char>>>) -> Seq<RowView> {
    rows.map_values(|fields: Seq<Seq<char>>| Ok::<Seq<Seq<char>>, Seq<char>>(fields))
}

/// A reader of CSV of the outside crate `csv`.
#[verifier::external_type_specification]
#[verifier::external_body]
#[verifier::reject_recursive_types(R)]
pub struct ExReader<R>(csv::Reader<R>);

/// The error of the outside crate `csv`.
#[verifier::external_type_specification]
#[verifier::external_body]
pub struct ExCsvError(csv::Error);

/// A writer of the outside crate `csv` that collects the text in memory.
#[verifier::external_body]
pub struct RowWriter {
    inner: csv::Writer<Vec<u8>>,
}

/// Calls `csv::ReaderBuilder::from_reader` on a text, without headers. Claimed
/// of the reader: what it yields is a function of the text; and since records of
/// differing lengths are refused, all records that are yielded have equally many
/// fields. A record is never without fields: blank lines are skipped. A text made
/// of canonical lines gives the records of these lines, but for a byte order mark
/// at its start, which is dropped.
#[verifier::external_body]
fn open_rows<'a>(text: &'a [u8]) -> (reader: csv::Reader<&'a [u8]>)
    ensures
        rows_ahead(&reader) == csv_rows(text@),
        uniform(rows_ahead(&reader)),
        forall|rows: Seq<Seq<Seq<char>>>| #[trigger]
            is_text_of(text@, rows) ==> rows_ahead(&reader) == readable(unmarked(rows)),
{
    csv::ReaderBuilder::new().has_headers(false).from_reader(text)
}

/// Calls `next` on `csv::Reader::records`. Claimed of it: the rows ahead come
/// one by one, and then nothing.
#[verifier::external_body]
fn next_row(reader: &mut csv::Reader<&[u8]>) -> (row: Option<
    Result<Vec<String>, String>,
>)
    ensures
        match row {
            Some(r) => rows_ahead(old(reader)).len() > 0 && row_view(r) == rows_ahead(
                old(reader),
            )[0] && rows_ahead(final(reader)) == rows_ahead(old(reader)).drop_first(),
            None => rows_ahead(old(reader)).len() == 0 && rows_ahead(final(reader)).len() == 0,
        },
{
    let row = reader.records().next()?;
    Some(row.map(|r| r.iter().map(String::from).collect()).map_err(|e| e.to_string()))
}

/// The rows of a CSV text, of which none counts as a header. A text made of the
/// canonical lines of some records gives these records, but for a byte order mark
/// at its start.
pub fn read_rows(text: &[u8]) -> (rows: Vec<Result<Vec<String>, String>>)
    ensures
        rows_view(rows@) == csv_rows(text@),
        uniform(rows_view(rows@)),
        forall|records: Seq<Seq<Seq<char>>>| #[trigger]
            is_text_of(text@, records) ==> rows_view(rows@) == readable(unmarked(records)),
{
    let ghost all = csv_rows(text@);
    let mut reader = open_rows(text);
    let mut rows: Vec<Result<Vec<String>, String>> = Vec::new();
    loop
        invariant
            all == csv_rows(text@),
            uniform(all),
            forall|records: Seq<Seq<Seq<char>>>| #[trigger]
                is_text_of(text@, records) ==> all == readable(unmarked(records)),
            rows@.len() <= all.len(),
            rows_view(rows@) == all.take(rows@.len() as int),
            rows_ahead(&reader) == all.skip(rows@.len() as int),
        decreases all.len() - rows@.len(),
    {
        let ghost k = rows@.len() as int;
        let ghost before = rows@;
        match next_row(&mut reader) {
            Some(row) => {
                assert(all.skip(k)[0] == all[k]);
                rows.push(row);
                assert(rows_view(rows@) =~= rows_view(before).push(row_view(row)));
                assert(all.take(k + 1) =~= all.take(k).push(all[k]));
                assert(all.skip(k).drop_first() =~= all.skip(k + 1));
            },
            None => {
                assert(all.take(k) =~= all);
                return rows;
            },
        }
    }
}

/// Calls `csv::WriterBuilder::from_writer` on an empty vector, without headers.
#[verifier::external_body]
pub(crate) fn new_writer() -> (writer: RowWriter)
    ensures
        rows_written(&writer).len() == 0,
{
    RowWriter { inner: csv::WriterBuilder::new().has_headers(false).from_writer(Vec::new()) }
}

/// Calls `csv::Writer::write_record`. Claimed of it: the record is written
/// where it has as many fields as those before it, and refused otherwise.
#[verifier::external_body]
pub(crate) fn write_row(writer: RowWriter, fields: &Vec<String>) -> (res: Result<
    RowWriter,
    csv::Error,
>)
    ensures
        match res {
            Ok(w) => rows_written(&w) == rows_written(&writer).push(fields_view(fields@))
                && same_lengths(rows_written(&w)),
            Err(_) => !same_lengths(rows_written(&writer).push(fields_view(fields@))),
        },
{
    let mut writer = writer;
    writer.inner.write_record(fields)?;
    Ok(writer)
}

/// Calls `csv::Writer::into_inner`. Claimed of it: the text has one canonical
/// line for each record, in UTF-8. Read again it gives the same records, where
/// each has a field, but for a byte order mark at its start, which is dropped.
#[verifier::external_body]
pub(crate) fn finish_rows(writer: RowWriter) -> (text: Vec<u8>)
    requires
        same_lengths(rows_written(&writer)),
    ensures
        text@ == encode_utf8(csv_text(rows_written(&writer))),
        is_text_of(text@, rows_written(&writer)) ==> csv_rows(text@) == readable(
            unmarked(rows_written(&writer)),
        ),
{
    writer.inner.into_inner().unwrap()
}

/// The canonical line of a record: the fields with commas between them, in
/// quotes where a field needs them, and a newline at the end. It can be written
/// for every record. Read as a CSV text it gives the record back, where the
/// record has a field, but for a byte order mark at its start.
pub fn record_to_canonical_csv_line(record: &Vec<String>) -> (line: Result<Vec<u8>, csv::Error>)
    ensures
        line matches Ok(bytes) && {
            let fields = fields_view(record@);
            &&& bytes@ == line_bytes(fields)
            &&& fields.len() >= 1 ==> csv_rows(bytes@) == readable(unmarked(seq![fields]))
            &&& fields.len() >= 1 && !starts_with_mark(fields) ==> csv_rows(bytes@) == seq![
                Ok::<Seq<Seq<char>>, Seq<char>>(fields),
            ]
        },
{
    let writer = new_writer();
    let ghost before = rows_written(&writer);
    let ghost fields = fields_view(record@);
    match write_row(writer, record) {
        Ok(w) => {
            let line = finish_rows(w);
            proof {
                assert(rows_written(&w) =~= seq![fields]);
                reveal_with_fuel(csv_text, 2);
                assert(csv_text(rows_written(&w)) =~= line_text(fields));
                assert(readable(seq![fields]) =~= seq![Ok::<Seq<Seq<char>>, Seq<char>>(fields)]);
                assert(fields.len() >= 1 ==> is_text_of(line@, seq![fields]));
            }
            Ok(line)
        },
        Err(e) => {
            assert(same_lengths(before.push(fields)));
            Err(e)
        },
    }
}

/// A row is the texts of its fields, or the message of its error; rows stand in
/// their order.
pub proof fn law_rows_are_the_texts(rows: Seq<Result<Vec<String>, String>>)
    ensures
        rows_view(rows).len() == rows.len(),
        forall|i: int|
            0 <= i < rows.len() ==> match #[trigger] rows[i] {
                Ok(fields) => rows_view(rows)[i] matches Ok(texts) && texts == Seq::new(
                    fields@.len(),
                    |j: int| fields@[j]@,
                ),
                Err(message) => rows_view(rows)[i] == Err::<Seq<Seq<char>>, Seq<char>>(message@),
            },
{
    assert forall|i: int| 0 <= i < rows.len() implies match #[trigger] rows[i] {
        Ok(fields) => rows_view(rows)[i] matches Ok(texts) && texts == Seq::new(
            fields@.len(),
            |j: int| fields@[j]@,
        ),
        Err(message) => rows_view(rows)[i] == Err::<Seq<Seq<char>>, Seq<char>>(message@),
    } by {
        match rows[i] {
            Ok(fields) => {
                assert(fields_view(fields@) =~= Seq::new(fields@.len(), |j: int| fields@[j]@));
            },
            Err(_) => {},
        }
    }
}

/// Rows are uniform where any two that can be read have equally many fields, and
/// one has at least one.
pub proof fn law_uniform_rows_have_one_width(rows: Seq<RowView>, width: nat)
    requires
        width >= 1,
        forall|i: int|
            0 <= i < rows.len() ==> (#[trigger] rows[i] matches Ok(fields) ==> fields.len()
                == width),
    ensures
        uniform(rows),
{
}

/// Records of one width, whose text does not start with a byte order mark, are
/// read back as they are, all of them and in their order.
pub proof fn law_records_are_read_back(rows: Seq<Seq<Seq<char>>>, text: Seq<u8>, width: nat)
    requires
        width >= 1,
        forall|i: int| 0 <= i < rows.len() ==> (#[trigger] rows[i]).len() == width,
        rows.len() > 0 ==> csv_text(rows)[0] != '\u{feff}',
        text == encode_utf8(csv_text(rows)),
    ensures
        is_text_of(text, rows),
        readable(unmarked(rows)).len() == rows.len(),
        forall|i: int|
            0 <= i < rows.len() ==> #[trigger] readable(unmarked(rows))[i] == Ok::<
                Seq<Seq<char>>,
                Seq<char>,
            >(rows[i]),
{
    if rows.len() > 0 && starts_with_mark(rows[0]) {
        let lines = Seq::new(rows.len(), |i: int| line_text(rows[i]));
        law_text_has_every_line(rows);
        law_line_has_every_field(rows[0]);
        assert(lines[0][0] == '\u{feff}');
        assert(lines.flatten()[0] == lines[0][0]);
    }
}

/// Where the text of the records starts with a byte order mark, the first field
/// is read back without it, and every other field as it is. A first line that is
/// the mark alone is not read back; the records behind it are.
pub proof fn law_only_the_mark_is_lost(rows: Seq<Seq<Seq<char>>>)
    requires
        rows.len() > 0,
        rows[0].len() >= 1,
        csv_text(rows)[0] == '\u{feff}',
    ensures
        rows[0][0].len() >= 1,
        rows[0][0][0] == '\u{feff}',
        rows[0].len() == 1 && rows[0][0].len() == 1 ==> unmarked(rows) == rows.skip(1),
        rows[0].len() > 1 || rows[0][0].len() > 1 ==> {
            &&& unmarked(rows).len() == rows.len()
            &&& unmarked(rows).skip(1) == rows.skip(1)
            &&& unmarked(rows)[0].len() == rows[0].len()
            &&& unmarked(rows)[0].skip(1) == rows[0].skip(1)
            &&& unmarked(rows)[0][0] == rows[0][0].skip(1)
        },
{
    let lines = Seq::new(rows.len(), |i: int| line_text(rows[i]));
    law_text_has_every_line(rows);
    law_line_has_every_field(rows[0]);
    assert(lines[0].len() >= 1);
    assert(lines.flatten()[0] == lines[0][0]);
    assert(lines[0][0] == '\u{feff}');
    let first = field_text(rows[0][0]);
    let others = Seq::new(
        (rows[0].len() - 1) as nat,
        |i: int| seq![','] + field_text(rows[0][i + 1]),
    );
    if first.len() == 0 && rows[0].len() > 1 {
        assert(others.flatten()[0] == others[0][0]);
        assert(lines[0][0] == ',');
    }
    assert(starts_with_mark(rows[0]));
    assert(rows.skip(1) =~= rows.drop_first());
    assert(unmarked(rows).skip(1) =~= rows.skip(1) || rows[0].len() == 1 && rows[0][0].len() == 1);
    assert(rows[0][0].skip(1) =~= rows[0][0].drop_first());
    if rows[0].len() > 1 || rows[0][0].len() > 1 {
        assert(unmarked(rows)[0].skip(1) =~= rows[0].skip(1));
    }
}

} // verus!
