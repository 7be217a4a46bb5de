//! Files of hashed rows: a CSV text whose rows end in their own digest.
use crate::csv_rows::{
    csv_rows, finish_rows, is_text_of, new_writer, read_rows, readable,
    record_to_canonical_csv_line, row_view, rows_view, rows_written, same_lengths, unmarked,
    uniform, write_row, RowView,
};
use crate::csv_text::{
    csv_text, fields_view, law_digest_determines_record, law_text_has_every_line, line_bytes,
    line_text, record_digest,
};
use crate::digest::{collide, sha256, sha256_digest, MESSAGE_LIMIT};
use crate::errors::{CsvError, CsvErrorView, ReadHashError, ReadHashErrorView};
use crate::hex_text::{
    decoded, digest_from_hex, digest_hex, hex_text, law_hex_round_trip, lemma_hex_text_bytes,
};
use crate::text::{
    is_white_space, law_trimming_leaves_the_middle, trimmed, trimmed_end, trimmed_start,
};
use crate::tree::{level_count, merkle_root, Node};
use crate::tree_laws::{law_root_binds_leaves, nodes_collide};
use vstd::prelude::*;
use vstd::utf8::encode_utf8;

verus! {

/// SHA-256 is defined for the canonical line of the record.
pub open spec fn hashable(fields: Seq<Seq<char>>) -> bool {
    line_bytes(fields).len() < MESSAGE_LIMIT
}

/// The digest of a row, or why it has none.
pub open spec fn row_digest(row: RowView) -> Result<[u8; 32], CsvErrorView> {
    match row {
        Err(message) => Err(CsvErrorView::Malformed { message }),
        Ok(fields) => if hashable(fields) {
            Ok(record_digest(fields))
        } else {
            Err(CsvErrorView::LineTooLong)
        },
    }
}

/// The record with its digest, in hexadecimal, as one more field.
pub open spec fn hashed_record(fields: Seq<Seq<char>>) -> Seq<Seq<char>> {
    fields.push(hex_text(record_digest(fields)@))
}

/// The digest of a record, if SHA-256 is defined for its canonical line.
pub fn hash_record(record: &Vec<String>) -> (hash: Result<[u8; 32], CsvError>)
    ensures
        match hash {
            Ok(h) => row_digest(Ok(fields_view(record@))) == Ok::<[u8; 32], CsvErrorView>(h),
            Err(e) => row_digest(Ok(fields_view(record@))) == Err::<[u8; 32], CsvErrorView>(e@),
        },
{
    match record_to_canonical_csv_line(record) {
        Ok(line) => {
            if (line.len() as u64) < MESSAGE_LIMIT {
                Ok(sha256(line.as_slice()))
            } else {
                Err(CsvError::LineTooLong)
            }
        },
        Err(_) => {
            // A record on its own is never refused.
            assert(false);
            Err(CsvError::LineTooLong)
        },
    }
}

/// The digest of a row.
fn hash_row(row: &Result<Vec<String>, String>) -> (hash: Result<[u8; 32], CsvError>)
    ensures
        match hash {
            Ok(h) => row_digest(row_view(*row)) == Ok::<[u8; 32], CsvErrorView>(h),
            Err(e) => row_digest(row_view(*row)) == Err::<[u8; 32], CsvErrorView>(e@),
        },
{
    match row {
        Ok(record) => hash_record(record),
        Err(message) => Err(CsvError::Malformed { message: message.clone() }),
    }
}

/// The number of rows before the first one without a digest.
pub open spec fn hashable_rows(rows: Seq<RowView>) -> nat
    decreases rows.len(),
{
    if rows.len() == 0 || row_digest(rows[0]) is Err {
        0
    } else {
        1 + hashable_rows(rows.drop_first())
    }
}

proof fn lemma_hashable_rows(rows: Seq<RowView>, k: nat)
    requires
        k <= rows.len(),
        forall|i: int| 0 <= i < k ==> row_digest(#[trigger] rows[i]) is Ok,
        k < rows.len() ==> row_digest(rows[k as int]) is Err,
    ensures
        hashable_rows(rows) == k,
    decreases k,
{
    if k > 0 {
        let rest = rows.drop_first();
        assert forall|i: int| 0 <= i < k - 1 implies row_digest(#[trigger] rest[i]) is Ok by {
            assert(rest[i] == rows[i + 1]);
        }
        lemma_hashable_rows(rest, (k - 1) as nat);
    }
}

/// The digests of the rows before the first one without a digest.
pub open spec fn leaf_digests(rows: Seq<RowView>) -> Seq<[u8; 32]> {
    Seq::new(hashable_rows(rows), |i: int| record_digest(rows[i]->Ok_0))
}

/// The digests of the nodes.
pub open spec fn node_digests(nodes: Seq<Node>) -> Seq<[u8; 32]> {
    nodes.map_values(|node: Node| node.hash)
}

/// The leaves of the tree over the rows of a CSV text: one for each row, with
/// the digest of its canonical line. Fails on the first row without a digest.
pub fn leaves_from_csv(text: &[u8]) -> (leaves: Result<Vec<Node>, CsvError>)
    ensures
        uniform(csv_rows(text@)),
        are_leaves_of(leaves, csv_rows(text@)),
{
    leaves_from_rows(&read_rows(text))
}

/// `leaves` are the leaves of the tree over `rows`, or tell why the first row
/// without a digest has none.
pub open spec fn are_leaves_of(leaves: Result<Vec<Node>, CsvError>, rows: Seq<RowView>) -> bool {
    let k = hashable_rows(rows);
    &&& k <= rows.len()
    &&& match leaves {
        Ok(nodes) => k == rows.len() && node_digests(nodes@) == leaf_digests(rows),
        Err(e) => k < rows.len() && row_digest(rows[k as int]) == Err::<[u8; 32], CsvErrorView>(
            e@,
        ),
    }
}

/// The leaves of the tree over some rows, or why the first row without a digest
/// has none.
pub fn leaves_from_rows(rows: &Vec<Result<Vec<String>, String>>) -> (leaves: Result<
    Vec<Node>,
    CsvError,
>)
    ensures
        are_leaves_of(leaves, rows_view(rows@)),
{
    let ghost all = rows_view(rows@);
    let mut nodes: Vec<Node> = Vec::new();
    let mut i: usize = 0;
    while i < rows.len()
        invariant
            all == rows_view(rows@),
            i <= rows@.len(),
            nodes@.len() == i,
            forall|j: int|
                0 <= j < i ==> row_digest(#[trigger] all[j]) == Ok::<[u8; 32], CsvErrorView>(
                    nodes@[j].hash,
                ),
        decreases rows@.len() - i,
    {
        assert(all[i as int] == row_view(rows@[i as int]));
        match hash_row(&rows[i]) {
            Ok(hash) => {
                nodes.push(Node { hash });
            },
            Err(e) => {
                proof {
                    lemma_hashable_rows(all, i as nat);
                }
                return Err(e);
            },
        }
        i += 1;
    }
    proof {
        lemma_hashable_rows(all, i as nat);
        assert forall|j: int| 0 <= j < i implies #[trigger] nodes@[j].hash == record_digest(
            all[j]->Ok_0,
        ) by {
            assert(row_digest(all[j]) is Ok);
        }
        assert(node_digests(nodes@) =~= leaf_digests(all));
    }
    Ok(nodes)
}

/// What hashing the rows of a CSV text gives.
#[derive(Clone, Debug)]
pub struct ShaCsv {
    /// The rows up to the first one without a digest, each with its digest as
    /// one more field.
    pub text: Vec<u8>,
    /// Why the first row that is left out has no digest; `None` where no row is
    /// left out.
    pub failure: Option<CsvError>,
}

/// The records of the first `k` rows.
pub open spec fn first_records(rows: Seq<RowView>, k: nat) -> Seq<Seq<Seq<char>>> {
    Seq::new(k, |i: int| rows[i]->Ok_0)
}

/// The first `k` rows, hashed.
pub open spec fn hashed_rows(rows: Seq<RowView>, k: nat) -> Seq<Seq<Seq<char>>> {
    Seq::new(k, |i: int| hashed_record(rows[i]->Ok_0))
}

/// The records, each with the hexadecimal text of a digest as one more field.
pub open spec fn with_digests(
    records: Seq<Seq<Seq<char>>>,
    digests: Seq<[u8; 32]>,
) -> Seq<Seq<Seq<char>>> {
    Seq::new(records.len(), |i: int| records[i].push(hex_text(digests[i]@)))
}

/// `text` has the canonical lines of the records, which have the same number of
/// fields, each with one of the digests as one more field.
pub open spec fn stores(
    text: Seq<u8>,
    records: Seq<Seq<Seq<char>>>,
    digests: Seq<[u8; 32]>,
) -> bool {
    &&& records.len() == digests.len()
    &&& same_lengths(records)
    &&& text == encode_utf8(csv_text(with_digests(records, digests)))
}

/// `hash_col` is the column behind these records, where a digest is stored:
/// none is chosen, or the one whose index is the number of their fields.
pub open spec fn is_digest_column(hash_col: Option<usize>, records: Seq<Seq<Seq<char>>>) -> bool {
    match hash_col {
        None => true,
        Some(c) => forall|i: int| 0 <= i < records.len() ==> (#[trigger] records[i]).len() == c,
    }
}

/// The record with one more field, the hexadecimal text of its digest, if it has
/// a digest.
pub fn with_digest(record: &Vec<String>) -> (hashed: Result<Vec<String>, CsvError>)
    ensures
        match hashed {
            Ok(h) => hashable(fields_view(record@)) && fields_view(h@) == hashed_record(
                fields_view(record@),
            ),
            Err(e) => !hashable(fields_view(record@)) && e@ == CsvErrorView::LineTooLong,
        },
{
    let hash = match hash_record(record) {
        Ok(hash) => hash,
        Err(e) => {
            return Err(e);
        },
    };
    let mut hashed: Vec<String> = Vec::new();
    let mut i: usize = 0;
    while i < record.len()
        invariant
            i <= record@.len(),
            hashed@.len() == i,
            forall|j: int| 0 <= j < i ==> (#[trigger] hashed@[j])@ == record@[j]@,
        decreases record@.len() - i,
    {
        hashed.push(record[i].clone());
        i += 1;
    }
    hashed.push(digest_hex(&hash));
    assert(fields_view(hashed@) =~= hashed_record(fields_view(record@)));
    Ok(hashed)
}

/// `out` holds the rows before the first one without a digest, hashed, and tells
/// why that one has none. Read again, the text gives these rows, but for a byte
/// order mark at its start, with the digests in the last column.
pub open spec fn is_hashed_text(out: ShaCsv, rows: Seq<RowView>) -> bool {
    let k = hashable_rows(rows);
    &&& k <= rows.len()
    &&& out.text@ == encode_utf8(csv_text(hashed_rows(rows, k)))
    &&& match out.failure {
        None => k == rows.len(),
        Some(e) => k < rows.len() && row_digest(rows[k as int]) == Err::<[u8; 32], CsvErrorView>(
            e@,
        ),
    }
    &&& stores(out.text@, first_records(rows, k), leaf_digests(rows))
    &&& csv_rows(out.text@) == readable(unmarked(hashed_rows(rows, k)))
    &&& forall|hash_col: Option<usize>|
        is_digest_column(hash_col, first_records(rows, k)) ==> #[trigger] holds_digests(
            csv_rows(out.text@),
            leaf_digests(rows),
            hash_col,
        )
}

/// The rows of a CSV text with the digest of each as one more field.
pub fn hash_csv(text: &[u8]) -> (out: ShaCsv)
    ensures
        is_hashed_text(out, csv_rows(text@)),
{
    hash_rows(&read_rows(text))
}

/// The text of some rows with the digest of each as one more field.
pub fn hash_rows(rows: &Vec<Result<Vec<String>, String>>) -> (out: ShaCsv)
    requires
        uniform(rows_view(rows@)),
    ensures
        is_hashed_text(out, rows_view(rows@)),
{
    let ghost all = rows_view(rows@);
    let mut writer = new_writer();
    let mut failure: Option<CsvError> = None;
    let mut i: usize = 0;
    assert(rows_written(&writer) =~= hashed_rows(all, 0));
    while i < rows.len() && failure.is_none()
        invariant
            all == rows_view(rows@),
            uniform(all),
            i <= rows@.len(),
            rows_written(&writer) == hashed_rows(all, i as nat),
            same_lengths(rows_written(&writer)),
            forall|j: int| 0 <= j < i ==> row_digest(#[trigger] all[j]) is Ok,
            match failure {
                None => true,
                Some(e) => i < rows@.len() && row_digest(all[i as int]) == Err::<
                    [u8; 32],
                    CsvErrorView,
                >(e@),
            },
        decreases rows@.len() - i, if failure is None { 1int } else { 0int },
    {
        assert(all[i as int] == row_view(rows@[i as int]));
        let result = match &rows[i] {
            Ok(record) => with_digest(record),
            Err(message) => Err(CsvError::Malformed { message: message.clone() }),
        };
        match result {
            Ok(hashed) => {
                proof {
                    lemma_hashed_lengths(all, (i + 1) as nat);
                    assert(rows_written(&writer).push(fields_view(hashed@)) =~= hashed_rows(
                        all,
                        (i + 1) as nat,
                    ));
                }
                match write_row(writer, &hashed) {
                    Ok(w) => {
                        writer = w;
                    },
                    Err(_) => {
                        // Records of one length are never refused.
                        assert(false);
                        return ShaCsv { text: Vec::new(), failure: None };
                    },
                }
                i += 1;
            },
            Err(e) => {
                failure = Some(e);
            },
        }
    }
    let ghost hashed = rows_written(&writer);
    let text = finish_rows(writer);
    proof {
        let k = i as nat;
        lemma_hashable_rows(all, k);
        let records = first_records(all, k);
        assert(is_text_of(text@, hashed));
        assert(hashed =~= with_digests(records, leaf_digests(all)));
        assert forall|a: int, b: int| 0 <= a < k && 0 <= b < k implies (
        #[trigger] records[a]).len() == (#[trigger] records[b]).len() by {
            assert(row_digest(all[a]) is Ok && row_digest(all[b]) is Ok);
        }
        assert forall|hash_col: Option<usize>|
            is_digest_column(hash_col, records) implies #[trigger] holds_digests(
            csv_rows(text@),
            leaf_digests(all),
            hash_col,
        ) by {
            law_appended_digests_are_read(records, leaf_digests(all), hash_col);
        }
    }
    ShaCsv { text, failure }
}

/// Hashed rows have the same number of fields.
proof fn lemma_hashed_lengths(rows: Seq<RowView>, k: nat)
    requires
        uniform(rows),
        k <= rows.len(),
        forall|i: int| 0 <= i < k ==> row_digest(#[trigger] rows[i]) is Ok,
    ensures
        same_lengths(hashed_rows(rows, k)),
{
    let hashed = hashed_rows(rows, k);
    assert forall|i: int, j: int| 0 <= i < k && 0 <= j < k implies (#[trigger] hashed[i]).len() == (
    #[trigger] hashed[j]).len() by {
        assert(row_digest(rows[i]) is Ok && row_digest(rows[j]) is Ok);
    }
}

/// The digest that record number `row` (counted from 1) holds in the chosen
/// column, the last one where none is chosen: 64 hexadecimal digits, white
/// space around them left aside.
pub open spec fn stored_digest(
    row: nat,
    fields: Seq<Seq<char>>,
    hash_col: Option<usize>,
) -> Result<Seq<u8>, ReadHashErrorView> {
    let column = match hash_col {
        Some(c) => c as int,
        None => fields.len() - 1,
    };
    if fields.len() == 0 {
        Err(ReadHashErrorView::EmptyRow { row })
    } else if column >= fields.len() {
        Err(
            ReadHashErrorView::ColumnOutOfRange {
                row,
                columns: fields.len(),
                column: column as nat,
            },
        )
    } else {
        let value = trimmed(fields[column]);
        let bytes = encode_utf8(value);
        if bytes.len() != 64 {
            Err(ReadHashErrorView::WrongLength { row, length: bytes.len() })
        } else {
            match decoded(bytes) {
                Ok(digest) => Ok(digest),
                Err(cause) => Err(ReadHashErrorView::NotHex { row, value, cause }),
            }
        }
    }
}

/// The digest that row `i` (counted from 0) of a text holds.
pub open spec fn stored_in_row(
    rows: Seq<RowView>,
    hash_col: Option<usize>,
    i: int,
) -> Result<Seq<u8>, ReadHashErrorView> {
    match rows[i] {
        Err(message) => Err(ReadHashErrorView::Malformed { message }),
        Ok(fields) => stored_digest((i + 1) as nat, fields, hash_col),
    }
}

/// Row by row, the chosen column holds these digests.
pub open spec fn holds_digests(
    rows: Seq<RowView>,
    digests: Seq<[u8; 32]>,
    hash_col: Option<usize>,
) -> bool {
    &&& rows.len() == digests.len()
    &&& forall|i: int|
        0 <= i < rows.len() ==> #[trigger] stored_in_row(rows, hash_col, i) == Ok::<
            Seq<u8>,
            ReadHashErrorView,
        >(digests[i]@)
}

/// Reads the digest that record number `row` (counted from 1) holds.
pub fn hash_from_record(row: usize, record: &Vec<String>, hash_col: Option<usize>) -> (hash: Result<
    [u8; 32],
    ReadHashError,
>)
    ensures
        match hash {
            Ok(h) => stored_digest(row as nat, fields_view(record@), hash_col) == Ok::<
                Seq<u8>,
                ReadHashErrorView,
            >(h@),
            Err(e) => stored_digest(row as nat, fields_view(record@), hash_col) == Err::<
                Seq<u8>,
                ReadHashErrorView,
            >(e@),
        },
{
    let columns: usize = record.len();
    if columns == 0 {
        return Err(ReadHashError::EmptyRow { row });
    }
    let column: usize = match hash_col {
        Some(c) => c,
        None => columns - 1,
    };
    if column >= columns {
        return Err(ReadHashError::ColumnOutOfRange { row, columns, column });
    }
    let value: &str = record[column].as_str().trim();
    let length: usize = value.as_bytes().len();
    if length != 64 {
        return Err(ReadHashError::WrongLength { row, length });
    }
    match digest_from_hex(value) {
        Ok(hash) => Ok(hash),
        Err(cause) => Err(ReadHashError::NotHex { row, value: value.to_owned(), cause }),
    }
}

/// `hashes` are the digests that `rows` hold, or tell why the first row that
/// holds none does not.
pub open spec fn are_stored_in(
    hashes: Result<Vec<[u8; 32]>, ReadHashError>,
    rows: Seq<RowView>,
    hash_col: Option<usize>,
) -> bool {
    match hashes {
        Ok(v) => v@.len() == rows.len() && forall|i: int|
            0 <= i < v@.len() ==> stored_in_row(rows, hash_col, i) == Ok::<
                Seq<u8>,
                ReadHashErrorView,
            >((#[trigger] v@[i])@),
        Err(e) => exists|k: int|
            0 <= k < rows.len() && #[trigger] stored_in_row(rows, hash_col, k) == Err::<
                Seq<u8>,
                ReadHashErrorView,
            >(e@) && forall|j: int|
                0 <= j < k ==> #[trigger] stored_in_row(rows, hash_col, j) is Ok,
    }
}

/// Reads the digests that the rows of a CSV text hold, from column `hash_col`
/// or, where none is chosen, from the last column of each row. Fails on the
/// first row that does not hold one. Digests that were stored behind some records
/// are read back, whatever the records hold.
pub fn read_hashes_from_sha_csv(text: &[u8], hash_col: Option<usize>) -> (hashes: Result<
    Vec<[u8; 32]>,
    ReadHashError,
>)
    ensures
        are_stored_in(hashes, csv_rows(text@), hash_col),
        forall|records: Seq<Seq<Seq<char>>>, digests: Seq<[u8; 32]>| #[trigger]
            stores(text@, records, digests) && is_digest_column(hash_col, records) ==> (
            hashes matches Ok(v) && v@ == digests),
{
    let hashes = hashes_from_rows(&read_rows(text), hash_col);
    proof {
        assert forall|records: Seq<Seq<Seq<char>>>, digests: Seq<[u8; 32]>| #[trigger]
            stores(text@, records, digests) && is_digest_column(hash_col, records) implies (
        hashes matches Ok(v) && v@ == digests) by {
            assert(is_text_of(text@, with_digests(records, digests)));
            law_appended_digests_are_read(records, digests, hash_col);
            lemma_held_digests_are_read(hashes, csv_rows(text@), digests, hash_col);
        }
    }
    hashes
}

/// What is read from rows that hold some digests are these digests.
proof fn lemma_held_digests_are_read(
    hashes: Result<Vec<[u8; 32]>, ReadHashError>,
    rows: Seq<RowView>,
    digests: Seq<[u8; 32]>,
    hash_col: Option<usize>,
)
    requires
        are_stored_in(hashes, rows, hash_col),
        holds_digests(rows, digests, hash_col),
    ensures
        hashes matches Ok(v) && v@ == digests,
{
    match hashes {
        Ok(v) => {
            lemma_same_digests(rows, digests, v@, hash_col);
        },
        Err(_) => {},
    }
}

proof fn lemma_same_digests(
    rows: Seq<RowView>,
    digests: Seq<[u8; 32]>,
    hashes: Seq<[u8; 32]>,
    hash_col: Option<usize>,
)
    requires
        holds_digests(rows, digests, hash_col),
        hashes.len() == rows.len(),
        forall|i: int|
            0 <= i < hashes.len() ==> stored_in_row(rows, hash_col, i) == Ok::<
                Seq<u8>,
                ReadHashErrorView,
            >((#[trigger] hashes[i])@),
    ensures
        hashes == digests,
{
    assert forall|i: int| 0 <= i < hashes.len() implies #[trigger] hashes[i] == digests[i] by {
        assert(stored_in_row(rows, hash_col, i) == Ok::<Seq<u8>, ReadHashErrorView>(digests[i]@));
        assert(hashes[i]@ == digests[i]@);
        assert forall|j: int| 0 <= j < 32 implies hashes[i][j] == digests[i][j] by {}
        assert(hashes[i] =~= digests[i]);
    }
    assert(hashes =~= digests);
}

/// Reads the digests that some rows hold.
pub fn hashes_from_rows(
    rows: &Vec<Result<Vec<String>, String>>,
    hash_col: Option<usize>,
) -> (hashes: Result<Vec<[u8; 32]>, ReadHashError>)
    ensures
        are_stored_in(hashes, rows_view(rows@), hash_col),
{
    let ghost all = rows_view(rows@);
    let mut out: Vec<[u8; 32]> = Vec::new();
    let mut i: usize = 0;
    while i < rows.len()
        invariant
            all == rows_view(rows@),
            i <= rows@.len(),
            out@.len() == i,
            forall|j: int|
                0 <= j < i ==> stored_in_row(all, hash_col, j) == Ok::<Seq<u8>, ReadHashErrorView>(
                    (#[trigger] out@[j])@,
                ),
        decreases rows@.len() - i,
    {
        let row: usize = i + 1;
        assert(all[i as int] == row_view(rows@[i as int]));
        let result = match &rows[i] {
            Ok(record) => hash_from_record(row, record, hash_col),
            Err(message) => Err(ReadHashError::Malformed { message: message.clone() }),
        };
        match result {
            Ok(hash) => {
                out.push(hash);
            },
            Err(e) => {
                assert(stored_in_row(all, hash_col, i as int) == Err::<
                    Seq<u8>,
                    ReadHashErrorView,
                >(e@));
                assert forall|j: int| 0 <= j < i implies #[trigger] stored_in_row(
                    all,
                    hash_col,
                    j,
                ) is Ok by {
                    assert(out@[j]@ == out@[j]@);
                }
                return Err(e);
            },
        }
        i += 1;
    }
    Ok(out)
}

proof fn lemma_hex_text_trimmed(bytes: Seq<u8>)
    requires
        bytes.len() > 0,
    ensures
        trimmed(hex_text(bytes)) == hex_text(bytes),
{
    let s = hex_text(bytes);
    assert(!is_white_space(s[0]));
    assert(!is_white_space(s.last()));
    assert(trimmed_start(s) == s);
    assert(trimmed_end(s) == s);
}

/// A digest that was stored behind a record is read from there, where none is
/// chosen or the column behind the record is.
pub proof fn law_appended_digest_is_read(
    row: nat,
    fields: Seq<Seq<char>>,
    digest: [u8; 32],
    hash_col: Option<usize>,
)
    requires
        hash_col matches Some(c) ==> c == fields.len(),
    ensures
        stored_digest(row, fields.push(hex_text(digest@)), hash_col) == Ok::<
            Seq<u8>,
            ReadHashErrorView,
        >(digest@),
{
    lemma_hex_text_trimmed(digest@);
    lemma_hex_text_bytes(digest@);
    law_hex_round_trip(digest@);
    assert(fields.push(hex_text(digest@)).last() == hex_text(digest@));
}

/// The digests that were stored behind some records are read from there, and a
/// byte order mark that is dropped at the start of the text takes none away.
pub proof fn law_appended_digests_are_read(
    records: Seq<Seq<Seq<char>>>,
    digests: Seq<[u8; 32]>,
    hash_col: Option<usize>,
)
    requires
        records.len() == digests.len(),
        is_digest_column(hash_col, records),
    ensures
        holds_digests(readable(unmarked(with_digests(records, digests))), digests, hash_col),
{
    let stored = with_digests(records, digests);
    let rows = readable(unmarked(stored));
    if records.len() > 0 {
        assert(stored[0].last().len() == 64);
        if records[0].len() == 0 {
            assert(stored[0][0] == hex_text(digests[0]@));
            assert(stored[0][0][0] != '\u{feff}');
        }
    }
    assert forall|i: int| 0 <= i < rows.len() implies #[trigger] stored_in_row(rows, hash_col, i)
        == Ok::<Seq<u8>, ReadHashErrorView>(digests[i]@) by {
        let hex = hex_text(digests[i]@);
        let read = unmarked(stored)[i];
        let front = read.drop_last();
        assert(read =~= front.push(hex));
        law_appended_digest_is_read((i + 1) as nat, front, digests[i], hash_col);
    }
}

/// The digests that are read from a file of hashed rows are the leaves of the
/// tree over the rows themselves.
pub proof fn law_both_routes_give_the_same_leaves(
    rows: Seq<RowView>,
    hashed: Seq<RowView>,
    hash_col: Option<usize>,
    hashes: Seq<[u8; 32]>,
    nodes: Seq<Node>,
)
    requires
        node_digests(nodes) == leaf_digests(rows),
        holds_digests(hashed, leaf_digests(rows), hash_col),
        hashes.len() == hashed.len(),
        forall|i: int|
            0 <= i < hashes.len() ==> stored_in_row(hashed, hash_col, i) == Ok::<
                Seq<u8>,
                ReadHashErrorView,
            >((#[trigger] hashes[i])@),
    ensures
        hashes == node_digests(nodes),
{
    lemma_same_digests(hashed, leaf_digests(rows), hashes, hash_col);
}

/// Two CSV texts with equally many rows and the same root hold the same records,
/// unless the lines of two rows, or what is hashed for some node of the two
/// trees, is a collision of SHA-256.
pub proof fn law_root_binds_the_records(
    rows1: Seq<RowView>,
    nodes1: Seq<Node>,
    rows2: Seq<RowView>,
    nodes2: Seq<Node>,
)
    requires
        rows1.len() == rows2.len(),
        rows1.len() >= 1,
        uniform(rows1),
        uniform(rows2),
        hashable_rows(rows1) == rows1.len(),
        hashable_rows(rows2) == rows2.len(),
        node_digests(nodes1) == leaf_digests(rows1),
        node_digests(nodes2) == leaf_digests(rows2),
        merkle_root(nodes1) == merkle_root(nodes2),
    ensures
        ({
            ||| rows1 == rows2
            ||| exists|i: int|
                0 <= i < rows1.len() && collide(
                    line_bytes((#[trigger] rows1[i])->Ok_0),
                    line_bytes(rows2[i]->Ok_0),
                )
            ||| exists|l: nat, i: int|
                l < level_count(rows1.len()) && #[trigger] nodes_collide(nodes1, nodes2, l, i)
        }),
{
    let n = rows1.len();
    assert(nodes1.len() == node_digests(nodes1).len());
    assert(nodes2.len() == node_digests(nodes2).len());
    law_root_binds_leaves(nodes1, nodes2);
    let lines_collide = exists|i: int|
        0 <= i < n && collide(
            line_bytes((#[trigger] rows1[i])->Ok_0),
            line_bytes(rows2[i]->Ok_0),
        );
    if nodes1 == nodes2 && !lines_collide {
        lemma_hashable_rows_are_records(rows1);
        lemma_hashable_rows_are_records(rows2);
        assert forall|i: int| 0 <= i < n implies #[trigger] rows1[i] == rows2[i] by {
            assert(rows1[i] is Ok && rows2[i] is Ok);
            assert(node_digests(nodes1)[i] == node_digests(nodes2)[i]);
            law_digest_determines_record(rows1[i]->Ok_0, rows2[i]->Ok_0);
        }
        assert(rows1 =~= rows2);
    }
}

proof fn lemma_hashable_rows_are_records(rows: Seq<RowView>)
    ensures
        hashable_rows(rows) <= rows.len(),
        forall|i: int| 0 <= i < hashable_rows(rows) ==> #[trigger] rows[i] is Ok,
    decreases rows.len(),
{
    if rows.len() > 0 && row_digest(rows[0]) is Ok {
        lemma_hashable_rows_are_records(rows.drop_first());
        assert forall|i: int| 0 <= i < hashable_rows(rows) implies #[trigger] rows[i] is Ok by {
            if i > 0 {
                assert(rows.drop_first()[i - 1] == rows[i]);
            }
        }
    }
}

proof fn lemma_hashable_rows_first_bad(rows: Seq<RowView>)
    ensures
        hashable_rows(rows) <= rows.len(),
        forall|i: int| 0 <= i < hashable_rows(rows) ==> row_digest(#[trigger] rows[i]) is Ok,
        hashable_rows(rows) < rows.len() ==> row_digest(rows[hashable_rows(rows) as int]) is Err,
    decreases rows.len(),
{
    if rows.len() > 0 && row_digest(rows[0]) is Ok {
        let rest = rows.drop_first();
        lemma_hashable_rows_first_bad(rest);
        assert forall|i: int| 0 <= i < hashable_rows(rows) implies row_digest(
            #[trigger] rows[i],
        ) is Ok by {
            if i > 0 {
                assert(rest[i - 1] == rows[i]);
            }
        }
    }
}

/// A record has a digest whenever its line has fewer than `2^61` bytes, whatever
/// and however many its fields are: SHA-256 of the line. The hashed record has all
/// fields of the record and behind them the text of this digest.
pub proof fn law_every_short_record_has_its_digest(fields: Seq<Seq<char>>)
    ensures
        encode_utf8(line_text(fields)).len() < 0x2000_0000_0000_0000 ==> row_digest(Ok(fields))
            == Ok::<[u8; 32], CsvErrorView>(sha256_digest(encode_utf8(line_text(fields)))),
        encode_utf8(line_text(fields)).len() >= 0x2000_0000_0000_0000 ==> row_digest(Ok(fields))
            == Err::<[u8; 32], CsvErrorView>(CsvErrorView::LineTooLong),
        hashable(fields) <==> encode_utf8(line_text(fields)).len() < 0x2000_0000_0000_0000,
        hashed_record(fields).len() == fields.len() + 1,
        forall|j: int| 0 <= j < fields.len() ==> #[trigger] hashed_record(fields)[j] == fields[j],
        hashed_record(fields)[fields.len() as int] == hex_text(
            sha256_digest(encode_utf8(line_text(fields)))@,
        ),
{
}

/// Each row of a CSV text gives one leaf, in the order of the rows: SHA-256 of the
/// canonical line of the row. Only a row that cannot be read, or whose line has
/// `2^61` bytes or more, prevents it; the first such row gives the error.
pub proof fn law_each_row_gives_its_leaf(
    leaves: Result<Vec<Node>, CsvError>,
    rows: Seq<RowView>,
)
    requires
        are_leaves_of(leaves, rows),
    ensures
        (forall|i: int|
            0 <= i < rows.len() ==> (#[trigger] rows[i] matches Ok(fields) && encode_utf8(
                line_text(fields),
            ).len() < 0x2000_0000_0000_0000)) ==> leaves is Ok,
        leaves matches Ok(nodes) ==> nodes@.len() == rows.len() && forall|i: int|
            0 <= i < rows.len() ==> (#[trigger] rows[i] matches Ok(fields) && nodes@[i].hash
                == sha256_digest(encode_utf8(line_text(fields)))),
        leaves matches Err(e) ==> exists|k: int|
            #![trigger rows[k]]
            {
                &&& 0 <= k < rows.len()
                &&& match rows[k] {
                    Err(m) => e matches CsvError::Malformed { message } && message@ == m,
                    Ok(fields) => e is LineTooLong && encode_utf8(line_text(fields)).len()
                        >= 0x2000_0000_0000_0000,
                }
                &&& forall|j: int|
                    0 <= j < k ==> (#[trigger] rows[j] matches Ok(fields) && encode_utf8(
                        line_text(fields),
                    ).len() < 0x2000_0000_0000_0000)
            },
{
    lemma_hashable_rows_first_bad(rows);
    let k = hashable_rows(rows) as int;
    match leaves {
        Ok(nodes) => {
            assert(node_digests(nodes@).len() == nodes@.len());
            assert forall|i: int| 0 <= i < rows.len() implies (#[trigger] rows[i] matches Ok(fields)
                && nodes@[i].hash == sha256_digest(encode_utf8(line_text(fields)))) by {
                assert(row_digest(rows[i]) is Ok);
                assert(node_digests(nodes@)[i] == leaf_digests(rows)[i]);
            }
        },
        Err(e) => {
            assert(row_digest(rows[k]) == Err::<[u8; 32], CsvErrorView>(e@));
            assert forall|j: int| 0 <= j < k implies (#[trigger] rows[j] matches Ok(fields)
                && encode_utf8(line_text(fields)).len() < 0x2000_0000_0000_0000) by {
                assert(row_digest(rows[j]) is Ok);
            }
            match rows[k] {
                Err(m) => {
                    assert(e@ == CsvErrorView::Malformed { message: m });
                },
                Ok(_) => {
                    assert(e@ == CsvErrorView::LineTooLong);
                },
            }
        },
    }
}

/// Each row of a CSV text gives one line of the hashed text, in the order of the
/// rows: all fields of the row, and behind them the hexadecimal text of SHA-256 of
/// its canonical line. Only a row that cannot be read, or whose line has `2^61`
/// bytes or more, stops this; the lines before the first such row are there, and
/// it gives the failure.
pub proof fn law_each_row_is_written_with_its_digest(out: ShaCsv, rows: Seq<RowView>)
    requires
        is_hashed_text(out, rows),
    ensures
        (forall|i: int|
            0 <= i < rows.len() ==> (#[trigger] rows[i] matches Ok(fields) && encode_utf8(
                line_text(fields),
            ).len() < 0x2000_0000_0000_0000)) ==> out.failure is None && out.text@ == encode_utf8(
            Seq::new(
                rows.len(),
                |i: int|
                    line_text(
                        rows[i]->Ok_0.push(
                            hex_text(sha256_digest(encode_utf8(line_text(rows[i]->Ok_0)))@),
                        ),
                    ),
            ).flatten(),
        ),
        out.failure is None ==> forall|i: int|
            0 <= i < rows.len() ==> (#[trigger] rows[i] matches Ok(fields) && encode_utf8(
                line_text(fields),
            ).len() < 0x2000_0000_0000_0000),
        out.failure matches Some(e) ==> exists|k: int|
            #![trigger rows[k]]
            {
                &&& 0 <= k < rows.len()
                &&& match rows[k] {
                    Err(m) => e matches CsvError::Malformed { message } && message@ == m,
                    Ok(fields) => e is LineTooLong && encode_utf8(line_text(fields)).len()
                        >= 0x2000_0000_0000_0000,
                }
                &&& forall|j: int|
                    0 <= j < k ==> (#[trigger] rows[j] matches Ok(fields) && encode_utf8(
                        line_text(fields),
                    ).len() < 0x2000_0000_0000_0000)
                &&& out.text@ == encode_utf8(
                    Seq::new(
                        k as nat,
                        |i: int|
                            line_text(
                                rows[i]->Ok_0.push(
                                    hex_text(
                                        sha256_digest(encode_utf8(line_text(rows[i]->Ok_0)))@,
                                    ),
                                ),
                            ),
                    ).flatten(),
                )
            },
{
    lemma_hashable_rows_first_bad(rows);
    let k = hashable_rows(rows);
    let hashed = hashed_rows(rows, k);
    law_text_has_every_line(hashed);
    assert(Seq::new(hashed.len(), |i: int| line_text(hashed[i])) =~= Seq::new(
        k,
        |i: int|
            line_text(
                rows[i]->Ok_0.push(hex_text(sha256_digest(encode_utf8(line_text(rows[i]->Ok_0)))@)),
            ),
    ));
    assert forall|j: int| 0 <= j < k implies (#[trigger] rows[j] matches Ok(fields) && encode_utf8(
        line_text(fields),
    ).len() < 0x2000_0000_0000_0000) by {
        assert(row_digest(rows[j]) is Ok);
    }
    match out.failure {
        Some(e) => {
            assert(row_digest(rows[k as int]) == Err::<[u8; 32], CsvErrorView>(e@));
            match rows[k as int] {
                Err(m) => {
                    assert(e@ == CsvErrorView::Malformed { message: m });
                },
                Ok(_) => {
                    assert(e@ == CsvErrorView::LineTooLong);
                },
            }
        },
        None => {},
    }
}

/// Only the field of the chosen column decides what a record gives: two records
/// with the same field there give the same, whatever and however many their other
/// fields are. No choice is the choice of the last column.
pub proof fn law_only_the_chosen_column_decides(
    row: nat,
    fields: Seq<Seq<char>>,
    others: Seq<Seq<char>>,
    c: usize,
)
    requires
        c < fields.len(),
        c < others.len(),
        fields[c as int] == others[c as int],
    ensures
        stored_digest(row, fields, Some(c)) == stored_digest(row, others, Some(c)),
        fields.len() == c + 1 ==> stored_digest(row, fields, None) == stored_digest(
            row,
            others,
            Some(c),
        ),
{
}

/// What the chosen column of a record tells: the digest whose hexadecimal text, in
/// either case, stands there with white space around it; otherwise what is wrong
/// with it. A column that the record does not have is told, and so is a record
/// without fields.
pub proof fn law_what_a_column_tells(
    row: nat,
    fields: Seq<Seq<char>>,
    c: usize,
    before: Seq<char>,
    value: Seq<char>,
    after: Seq<char>,
)
    ensures
        fields.len() == 0 ==> stored_digest(row, fields, Some(c)) == Err::<
            Seq<u8>,
            ReadHashErrorView,
        >(ReadHashErrorView::EmptyRow { row }),
        fields.len() == 0 ==> stored_digest(row, fields, None) == Err::<
            Seq<u8>,
            ReadHashErrorView,
        >(ReadHashErrorView::EmptyRow { row }),
        0 < fields.len() <= c ==> stored_digest(row, fields, Some(c)) == Err::<
            Seq<u8>,
            ReadHashErrorView,
        >(
            ReadHashErrorView::ColumnOutOfRange { row, columns: fields.len(), column: c as nat },
        ),
        c < fields.len() && fields[c as int] == before + value + after && (forall|i: int|
            0 <= i < before.len() ==> is_white_space(#[trigger] before[i])) && (forall|i: int|
            0 <= i < after.len() ==> is_white_space(#[trigger] after[i])) && (value.len() > 0
            ==> !is_white_space(value[0]) && !is_white_space(value.last())) ==> {
            let bytes = encode_utf8(value);
            &&& bytes.len() != 64 ==> stored_digest(row, fields, Some(c)) == Err::<
                Seq<u8>,
                ReadHashErrorView,
            >(ReadHashErrorView::WrongLength { row, length: bytes.len() })
            &&& bytes.len() == 64 ==> match decoded(bytes) {
                Ok(digest) => stored_digest(row, fields, Some(c)) == Ok::<
                    Seq<u8>,
                    ReadHashErrorView,
                >(digest),
                Err(cause) => stored_digest(row, fields, Some(c)) == Err::<
                    Seq<u8>,
                    ReadHashErrorView,
                >(ReadHashErrorView::NotHex { row, value, cause }),
            }
            &&& fields.len() == c + 1 ==> stored_digest(row, fields, None) == stored_digest(
                row,
                fields,
                Some(c),
            )
        },
{
    if c < fields.len() && fields[c as int] == before + value + after && (forall|i: int|
        0 <= i < before.len() ==> is_white_space(#[trigger] before[i])) && (forall|i: int|
        0 <= i < after.len() ==> is_white_space(#[trigger] after[i])) && (value.len() > 0
        ==> !is_white_space(value[0]) && !is_white_space(value.last())) {
        law_trimming_leaves_the_middle(before, value, after);
    }
}

/// A digest whose hexadecimal text, with white space around it, stands in the
/// chosen column `c` is read, for every `c` that the record has and whatever its
/// other fields hold; and where none is chosen, in the last column.
pub proof fn law_digest_of_the_chosen_column_is_read(
    row: nat,
    fields: Seq<Seq<char>>,
    c: usize,
    digest: [u8; 32],
    before: Seq<char>,
    after: Seq<char>,
)
    requires
        c < fields.len(),
        fields[c as int] == before + hex_text(digest@) + after,
        forall|i: int| 0 <= i < before.len() ==> is_white_space(#[trigger] before[i]),
        forall|i: int| 0 <= i < after.len() ==> is_white_space(#[trigger] after[i]),
    ensures
        stored_digest(row, fields, Some(c)) == Ok::<Seq<u8>, ReadHashErrorView>(digest@),
        fields.len() == c + 1 ==> stored_digest(row, fields, None) == Ok::<
            Seq<u8>,
            ReadHashErrorView,
        >(digest@),
{
    let hex = hex_text(digest@);
    lemma_hex_text_is_not_white(digest@);
    lemma_hex_text_bytes(digest@);
    law_hex_round_trip(digest@);
    law_what_a_column_tells(row, fields, c, before, hex, after);
}

proof fn lemma_hex_text_is_not_white(bytes: Seq<u8>)
    requires
        bytes.len() > 0,
    ensures
        !is_white_space(hex_text(bytes)[0]),
        !is_white_space(hex_text(bytes).last()),
{
}

/// Reading goes through all rows in their order: it gives one digest for each row,
/// or what is wrong with the first row that gives none.
pub proof fn law_each_row_gives_its_stored_digest(
    hashes: Result<Vec<[u8; 32]>, ReadHashError>,
    rows: Seq<RowView>,
    hash_col: Option<usize>,
)
    requires
        are_stored_in(hashes, rows, hash_col),
    ensures
        hashes matches Ok(v) ==> v@.len() == rows.len() && forall|i: int|
            0 <= i < rows.len() ==> (#[trigger] rows[i] matches Ok(fields) && stored_digest(
                (i + 1) as nat,
                fields,
                hash_col,
            ) == Ok::<Seq<u8>, ReadHashErrorView>(v@[i]@)),
        hashes matches Err(e) ==> exists|k: int|
            #![trigger rows[k]]
            {
                &&& 0 <= k < rows.len()
                &&& match rows[k] {
                    Err(m) => e matches ReadHashError::Malformed { message } && message@ == m,
                    Ok(fields) => stored_digest((k + 1) as nat, fields, hash_col) == Err::<
                        Seq<u8>,
                        ReadHashErrorView,
                    >(e@),
                }
                &&& forall|j: int|
                    0 <= j < k ==> (#[trigger] rows[j] matches Ok(fields) && stored_digest(
                        (j + 1) as nat,
                        fields,
                        hash_col,
                    ) is Ok)
            },
{
    match hashes {
        Ok(v) => {
            assert forall|i: int| 0 <= i < rows.len() implies (#[trigger] rows[i] matches Ok(fields)
                && stored_digest((i + 1) as nat, fields, hash_col) == Ok::<
                Seq<u8>,
                ReadHashErrorView,
            >(v@[i]@)) by {
                assert(v@[i]@ == v@[i]@);
                assert(stored_in_row(rows, hash_col, i) is Ok);
            }
        },
        Err(e) => {
            let k = choose|k: int|
                0 <= k < rows.len() && #[trigger] stored_in_row(rows, hash_col, k) == Err::<
                    Seq<u8>,
                    ReadHashErrorView,
                >(e@) && forall|j: int|
                    0 <= j < k ==> #[trigger] stored_in_row(rows, hash_col, j) is Ok;
            assert forall|j: int| 0 <= j < k implies (#[trigger] rows[j] matches Ok(fields)
                && stored_digest((j + 1) as nat, fields, hash_col) is Ok) by {
                assert(stored_in_row(rows, hash_col, j) is Ok);
            }
            match rows[k] {
                Err(m) => {
                    assert(e@ == ReadHashErrorView::Malformed { message: m });
                },
                Ok(_) => {},
            }
        },
    }
}

/// Where the chosen column of each row holds the hexadecimal text of a digest,
/// reading gives these digests, in the order of the rows.
pub proof fn law_column_of_digests_is_read(
    hashes: Result<Vec<[u8; 32]>, ReadHashError>,
    rows: Seq<RowView>,
    c: usize,
    digests: Seq<[u8; 32]>,
)
    requires
        are_stored_in(hashes, rows, Some(c)),
        rows.len() == digests.len(),
        forall|i: int|
            0 <= i < rows.len() ==> (#[trigger] rows[i] matches Ok(fields) && c < fields.len()
                && fields[c as int] == hex_text(digests[i]@)),
    ensures
        hashes matches Ok(v) && v@ == digests,
{
    assert forall|i: int| 0 <= i < rows.len() implies #[trigger] stored_in_row(rows, Some(c), i)
        == Ok::<Seq<u8>, ReadHashErrorView>(digests[i]@) by {
        let hex = hex_text(digests[i]@);
        assert(rows[i] is Ok);
        assert(seq![] + hex + seq![] =~= hex);
        law_digest_of_the_chosen_column_is_read(
            (i + 1) as nat,
            rows[i]->Ok_0,
            c,
            digests[i],
            seq![],
            seq![],
        );
    }
    lemma_held_digests_are_read(hashes, rows, digests, Some(c));
}

/// Digests are stored behind records where each line of the text has the fields of
/// a record and behind them the hexadecimal text of its digest; and the column
/// behind records of `width` fields is the one with that index.
pub proof fn law_where_digests_are_stored(
    text: Seq<u8>,
    records: Seq<Seq<Seq<char>>>,
    digests: Seq<[u8; 32]>,
    width: usize,
)
    requires
        records.len() == digests.len(),
        forall|i: int| 0 <= i < records.len() ==> (#[trigger] records[i]).len() == width,
        text == encode_utf8(
            Seq::new(
                records.len(),
                |i: int| line_text(records[i].push(hex_text(digests[i]@))),
            ).flatten(),
        ),
    ensures
        stores(text, records, digests),
        is_digest_column(None, records),
        is_digest_column(Some(width), records),
{
    let stored = with_digests(records, digests);
    law_text_has_every_line(stored);
    assert(Seq::new(stored.len(), |i: int| line_text(stored[i])) =~= Seq::new(
        records.len(),
        |i: int| line_text(records[i].push(hex_text(digests[i]@))),
    ));
}

} // verus!
