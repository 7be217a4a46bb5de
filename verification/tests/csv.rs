use csv_verify::csv_rows::read_rows;
use csv_verify::errors::{CsvError, ReadHashError};
use csv_verify::hex_text::{digest_hex, HexError};
use csv_verify::sha_csv::{
    hash_from_record, hash_record, hash_rows, hashes_from_rows, leaves_from_rows, with_digest,
};
use csv_verify::{
    hash_csv, leaves_from_csv, read_hashes_from_sha_csv, record_to_canonical_csv_line, sha256,
};

fn record(fields: &[&str]) -> Vec<String> {
    fields.iter().map(|f| f.to_string()).collect()
}

fn line(fields: &[&str]) -> String {
    let bytes = record_to_canonical_csv_line(&record(fields)).unwrap();
    String::from_utf8(bytes).unwrap()
}

const SAMPLE: &str = "id,name\n1,\"Ada, Countess\"\n2,\"says \"\"hi\"\"\"\n3,\"two\nlines\"\n,\n";

const SAMPLE_DIGESTS: [&str; 5] = [
    "40d6bfdc74eae2ed68a97137ce414fa4ca6de1b3831cfd9a73c4622d8a8942c1",
    "c445a39283cdc5e2d20f63471e56c49be51cb5aad91dad6fa6584027bffcaccf",
    "8a948b19af6a2a1ba77ecd0921b1c1a1c590786b4843f3cb8e4eeb9ebdb57850",
    "ae9faca3feca9093be4af1dbd0f0786f16c08b1106bc8ac70bc370f07bac14b9",
    "beadba836315747fc95ae304452514b72fe122a6e345974638d70c4e8ebace6a",
];

#[test]
fn plain_fields_stand_as_they_are() {
    assert_eq!(line(&["a", "b", "c"]), "a,b,c\n");
    assert_eq!(line(&[" a ", "b c"]), " a ,b c\n");
    assert_eq!(line(&["\u{e9}t\u{e9}", "\u{1f600}"]), "\u{e9}t\u{e9},\u{1f600}\n");
}

#[test]
fn fields_are_quoted_where_needed() {
    assert_eq!(line(&["a,b", "c"]), "\"a,b\",c\n");
    assert_eq!(line(&["say \"hi\""]), "\"say \"\"hi\"\"\"\n");
    assert_eq!(line(&["one\ntwo", "\r"]), "\"one\ntwo\",\"\r\"\n");
    assert_eq!(line(&["\""]), "\"\"\"\"\n");
}

#[test]
fn empty_fields_and_records() {
    assert_eq!(line(&[]), "\"\"\n");
    assert_eq!(line(&[""]), "\"\"\n");
    assert_eq!(line(&["", ""]), ",\n");
    assert_eq!(line(&["", "", "x"]), ",,x\n");
}

#[test]
fn long_records_are_written_whole() {
    let long = "x".repeat(20000);
    let quoted = "\"".repeat(9000);
    let expected = format!("{},\"{}\"\n", long, "\"".repeat(18000));
    assert_eq!(line(&[&long, &quoted]), expected);
}

#[test]
fn different_records_have_different_lines() {
    let records: [&[&str]; 7] = [
        &["a,b"],
        &["a", "b"],
        &["\"a", "b\""],
        &["\"a\"", "b"],
        &["a\n", "b"],
        &["", "a", "b"],
        &[""],
    ];
    for i in 0..records.len() {
        for j in 0..records.len() {
            assert_eq!(i == j, line(records[i]) == line(records[j]));
        }
    }
}

#[test]
fn a_record_is_hashed_by_its_line() {
    let r = record(&["1", "Ada, Countess"]);
    assert_eq!(hash_record(&r).unwrap(), sha256(b"1,\"Ada, Countess\"\n"));
    assert_eq!(digest_hex(&hash_record(&r).unwrap()), SAMPLE_DIGESTS[1]);
}

#[test]
fn leaves_are_the_digests_of_the_rows() {
    let leaves = leaves_from_csv(SAMPLE.as_bytes()).unwrap();
    let texts: Vec<String> = leaves.iter().map(|n| digest_hex(&n.hash)).collect();
    assert_eq!(texts, SAMPLE_DIGESTS);
}

#[test]
fn rows_are_hashed_in_canonical_form() {
    let a = leaves_from_csv(b"\"a\",\"b\"\r\n\r\nc,d").unwrap();
    let b = leaves_from_csv(b"a,b\nc,d\n").unwrap();
    assert_eq!(a.len(), 2);
    assert_eq!(a[0].hash, b[0].hash);
    assert_eq!(a[1].hash, b[1].hash);
}

#[test]
fn an_empty_text_has_no_leaves() {
    assert_eq!(leaves_from_csv(b"").unwrap().len(), 0);
    assert_eq!(leaves_from_csv(b"\n\n").unwrap().len(), 0);
}

#[test]
fn rows_of_differing_lengths_are_malformed() {
    let text = b"a,b\nc,d\ne\nf,g\n";
    match leaves_from_csv(text) {
        Err(CsvError::Malformed { message }) => {
            assert!(message.contains("found record with 1 fields"), "{}", message);
            assert!(message.contains("previous record has 2 fields"), "{}", message);
        }
        other => panic!("{:?}", other),
    }
    let out = hash_csv(text);
    let failure = out.failure.unwrap();
    assert!(failure.message().contains("found record with 1 fields"));
    let expected = format!(
        "a,b,{}\nc,d,{}\n",
        digest_hex(&sha256(b"a,b\n")),
        digest_hex(&sha256(b"c,d\n"))
    );
    assert_eq!(String::from_utf8(out.text).unwrap(), expected);
}

#[test]
fn rows_that_are_not_utf8_are_malformed() {
    let out = hash_csv(b"a,b\n\xff,d\n");
    assert!(out.failure.unwrap().message().contains("invalid UTF-8"));
    assert_eq!(
        String::from_utf8(out.text).unwrap(),
        format!("a,b,{}\n", digest_hex(&sha256(b"a,b\n")))
    );
}

#[test]
fn hashed_rows_end_in_their_digest() {
    let out = hash_csv(SAMPLE.as_bytes());
    assert!(out.failure.is_none());
    let expected = format!(
        "id,name,{}\n1,\"Ada, Countess\",{}\n2,\"says \"\"hi\"\"\",{}\n3,\"two\nlines\",{}\n,,{}\n",
        SAMPLE_DIGESTS[0], SAMPLE_DIGESTS[1], SAMPLE_DIGESTS[2], SAMPLE_DIGESTS[3],
        SAMPLE_DIGESTS[4]
    );
    assert_eq!(String::from_utf8(out.text).unwrap(), expected);
}

#[test]
fn reading_hashed_rows_gives_the_leaves_back() {
    for text in [
        SAMPLE,
        "",
        "one\ntwo\n",
        "\"\"\n\"\"\n",
        "a,\"\"\"\"\n\"\r\",\"\n\"\n",
    ] {
        let out = hash_csv(text.as_bytes());
        assert!(out.failure.is_none());
        let hashes = read_hashes_from_sha_csv(&out.text, None).unwrap();
        let width = read_rows(text.as_bytes()).first().map_or(7, |r| r.as_ref().unwrap().len());
        assert_eq!(read_hashes_from_sha_csv(&out.text, Some(width)).unwrap(), hashes);
        let leaves = leaves_from_csv(text.as_bytes()).unwrap();
        let expected: Vec<[u8; 32]> = leaves.iter().map(|n| n.hash).collect();
        assert_eq!(hashes, expected);
    }
}

#[test]
fn a_byte_order_mark_is_dropped_once() {
    let marked = leaves_from_csv("\u{feff}a,b\n".as_bytes()).unwrap();
    assert_eq!(marked[0].hash, sha256(b"a,b\n"));
    let twice = hash_csv("\u{feff}\u{feff}a,b\n".as_bytes());
    assert_eq!(&twice.text[..3], b"\xef\xbb\xbf");
    let hash = sha256("\u{feff}a,b\n".as_bytes());
    assert_eq!(
        read_rows(&twice.text),
        vec![Ok(record(&["a", "b", &digest_hex(&hash)]))]
    );
    for hash_col in [None, Some(2)] {
        assert_eq!(read_hashes_from_sha_csv(&twice.text, hash_col).unwrap(), vec![hash]);
    }
}

#[test]
fn a_marked_line_reads_back_without_its_mark() {
    let back = |fields: &[&str]| read_rows(&record_to_canonical_csv_line(&record(fields)).unwrap());
    assert_eq!(back(&["\u{feff}"]), vec![]);
    assert_eq!(back(&["\u{feff}", "x"]), vec![Ok(record(&["", "x"]))]);
    assert_eq!(back(&["\u{feff}x"]), vec![Ok(record(&["x"]))]);
    assert_eq!(back(&["\u{feff}\u{feff}"]), vec![Ok(record(&["\u{feff}"]))]);
    assert_eq!(back(&["\u{feff},"]), vec![Ok(record(&["\u{feff},"]))]);
    assert_eq!(back(&["x", "\u{feff}"]), vec![Ok(record(&["x", "\u{feff}"]))]);
    assert_eq!(read_rows("\u{feff}\na\n".as_bytes()), vec![Ok(record(&["a"]))]);
}

#[test]
fn stored_digests_are_read_whatever_the_records_hold() {
    let records: [[&str; 2]; 4] =
        [["\u{feff}", "\n"], ["a,b", "\"\""], ["", "\u{feff}"], ["\r\n", " "]];
    let digests: [[u8; 32]; 4] = [[0; 32], [0xab; 32], [7; 32], [255; 32]];
    let mut text: Vec<u8> = Vec::new();
    for (fields, digest) in records.iter().zip(&digests) {
        let mut stored = record(fields);
        stored.push(digest_hex(digest));
        text.extend(record_to_canonical_csv_line(&stored).unwrap());
    }
    for hash_col in [None, Some(2)] {
        assert_eq!(read_hashes_from_sha_csv(&text, hash_col).unwrap(), digests);
    }
}

#[test]
fn a_column_can_be_chosen() {
    let h = "0".repeat(64);
    let g = "F1".repeat(32);
    let text = format!("x,{},{}\ny,{},{}\n", h, g, g, h);
    assert_eq!(
        read_hashes_from_sha_csv(text.as_bytes(), Some(1)).unwrap(),
        vec![[0u8; 32], [0xf1u8; 32]]
    );
    assert_eq!(
        read_hashes_from_sha_csv(text.as_bytes(), None).unwrap(),
        vec![[0xf1u8; 32], [0u8; 32]]
    );
}

#[test]
fn white_space_around_a_digest_is_left_aside() {
    let h = "ab".repeat(32);
    for field in [
        format!("  {}\t", h),
        format!("\u{3000}{}\u{85}\u{a0}", h),
        format!("\u{2009}{}\n", h),
    ] {
        let r = vec!["x".to_string(), field];
        assert_eq!(hash_from_record(1, &r, None).unwrap(), [0xabu8; 32]);
    }
    let inner = format!("{} {}", "a".repeat(31), "b".repeat(32));
    match hash_from_record(1, &vec![inner], None) {
        Err(ReadHashError::NotHex { cause, .. }) => {
            assert_eq!(cause, HexError::InvalidHexCharacter { c: ' ', index: 31 });
        }
        other => panic!("{:?}", other),
    }
}

#[test]
fn an_empty_row_is_told() {
    let e = hash_from_record(4, &vec![], None).unwrap_err();
    assert!(matches!(e, ReadHashError::EmptyRow { row: 4 }));
    assert_eq!(e.message(), "Row 4 is empty; cannot read hash column.");
}

#[test]
fn a_column_out_of_range_is_told() {
    let text = format!("x,{}\n", "0".repeat(64));
    let e = read_hashes_from_sha_csv(text.as_bytes(), Some(2)).unwrap_err();
    assert!(matches!(e, ReadHashError::ColumnOutOfRange { row: 1, columns: 2, column: 2 }));
    assert_eq!(
        e.message(),
        "Row 1 has 2 columns; requested hash column 2 is out of range."
    );
}

#[test]
fn a_wrong_length_is_told() {
    let text = format!("{}\n{}\n", "0".repeat(64), "0".repeat(62));
    let e = read_hashes_from_sha_csv(text.as_bytes(), None).unwrap_err();
    assert!(matches!(e, ReadHashError::WrongLength { row: 2, length: 62 }));
    assert_eq!(e.message(), "Row 2 hash value length is 62; expected 64 hex chars.");
    let bytes = "\u{e9}".repeat(64);
    let e = hash_from_record(10, &vec![bytes], None).unwrap_err();
    assert_eq!(e.message(), "Row 10 hash value length is 128; expected 64 hex chars.");
}

#[test]
fn text_that_is_not_hex_is_told() {
    let value = format!("{}x", "0".repeat(63));
    let text = format!(" {} \n", value);
    let e = read_hashes_from_sha_csv(text.as_bytes(), None).unwrap_err();
    assert_eq!(
        e.message(),
        format!(
            "Row 1 hash is not valid hex ({}): Invalid character 'x' at position 63",
            value
        )
    );
    let value = format!("a\tb{}", "0".repeat(61));
    let e = hash_from_record(2, &vec![value.clone()], Some(0)).unwrap_err();
    assert_eq!(
        e.message(),
        format!(
            "Row 2 hash is not valid hex ({}): Invalid character '\\t' at position 1",
            value
        )
    );
}

#[test]
fn the_first_bad_row_decides() {
    let good = "0".repeat(64);
    let text = format!("a,{}\nb,short\nc\n", good);
    let e = read_hashes_from_sha_csv(text.as_bytes(), None).unwrap_err();
    assert!(matches!(e, ReadHashError::WrongLength { row: 2, length: 5 }));
    let text = format!("a,{}\nb\nc,short\n", good);
    let e = read_hashes_from_sha_csv(text.as_bytes(), None).unwrap_err();
    match &e {
        ReadHashError::Malformed { message } => assert_eq!(message, &e.message()),
        other => panic!("{:?}", other),
    }
    assert!(e.message().contains("found record with 1 fields"));
}

#[test]
fn rows_are_read_with_their_quotes_taken_off() {
    let rows = read_rows(b"a,\"b \"\"c\"\"\"\n\nd\n\"e\nf\",g");
    assert_eq!(rows.len(), 3);
    assert_eq!(rows[0], Ok(record(&["a", "b \"c\""])));
    assert!(rows[1].is_err());
    assert_eq!(rows[2], Ok(record(&["e\nf", "g"])));
}

#[test]
fn a_canonical_line_reads_back_as_its_record() {
    for fields in [
        vec!["a", "b"],
        vec![""],
        vec!["", ""],
        vec!["\"", ",", "\r\n", " x "],
    ] {
        let bytes = record_to_canonical_csv_line(&record(&fields)).unwrap();
        assert_eq!(read_rows(&bytes), vec![Ok(record(&fields))]);
    }
}

#[test]
fn a_digest_is_one_more_field() {
    let hashed = with_digest(&record(&["a", "b"])).unwrap();
    assert_eq!(hashed.len(), 3);
    assert_eq!(&hashed[..2], ["a", "b"]);
    assert_eq!(hashed[2], digest_hex(&sha256(b"a,b\n")));
}

#[test]
fn the_first_row_that_cannot_be_read_stops_the_hashing() {
    let rows = vec![
        Ok(record(&["a"])),
        Err("broken".to_string()),
        Ok(record(&["b"])),
        Err("again".to_string()),
    ];
    let out = hash_rows(&rows);
    assert_eq!(out.failure.unwrap().message(), "broken");
    assert_eq!(
        String::from_utf8(out.text).unwrap(),
        format!("a,{}\n", digest_hex(&sha256(b"a\n")))
    );
    assert_eq!(leaves_from_rows(&rows).unwrap_err().message(), "broken");
    assert_eq!(leaves_from_rows(&vec![]).unwrap().len(), 0);
    assert_eq!(leaves_from_rows(&rows[..1].to_vec()).unwrap()[0].hash, sha256(b"a\n"));
}

#[test]
fn the_first_row_without_digest_stops_the_reading() {
    let good = "1f".repeat(32);
    let rows = vec![
        Ok(vec![good.clone()]),
        Err("broken".to_string()),
        Ok(vec!["short".to_string()]),
    ];
    assert_eq!(hashes_from_rows(&rows, None).unwrap_err().message(), "broken");
    assert_eq!(hashes_from_rows(&rows[..1].to_vec(), None).unwrap(), vec![[0x1fu8; 32]]);
    assert_eq!(
        hashes_from_rows(&rows[2..].to_vec(), Some(0)).unwrap_err().message(),
        "Row 1 hash value length is 5; expected 64 hex chars."
    );
}

#[test]
fn a_line_too_long_is_told() {
    assert_eq!(
        CsvError::LineTooLong.message(),
        "The canonical line of a record is too long for SHA-256."
    );
}

/// The canonical line, written out by hand.
fn expected_line(fields: &[String]) -> String {
    let mut parts: Vec<String> = Vec::new();
    for field in fields {
        if field.contains(|c| c == ',' || c == '"' || c == '\r' || c == '\n') {
            parts.push(format!("\"{}\"", field.replace('"', "\"\"")));
        } else {
            parts.push(field.clone());
        }
    }
    let body = parts.join(",");
    if body.is_empty() {
        "\"\"\n".to_string()
    } else {
        format!("{}\n", body)
    }
}

#[test]
fn many_records_are_written_and_read_back() {
    let alphabet = ['a', ',', '"', '\r', '\n', ' ', '\u{e9}', '\u{1f600}', '\\', '#', '\t', '0'];
    let mut state: u64 = 1;
    let mut next = |bound: u64| {
        state = state.wrapping_mul(6364136223846793005).wrapping_add(1442695040888963407);
        (state >> 33) % bound
    };
    for round in 0..3000u64 {
        let count = 1 + next(4) as usize;
        let longest = if round % 100 == 0 { 9000 } else { 6 };
        let fields: Vec<String> = (0..count)
            .map(|_| {
                let len = next(longest);
                (0..len).map(|_| alphabet[next(alphabet.len() as u64) as usize]).collect()
            })
            .collect();
        let bytes = record_to_canonical_csv_line(&fields).unwrap();
        assert_eq!(String::from_utf8(bytes.clone()).unwrap(), expected_line(&fields));
        assert_eq!(read_rows(&bytes), vec![Ok(fields.clone())]);
        let out = hash_csv(&bytes);
        assert_eq!(
            read_hashes_from_sha_csv(&out.text, None).unwrap(),
            vec![sha256(&bytes)]
        );
    }
}
