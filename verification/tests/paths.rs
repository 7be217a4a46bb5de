use csv_verify::paths::sha_csv_extension;
use csv_verify::sha_csv_path_for_input;
use std::path::Path;

fn hashed(input: &str) -> String {
    sha_csv_path_for_input(Path::new(input)).to_str().unwrap().to_string()
}

#[test]
fn the_extension_stays_in_the_name() {
    assert_eq!(hashed("sample.csv"), "sample.csv.sha.csv");
    assert_eq!(hashed("sample.tsv"), "sample.tsv.sha.csv");
    assert_eq!(hashed("dir.d/sample.tsv"), "dir.d/sample.tsv.sha.csv");
    assert_eq!(hashed("/a/b.tar.gz"), "/a/b.tar.gz.sha.csv");
    assert_eq!(hashed("\u{e9}t\u{e9}.\u{e9}"), "\u{e9}t\u{e9}.\u{e9}.sha.csv");
    assert_eq!(hashed("sample."), "sample..sha.csv");
}

#[test]
fn the_text_of_a_path_stays_in_front() {
    for input in ["a//b/./c.csv", "./x.y", "../d.e/f.g", "\\a.b\\c.d"] {
        assert_eq!(hashed(input), format!("{}.sha.csv", input));
    }
    assert_eq!(hashed("d/e.f/"), "d/e.f.sha.csv");
}

#[test]
fn a_name_without_extension_gets_csv() {
    assert_eq!(hashed("sample"), "sample.csv.sha.csv");
    assert_eq!(hashed("dir.d/sample"), "dir.d/sample.csv.sha.csv");
    assert_eq!(hashed(".hidden"), ".hidden.csv.sha.csv");
    assert_eq!(hashed("dir/"), "dir.csv.sha.csv");
}

#[test]
fn a_path_without_file_name_stays_as_it_is() {
    assert_eq!(hashed("/"), "/");
    assert_eq!(hashed(".."), "..");
    assert_eq!(hashed("a/.."), "a/..");
    assert_eq!(hashed(""), "");
}

#[test]
fn the_extension_of_hashed_rows() {
    assert_eq!(sha_csv_extension(Some("tsv".to_string())), "tsv.sha.csv");
    assert_eq!(sha_csv_extension(Some(String::new())), ".sha.csv");
    assert_eq!(sha_csv_extension(None), "csv.sha.csv");
}
