use csv_verify::report::{root_line, select_mode, tree_report, Mode};
use csv_verify::text::decimal_text;
use csv_verify::{build_tree_from_leaves, sha256, Node, Tree};

fn tree_over(n: u8) -> Tree {
    let leaves: Vec<Node> = (0..n).map(|i| Node { hash: sha256(&[i]) }).collect();
    build_tree_from_leaves(leaves)
}

#[test]
fn the_report_of_a_tree() {
    assert_eq!(
        tree_report(&tree_over(5)).unwrap(),
        "Merkle root (SHA-256 hex): 9674600fd139741c0f7dd7a32d984a0e74401cc90e6e8e5d203ed973d27324fe\nLevels: 4\nLeaf count: 5\n"
    );
    assert_eq!(
        root_line(&tree_over(5)).unwrap(),
        "Merkle root: 9674600fd139741c0f7dd7a32d984a0e74401cc90e6e8e5d203ed973d27324fe\n"
    );
}

#[test]
fn an_empty_tree_has_no_report() {
    assert_eq!(
        tree_report(&tree_over(0)),
        Err("CSV produced zero records; no Merkle tree to build.")
    );
    assert_eq!(root_line(&tree_over(0)), Err("No hashes found."));
}

#[test]
fn a_drawing_is_the_default() {
    assert_eq!(select_mode(false, false), Mode::Png);
    assert_eq!(select_mode(true, false), Mode::Png);
    assert_eq!(select_mode(false, true), Mode::Html);
    assert_eq!(select_mode(true, true), Mode::Png);
}

#[test]
fn decimal_numbers() {
    assert_eq!(decimal_text(0), "0");
    assert_eq!(decimal_text(9), "9");
    assert_eq!(decimal_text(10), "10");
    assert_eq!(decimal_text(1203456789), "1203456789");
    assert_eq!(decimal_text(usize::MAX), usize::MAX.to_string());
}
