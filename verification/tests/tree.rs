use csv_verify::hex_text::digest_hex;
use csv_verify::{build_tree_from_leaves, hash_pair, leaves_from_csv, sha256, Node, Tree};

fn tree_over(n: u8) -> Tree {
    let leaves: Vec<Node> = (0..n).map(|i| Node { hash: sha256(&[i]) }).collect();
    build_tree_from_leaves(leaves)
}

fn root(tree: &Tree) -> String {
    digest_hex(&tree.levels.last().unwrap()[0].hash)
}

#[test]
fn a_tree_without_leaves_is_empty() {
    let tree = build_tree_from_leaves(vec![]);
    assert!(tree.levels.is_empty());
    assert!(tree.leaf_ranges.is_empty());
}

#[test]
fn one_leaf_is_its_own_root() {
    let tree = tree_over(1);
    assert_eq!(tree.levels.len(), 1);
    assert_eq!(tree.levels[0][0].hash, sha256(&[0]));
    assert_eq!(tree.leaf_ranges, vec![vec![(0, 0)]]);
}

#[test]
fn roots_of_small_trees() {
    let expected = [
        "6e340b9cffb37a989ca544e6bb780a2c78901d3fb33738768511a30617afa01d",
        "30e1867424e66e8b6d159246db94e3486778136f7e386ff5f001859d6b8484ab",
        "f2dcdd96791b6bac5d554f2d320e594b834f5da1981812c3707e7772234cb0ad",
        "9675e04b4ba9dc81b06e81731e2d21caa2c95557a85dcfa3fff70c9ff0f30b2e",
        "9674600fd139741c0f7dd7a32d984a0e74401cc90e6e8e5d203ed973d27324fe",
        "adccbd2044ec8710e7970bd22e5c68df20fe3848f267086da2013a3377175b5e",
        "e263b77a6d80c1c56f3f67d1e0d803ad8eb2ac9d66c82f78735207c886a1592c",
        "0727b310f87099c1ba2ec0ba408def82c308237c8577f0bdfd2643e9cc6b7578",
    ];
    for n in 1..=8u8 {
        assert_eq!(root(&tree_over(n)), expected[n as usize - 1]);
    }
}

#[test]
fn the_last_of_an_odd_level_counts_twice() {
    let tree = tree_over(3);
    let l = &tree.levels[0];
    assert_eq!(tree.levels.len(), 3);
    assert_eq!(tree.levels[1].len(), 2);
    assert_eq!(tree.levels[1][0].hash, hash_pair(&l[0].hash, &l[1].hash));
    assert_eq!(tree.levels[1][1].hash, hash_pair(&l[2].hash, &l[2].hash));
    assert_eq!(
        tree.levels[2][0].hash,
        hash_pair(&tree.levels[1][0].hash, &tree.levels[1][1].hash)
    );
}

#[test]
fn repeating_the_last_of_an_odd_number_of_leaves_keeps_the_root() {
    for n in [3u8, 5, 7] {
        let mut leaves: Vec<Node> = (0..n).map(|i| Node { hash: sha256(&[i]) }).collect();
        leaves.push(leaves.last().unwrap().clone());
        let longer = build_tree_from_leaves(leaves);
        let tree = tree_over(n);
        assert_eq!(root(&longer), root(&tree));
        assert_eq!(longer.levels.len(), tree.levels.len());
        for l in 1..tree.levels.len() {
            let hashes = |t: &Tree| t.levels[l].iter().map(|n| n.hash).collect::<Vec<_>>();
            assert_eq!(hashes(&longer), hashes(&tree));
        }
    }
}

#[test]
fn leaf_ranges_of_five_leaves() {
    let tree = tree_over(5);
    assert_eq!(
        tree.leaf_ranges,
        vec![
            vec![(0, 0), (1, 1), (2, 2), (3, 3), (4, 4)],
            vec![(0, 1), (2, 3), (4, 4)],
            vec![(0, 3), (4, 4)],
            vec![(0, 4)],
        ]
    );
}

#[test]
fn levels_halve_and_ranges_cover_all_leaves() {
    for n in 1..=40usize {
        let tree = tree_over(n as u8);
        assert_eq!(tree.levels[0].len(), n);
        assert_eq!(tree.levels.last().unwrap().len(), 1);
        assert_eq!(tree.leaf_ranges.len(), tree.levels.len());
        for l in 0..tree.levels.len() {
            if l > 0 {
                assert_eq!(tree.levels[l].len(), (tree.levels[l - 1].len() + 1) / 2);
            }
            let ranges = &tree.leaf_ranges[l];
            assert_eq!(ranges.len(), tree.levels[l].len());
            assert_eq!(ranges[0].0, 0);
            assert_eq!(ranges[ranges.len() - 1].1, n - 1);
            for i in 1..ranges.len() {
                assert_eq!(ranges[i].0, ranges[i - 1].1 + 1);
            }
            for i in 0..ranges.len() {
                for leaf in 0..n {
                    let inside = ranges[i].0 <= leaf && leaf <= ranges[i].1;
                    assert_eq!(inside, leaf >> l == i);
                }
            }
        }
    }
}

#[test]
fn a_leaf_changes_exactly_the_nodes_whose_range_holds_it() {
    for n in 1..=9u8 {
        let tree = tree_over(n);
        for changed in 0..n as usize {
            let mut leaves = tree.levels[0].clone();
            leaves[changed] = Node { hash: sha256(b"changed") };
            let other = build_tree_from_leaves(leaves);
            for l in 0..tree.levels.len() {
                for i in 0..tree.levels[l].len() {
                    let (start, end) = tree.leaf_ranges[l][i];
                    let inside = start <= changed && changed <= end;
                    let differs = tree.levels[l][i].hash != other.levels[l][i].hash;
                    assert_eq!(inside, differs);
                }
            }
        }
    }
}

#[test]
fn nodes_with_the_same_range_have_the_same_digest() {
    for n in 1..=12u8 {
        for m in 1..=12u8 {
            let (a, b) = (tree_over(n), tree_over(m));
            for l in 0..a.levels.len().min(b.levels.len()) {
                for i in 0..a.levels[l].len().min(b.levels[l].len()) {
                    let same = a.leaf_ranges[l][i] == b.leaf_ranges[l][i];
                    assert_eq!(same, a.levels[l][i].hash == b.levels[l][i].hash);
                }
            }
        }
    }
}

#[test]
fn a_changed_record_changes_the_root() {
    let tree = |text: &str| build_tree_from_leaves(leaves_from_csv(text.as_bytes()).unwrap());
    let original = root(&tree("id,name\n1,Ada\n2,Grace\n"));
    assert_eq!(original, root(&tree("\"id\",name\r\n1,\"Ada\"\r\n2,Grace")));
    assert_ne!(original, root(&tree("id,name\n1,Ada\n2,Gracie\n")));
    assert_ne!(original, root(&tree("id,name\n2,Grace\n1,Ada\n")));
    assert_ne!(original, root(&tree("id,name\n1,Ada\n")));
}
