//! What a run reports of a tree, and which kind of picture it makes.
use crate::hex_text::{digest_hex, hex_text};
use crate::text::{decimal, decimal_text};
use crate::tree::{lemma_merkle_level_len, merkle_root, Node, Tree};
use crate::tree_laws::law_levels_narrow_to_the_root;
use vstd::prelude::*;
use vstd::string::StringExecFns;

verus! {

/// The tree has a root wherever it has a level.
pub open spec fn rooted(tree: Tree) -> bool {
    tree.levels@.len() > 0 ==> tree.levels@.last()@.len() > 0
}

/// The root, the number of levels and the number of leaves of a tree, a line for
/// each. Of a tree without leaves there is only the message that says so.
pub fn tree_report(tree: &Tree) -> (report: Result<String, &'static str>)
    requires
        rooted(*tree),
    ensures
        match report {
            Ok(text) => tree.levels@.len() > 0 && text@ == "Merkle root (SHA-256 hex): "@
                + hex_text(tree.levels@.last()@[0].hash@) + "\nLevels: "@ + decimal(
                tree.levels@.len(),
            ) + "\nLeaf count: "@ + decimal(tree.levels@[0]@.len()) + "\n"@,
            Err(message) => tree.levels@.len() == 0 && message@
                == "CSV produced zero records; no Merkle tree to build."@,
        },
{
    let levels: usize = tree.levels.len();
    if levels == 0 {
        return Err("CSV produced zero records; no Merkle tree to build.");
    }
    let mut text: String = "Merkle root (SHA-256 hex): ".to_owned();
    text.append(digest_hex(&tree.levels[levels - 1][0].hash).as_str());
    text.append("\nLevels: ");
    text.append(decimal_text(levels).as_str());
    text.append("\nLeaf count: ");
    text.append(decimal_text(tree.levels[0].len()).as_str());
    text.append("\n");
    Ok(text)
}

/// The line that tells the root of a tree over stored digests. Of a tree without
/// leaves there is only the message that says so.
pub fn root_line(tree: &Tree) -> (line: Result<String, &'static str>)
    requires
        rooted(*tree),
    ensures
        match line {
            Ok(text) => tree.levels@.len() > 0 && text@ == "Merkle root: "@ + hex_text(
                tree.levels@.last()@[0].hash@,
            ) + "\n"@,
            Err(message) => tree.levels@.len() == 0 && message@ == "No hashes found."@,
        },
{
    let levels: usize = tree.levels.len();
    if levels == 0 {
        return Err("No hashes found.");
    }
    let mut text: String = "Merkle root: ".to_owned();
    text.append(digest_hex(&tree.levels[levels - 1][0].hash).as_str());
    text.append("\n");
    Ok(text)
}

/// The kind of picture that a run makes.
#[derive(Clone, Copy, Debug, PartialEq, Eq, Structural)]
pub enum Mode {
    Png,
    Html,
}

/// A page only where it is asked for and a drawing is not.
pub fn select_mode(png: bool, html: bool) -> (mode: Mode)
    ensures
        mode == (if html && !png {
            Mode::Html
        } else {
            Mode::Png
        }),
{
    if png || !html {
        Mode::Png
    } else {
        Mode::Html
    }
}

/// What is reported of the tree over some leaves is their Merkle root.
pub proof fn law_reported_root_is_the_merkle_root(tree: Tree, leaves: Seq<Node>)
    requires
        tree.is_tree_of(leaves),
    ensures
        rooted(tree),
        tree.levels@.len() > 0 <==> leaves.len() > 0,
        leaves.len() > 0 ==> tree.levels@.last()@[0].hash == merkle_root(leaves)
            && tree.levels@[0]@ == leaves,
{
    if leaves.len() > 0 {
        let top = (tree.levels@.len() - 1) as nat;
        law_levels_narrow_to_the_root(leaves.len(), top);
        lemma_merkle_level_len(leaves, top);
        assert(tree.levels@.last()@ == tree.levels@[top as int]@);
        assert(tree.levels@[0]@ == leaves);
    }
}

/// A tree is reported wherever its last level has a node.
pub proof fn law_trees_with_a_root_are_reported(tree: Tree)
    requires
        tree.levels@.len() > 0 ==> tree.levels@[tree.levels@.len() - 1]@.len() > 0,
    ensures
        rooted(tree),
{
}

} // verus!
