//! Merkle trees as HTML pages. Hovering a node highlights the leaves that
//! contribute to it.
use crate::hex_text::{digest_hex, hex_text, short_hex, short_hex_text};
use crate::text::{decimal, decimal_text};
use crate::tree::{level_len, lemma_merkle_level_len, Node, Tree};
use crate::tree_laws::law_levels_narrow_to_the_root;
use vstd::prelude::*;
use vstd::string::StringExecFns;

verus! {

/// The start of the page, up to the size of a node.
pub const HEAD_START: &'static str = r#"<!doctype html>
<html lang="en">
<head>
<meta charset="utf-8">
<meta name="viewport" content="width=device-width, initial-scale=1">
<title>Merkle Tree</title>
<style>
  :root { --gap: 18px; "#;

/// The size of a node on the plain page.
pub const PLAIN_NODE_SIZE: &'static str = "--nodeW: 140px; --nodeH: 48px;";

/// The size of a node on the detailed page.
pub const DETAILED_NODE_SIZE: &'static str = "--nodeW: 120px; --nodeH: 44px;";

/// The page from the size of a node to the start of its body.
pub const HEAD_END: &'static str = r#" }
  body { font-family: system-ui, -apple-system, Segoe UI, Roboto, Arial, sans-serif; margin: 24px; background: #fff; color:#111; }
  .container { display: flex; flex-direction: column; gap: 26px; }
  .level { display: flex; justify-content: center; gap: var(--gap); flex-wrap: nowrap; overflow-x: auto; padding-bottom: 6px; }
  .node {
    width: var(--nodeW);
    height: var(--nodeH);
    border: 1px solid #bbb;
    border-radius: 10px;
    display:flex;
    align-items:center;
    justify-content:center;
    font-family: ui-monospace, SFMono-Regular, Menlo, Monaco, Consolas, "Liberation Mono", "Courier New", monospace;
    font-size: 14px;
    user-select: none;
    background: #fafafa;
    transition: background .12s, border-color .12s, box-shadow .12s, transform .12s;
    box-sizing: border-box;
  }
  .node:hover { transform: translateY(-1px); border-color: #888; }
  .node.active { background: #fff3bf; border-color: #d19a00; box-shadow: 0 0 0 2px rgba(209,154,0,0.20); }
  .node.leaf { background: #f7fbff; }
  .legend { font-size: 13px; color:#444; margin-bottom: 10px; line-height: 1.35; }
  .rootLine { margin: 0 0 14px; font-size: 13px; color:#222; }
  .rootHash { font-family: ui-monospace, SFMono-Regular, Menlo, Monaco, Consolas, monospace; }
</style>
</head>
<body>
"#;

/// What stands before the root's digest.
pub const ROOT_START: &'static str =
    r#"<div class="rootLine"><strong>Merkle root:</strong> <span class="rootHash">"#;

/// What stands behind the root's digest.
pub const ROOT_END: &'static str = "</span></div>";

/// The legend, up to the number of leaves.
pub const LEGEND_START: &'static str = r#"<div class="legend">
Hover any node to highlight all descendant leaves that contribute to that hash (and any internal nodes fully contained in that leaf range).
Leaf count: "#;

/// The legend behind the number of leaves.
pub const LEGEND_END: &'static str = ".\n</div>";

/// The script of the plain page, and the end of the page.
pub const PLAIN_SCRIPT: &'static str = r#"
<script>
(function() {
  const nodes = Array.from(document.querySelectorAll('.node'));

  function clearActive() {
    nodes.forEach(n => n.classList.remove('active'));
  }

  function activateRange(s, e) {
    nodes.forEach(n => {
      const ns = parseInt(n.dataset.leafStart, 10);
      const ne = parseInt(n.dataset.leafEnd, 10);
      // Leaves and internal nodes are both represented by leaf ranges.
      // Highlight any node whose leaf range is fully contained in [s,e].
      if (ns >= s && ne <= e) n.classList.add('active');
    });
  }

  nodes.forEach(n => {
    n.addEventListener('mouseenter', () => {
      const s = parseInt(n.dataset.leafStart, 10);
      const e = parseInt(n.dataset.leafEnd, 10);
      clearActive();
      activateRange(s, e);
    });
  });

  document.body.addEventListener('mouseleave', () => clearActive());
})();
</script>
</body>
</html>
"#;

/// The script of the detailed page, and the end of the page.
pub const DETAILED_SCRIPT: &'static str = r#"
<script>
(function() {
  const nodes = Array.from(document.querySelectorAll('.node'));

  function clearActive() {
    nodes.forEach(n => n.classList.remove('active'));
  }

  function activateRange(s, e) {
    nodes.forEach(n => {
      const ns = parseInt(n.dataset.leafStart, 10);
      const ne = parseInt(n.dataset.leafEnd, 10);

      // Leaf nodes: highlight if within range.
      // Internal nodes: highlight if fully contained in range.
      const isLeaf = n.classList.contains('leaf');
      const inRange = isLeaf ? (ns >= s && ne <= e) : (ns >= s && ne <= e);

      if (inRange) n.classList.add('active');
    });
  }

  nodes.forEach(n => {
    n.addEventListener('mouseenter', () => {
      const s = parseInt(n.dataset.leafStart, 10);
      const e = parseInt(n.dataset.leafEnd, 10);
      clearActive();
      activateRange(s, e);
    });
  });

  document.body.addEventListener('mouseleave', () => clearActive());
})();
</script>
</body>
</html>
"#;

/// The element of node `idx` of level `lvl`: its leaf range, its digest as a
/// tooltip and the first digits of it as a label. On the detailed page it also
/// tells its place.
pub open spec fn node_html(
    detailed: bool,
    lvl: nat,
    idx: nat,
    range: (usize, usize),
    hash: Seq<u8>,
    label_len: nat,
) -> Seq<char> {
    (if lvl == 0 {
        r#"<div class="node leaf""#@
    } else {
        r#"<div class="node""#@
    }) + (if detailed {
        r#" id="n-L"#@ + decimal(lvl) + "-I"@ + decimal(idx) + r#"" data-lvl=""#@ + decimal(lvl)
            + r#"" data-idx=""#@ + decimal(idx) + "\""@
    } else {
        seq![]
    }) + r#" data-leaf-start=""#@ + decimal(range.0 as nat) + r#"" data-leaf-end=""#@ + decimal(
        range.1 as nat,
    ) + r#"" title=""#@ + hex_text(hash) + r#"">"#@ + short_hex_text(hash, label_len) + "</div>"@
}

/// The elements of the first `k` nodes of level `lvl`.
pub open spec fn nodes_html(
    detailed: bool,
    lvl: nat,
    nodes: Seq<Node>,
    ranges: Seq<(usize, usize)>,
    label_len: nat,
    k: nat,
) -> Seq<char>
    decreases k,
{
    if k == 0 {
        seq![]
    } else {
        let i = (k - 1) as nat;
        nodes_html(detailed, lvl, nodes, ranges, label_len, i) + node_html(
            detailed,
            lvl,
            i,
            ranges[i as int],
            nodes[i as int].hash@,
            label_len,
        )
    }
}

/// The element of level `lvl`. On the detailed page some space follows the root.
pub open spec fn level_html(detailed: bool, tree: Tree, lvl: nat, label_len: nat) -> Seq<char> {
    let nodes = tree.levels@[lvl as int]@;
    r#"<div class="level">"#@ + nodes_html(
        detailed,
        lvl,
        nodes,
        tree.leaf_ranges@[lvl as int]@,
        label_len,
        nodes.len(),
    ) + "</div>"@ + (if detailed && lvl + 1 == tree.levels@.len() {
        r#"<div style="height:8px"></div>"#@
    } else {
        seq![]
    })
}

/// The elements of the levels from the root down to level `from`.
pub open spec fn levels_html(detailed: bool, tree: Tree, label_len: nat, from: nat) -> Seq<char>
    decreases tree.levels@.len() - from,
{
    if from >= tree.levels@.len() {
        seq![]
    } else {
        levels_html(detailed, tree, label_len, from + 1) + level_html(
            detailed,
            tree,
            from,
            label_len,
        )
    }
}

/// The page of a tree with at least one level.
pub open spec fn page_html(detailed: bool, tree: Tree, label_len: nat) -> Seq<char> {
    HEAD_START@ + (if detailed {
        DETAILED_NODE_SIZE@
    } else {
        PLAIN_NODE_SIZE@
    }) + HEAD_END@ + ROOT_START@ + hex_text(tree.levels@.last()@[0].hash@) + ROOT_END@
        + LEGEND_START@ + decimal(tree.levels@[0]@.len()) + LEGEND_END@
        + r#"<div class="container">"#@ + levels_html(detailed, tree, label_len, 0) + "</div>"@ + (
    if detailed {
        DETAILED_SCRIPT@
    } else {
        PLAIN_SCRIPT@
    })
}

/// The tree has what a page shows: a root above its levels, and a leaf range for
/// every node.
pub open spec fn renderable(tree: Tree) -> bool {
    &&& tree.levels@.len() > 0 ==> tree.levels@.last()@.len() > 0
    &&& tree.leaf_ranges@.len() >= tree.levels@.len()
    &&& forall|l: int|
        0 <= l < tree.levels@.len() ==> (#[trigger] tree.leaf_ranges@[l])@.len()
            >= tree.levels@[l]@.len()
}

/// Appends the element of a node.
fn push_node(
    html: &mut String,
    detailed: bool,
    lvl: usize,
    idx: usize,
    range: (usize, usize),
    node: &Node,
    label_len: usize,
)
    ensures
        final(html)@ == old(html)@ + node_html(
            detailed,
            lvl as nat,
            idx as nat,
            range,
            node.hash@,
            label_len as nat,
        ),
{
    let mut text: String = if lvl == 0 {
        r#"<div class="node leaf""#.to_owned()
    } else {
        r#"<div class="node""#.to_owned()
    };
    let mut place: String = String::new();
    if detailed {
        place = r#" id="n-L"#.to_owned();
        place.append(decimal_text(lvl).as_str());
        place.append("-I");
        place.append(decimal_text(idx).as_str());
        place.append(r#"" data-lvl=""#);
        place.append(decimal_text(lvl).as_str());
        place.append(r#"" data-idx=""#);
        place.append(decimal_text(idx).as_str());
        place.append("\"");
    }
    text.append(place.as_str());
    text.append(r#" data-leaf-start=""#);
    text.append(decimal_text(range.0).as_str());
    text.append(r#"" data-leaf-end=""#);
    text.append(decimal_text(range.1).as_str());
    text.append(r#"" title=""#);
    text.append(digest_hex(&node.hash).as_str());
    text.append(r#"">"#);
    text.append(short_hex(&node.hash, label_len).as_str());
    text.append("</div>");
    html.append(text.as_str());
}

/// Appends the element of a level.
fn push_level(html: &mut String, detailed: bool, tree: &Tree, lvl: usize, label_len: usize)
    requires
        renderable(*tree),
        lvl < tree.levels@.len(),
    ensures
        final(html)@ == old(html)@ + level_html(detailed, *tree, lvl as nat, label_len as nat),
{
    let nodes: &Vec<Node> = &tree.levels[lvl];
    let ranges: &Vec<(usize, usize)> = &tree.leaf_ranges[lvl];
    let mut text: String = r#"<div class="level">"#.to_owned();
    let ghost start = text@;
    let mut i: usize = 0;
    assert(text@ =~= start + nodes_html(
        detailed,
        lvl as nat,
        nodes@,
        ranges@,
        label_len as nat,
        0,
    ));
    while i < nodes.len()
        invariant
            i <= nodes@.len() <= ranges@.len(),
            text@ == start + nodes_html(
                detailed,
                lvl as nat,
                nodes@,
                ranges@,
                label_len as nat,
                i as nat,
            ),
        decreases nodes@.len() - i,
    {
        let ghost before = text@;
        push_node(&mut text, detailed, lvl, i, ranges[i], &nodes[i], label_len);
        i += 1;
        assert(text@ =~= start + nodes_html(
            detailed,
            lvl as nat,
            nodes@,
            ranges@,
            label_len as nat,
            i as nat,
        ));
    }
    text.append("</div>");
    let top: usize = tree.levels.len() - 1;
    if detailed && lvl == top {
        text.append(r#"<div style="height:8px"></div>"#);
    } else {
        assert(text@ =~= text@ + Seq::<char>::empty());
    }
    html.append(text.as_str());
}

/// The page of a tree with at least one level.
fn render_page(detailed: bool, tree: &Tree, label_len: usize) -> (html: String)
    requires
        renderable(*tree),
        tree.levels@.len() > 0,
    ensures
        html@ == page_html(detailed, *tree, label_len as nat),
{
    let level_count: usize = tree.levels.len();
    let mut html: String = HEAD_START.to_owned();
    if detailed {
        html.append(DETAILED_NODE_SIZE);
    } else {
        html.append(PLAIN_NODE_SIZE);
    }
    html.append(HEAD_END);
    html.append(ROOT_START);
    html.append(digest_hex(&tree.levels[level_count - 1][0].hash).as_str());
    html.append(ROOT_END);
    html.append(LEGEND_START);
    html.append(decimal_text(tree.levels[0].len()).as_str());
    html.append(LEGEND_END);
    html.append(r#"<div class="container">"#);
    let ghost start = html@;
    let mut lvl: usize = level_count;
    assert(html@ =~= start + levels_html(detailed, *tree, label_len as nat, lvl as nat));
    while lvl > 0
        invariant
            renderable(*tree),
            lvl <= level_count == tree.levels@.len(),
            html@ == start + levels_html(detailed, *tree, label_len as nat, lvl as nat),
        decreases lvl,
    {
        lvl -= 1;
        push_level(&mut html, detailed, tree, lvl, label_len);
        assert(html@ =~= start + levels_html(detailed, *tree, label_len as nat, lvl as nat));
    }
    html.append("</div>");
    if detailed {
        html.append(DETAILED_SCRIPT);
    } else {
        html.append(PLAIN_SCRIPT);
    }
    html
}

/// The page of a tree, root first, with `label_len` digits as the label of each
/// node. There is none of a tree without leaves; the message says so.
pub fn write_merkle_tree_html(tree: &Tree, label_len: usize) -> (html: Result<
    String,
    &'static str,
>)
    requires
        renderable(*tree),
    ensures
        match html {
            Ok(text) => tree.levels@.len() > 0 && text@ == page_html(
                false,
                *tree,
                label_len as nat,
            ),
            Err(message) => tree.levels@.len() == 0 && message@
                == "No leaves; cannot render HTML."@,
        },
{
    if tree.levels.len() == 0 {
        return Err("No leaves; cannot render HTML.");
    }
    Ok(render_page(false, tree, label_len))
}

/// The detailed page of a tree, where each node tells its place in the tree.
/// There is none of a tree without leaves; the message says so.
pub fn write_detailed_merkle_tree_html(tree: &Tree, label_len: usize) -> (html: Result<
    String,
    &'static str,
>)
    requires
        renderable(*tree),
    ensures
        match html {
            Ok(text) => tree.levels@.len() > 0 && text@ == page_html(
                true,
                *tree,
                label_len as nat,
            ),
            Err(message) => tree.levels@.len() == 0 && message@
                == "No rows found: CSV produced zero leaves, cannot render HTML Merkle tree."@,
        },
{
    if tree.levels.len() == 0 {
        return Err("No rows found: CSV produced zero leaves, cannot render HTML Merkle tree.");
    }
    Ok(render_page(true, tree, label_len))
}

/// Every tree over leaves can be shown on a page.
pub proof fn law_built_trees_are_renderable(tree: Tree, leaves: Seq<Node>)
    requires
        tree.is_tree_of(leaves),
    ensures
        renderable(tree),
{
    let n = leaves.len();
    assert forall|l: int| 0 <= l < tree.levels@.len() implies (
    #[trigger] tree.leaf_ranges@[l])@.len() >= tree.levels@[l]@.len() by {
        lemma_merkle_level_len(leaves, l as nat);
    }
    if tree.levels@.len() > 0 {
        let top = (tree.levels@.len() - 1) as nat;
        law_levels_narrow_to_the_root(n, top);
        lemma_merkle_level_len(leaves, top);
        assert(tree.levels@.last()@.len() == level_len(n, top));
    }
}

/// The element of a node has its leaf range, its whole digest as a tooltip, and
/// the first digits of it as a label; on the detailed page also its level and its
/// index. Only a node of the lowest level is marked as a leaf.
pub proof fn law_element_of_a_node(
    lvl: nat,
    idx: nat,
    range: (usize, usize),
    hash: Seq<u8>,
    label_len: nat,
)
    ensures
        ({
            let class = if lvl == 0 {
                r#"<div class="node leaf""#@
            } else {
                r#"<div class="node""#@
            };
            let place = r#" id="n-L"#@ + decimal(lvl) + "-I"@ + decimal(idx) + r#"" data-lvl=""#@
                + decimal(lvl) + r#"" data-idx=""#@ + decimal(idx) + "\""@;
            let label = if label_len < 2 * hash.len() {
                hex_text(hash).take(label_len as int)
            } else {
                hex_text(hash)
            };
            &&& node_html(false, lvl, idx, range, hash, label_len) == class
                + r#" data-leaf-start=""#@ + decimal(range.0 as nat) + r#"" data-leaf-end=""#@
                + decimal(range.1 as nat) + r#"" title=""#@ + hex_text(hash) + r#"">"#@ + label
                + "</div>"@
            &&& node_html(true, lvl, idx, range, hash, label_len) == class + place
                + r#" data-leaf-start=""#@ + decimal(range.0 as nat) + r#"" data-leaf-end=""#@
                + decimal(range.1 as nat) + r#"" title=""#@ + hex_text(hash) + r#"">"#@ + label
                + "</div>"@
        }),
{
    let class = if lvl == 0 {
        r#"<div class="node leaf""#@
    } else {
        r#"<div class="node""#@
    };
    assert(class + seq![] =~= class);
}

proof fn lemma_nodes_html(
    detailed: bool,
    lvl: nat,
    nodes: Seq<Node>,
    ranges: Seq<(usize, usize)>,
    label_len: nat,
    k: nat,
)
    ensures
        nodes_html(detailed, lvl, nodes, ranges, label_len, k) == Seq::new(
            k,
            |i: int| node_html(detailed, lvl, i as nat, ranges[i], nodes[i].hash@, label_len),
        ).flatten(),
    decreases k,
{
    let all = Seq::new(
        k,
        |i: int| node_html(detailed, lvl, i as nat, ranges[i], nodes[i].hash@, label_len),
    );
    if k > 0 {
        let i = (k - 1) as nat;
        lemma_nodes_html(detailed, lvl, nodes, ranges, label_len, i);
        let before = Seq::new(
            i,
            |i: int| node_html(detailed, lvl, i as nat, ranges[i], nodes[i].hash@, label_len),
        );
        let last = node_html(detailed, lvl, i, ranges[i as int], nodes[i as int].hash@, label_len);
        assert(all =~= before.push(last));
        before.lemma_flatten_push(last);
    }
}

/// A level of a page has an element for every node of that level of the tree, in
/// their order. On the detailed page some space follows the level of the root.
pub proof fn law_level_shows_every_node(detailed: bool, tree: Tree, lvl: nat, label_len: nat)
    requires
        lvl < tree.levels@.len(),
    ensures
        level_html(detailed, tree, lvl, label_len) == r#"<div class="level">"#@ + Seq::new(
            tree.levels@[lvl as int]@.len(),
            |i: int|
                node_html(
                    detailed,
                    lvl,
                    i as nat,
                    tree.leaf_ranges@[lvl as int]@[i],
                    tree.levels@[lvl as int]@[i].hash@,
                    label_len,
                ),
        ).flatten() + "</div>"@ + (if detailed && lvl == tree.levels@.len() - 1 {
            r#"<div style="height:8px"></div>"#@
        } else {
            seq![]
        }),
{
    lemma_nodes_html(
        detailed,
        lvl,
        tree.levels@[lvl as int]@,
        tree.leaf_ranges@[lvl as int]@,
        label_len,
        tree.levels@[lvl as int]@.len(),
    );
}

proof fn lemma_levels_html(detailed: bool, tree: Tree, label_len: nat, from: nat)
    requires
        from <= tree.levels@.len(),
    ensures
        levels_html(detailed, tree, label_len, from) == Seq::new(
            (tree.levels@.len() - from) as nat,
            |k: int| level_html(detailed, tree, (tree.levels@.len() - 1 - k) as nat, label_len),
        ).flatten(),
    decreases tree.levels@.len() - from,
{
    let count = tree.levels@.len();
    let all = Seq::new(
        (count - from) as nat,
        |k: int| level_html(detailed, tree, (count - 1 - k) as nat, label_len),
    );
    if from < count {
        lemma_levels_html(detailed, tree, label_len, from + 1);
        let above = Seq::new(
            (count - (from + 1)) as nat,
            |k: int| level_html(detailed, tree, (count - 1 - k) as nat, label_len),
        );
        let lowest = level_html(detailed, tree, from, label_len);
        assert(all =~= above.push(lowest));
        above.lemma_flatten_push(lowest);
    }
}

/// A page shows the digest of the root, the number of leaves, and every level of
/// the tree, from the level of the root down to that of the leaves.
pub proof fn law_page_shows_every_level(detailed: bool, tree: Tree, label_len: nat)
    ensures
        page_html(detailed, tree, label_len) == HEAD_START@ + (if detailed {
            DETAILED_NODE_SIZE@
        } else {
            PLAIN_NODE_SIZE@
        }) + HEAD_END@ + ROOT_START@ + hex_text(
            tree.levels@[tree.levels@.len() - 1]@[0].hash@,
        ) + ROOT_END@ + LEGEND_START@ + decimal(tree.levels@[0]@.len()) + LEGEND_END@
            + r#"<div class="container">"#@ + Seq::new(
            tree.levels@.len(),
            |k: int| level_html(detailed, tree, (tree.levels@.len() - 1 - k) as nat, label_len),
        ).flatten() + "</div>"@ + (if detailed {
            DETAILED_SCRIPT@
        } else {
            PLAIN_SCRIPT@
        }),
{
    lemma_levels_html(detailed, tree, label_len, 0);
}

/// A page can be made of every tree that has a root above its levels and as many
/// leaf ranges as nodes on each level.
pub proof fn law_trees_with_ranges_are_renderable(tree: Tree)
    requires
        tree.levels@.len() > 0 ==> tree.levels@[tree.levels@.len() - 1]@.len() > 0,
        tree.leaf_ranges@.len() == tree.levels@.len(),
        forall|l: int|
            0 <= l < tree.levels@.len() ==> (#[trigger] tree.leaf_ranges@[l])@.len()
                == tree.levels@[l]@.len(),
    ensures
        renderable(tree),
{
}

} // verus!
