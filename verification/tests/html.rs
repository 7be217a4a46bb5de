use csv_verify::hex_text::digest_hex;
use csv_verify::{
    build_tree_from_leaves, sha256, write_detailed_merkle_tree_html, write_merkle_tree_html, Node,
    Tree,
};

fn tree_over(n: u8) -> Tree {
    let leaves: Vec<Node> = (0..n).map(|i| Node { hash: sha256(&[i]) }).collect();
    build_tree_from_leaves(leaves)
}

#[test]
fn there_is_no_page_without_leaves() {
    let tree = tree_over(0);
    assert_eq!(
        write_merkle_tree_html(&tree, 10),
        Err("No leaves; cannot render HTML.")
    );
    assert_eq!(
        write_detailed_merkle_tree_html(&tree, 10),
        Err("No rows found: CSV produced zero leaves, cannot render HTML Merkle tree.")
    );
}

#[test]
fn plain_page_of_three_leaves() {
    let expected = r##"<!doctype html>
<html lang="en">
<head>
<meta charset="utf-8">
<meta name="viewport" content="width=device-width, initial-scale=1">
<title>Merkle Tree</title>
<style>
  :root { --gap: 18px; --nodeW: 140px; --nodeH: 48px; }
  body { font-family: system-ui, -apple-system, Segoe UI, Roboto, Arial, sans-serif; margin: 24px; background: #fff; color:#111; }
  .container { display: flex; flex-direction: column; gap: 26px; }
  .level { display: flex; justify-content: center; gap: var(--gap); flex-wrap: nowrap; overflow-x: auto; padding-bottom: 6px; }
  .node {
    width: var(--nodeW);
    height: var(--nodeH);
    border: 1px solid #bbb;
    border-radius: 10px;
    display:flex;
    align-items:center;
    justify-content:center;
    font-family: ui-monospace, SFMono-Regular, Menlo, Monaco, Consolas, "Liberation Mono", "Courier New", monospace;
    font-size: 14px;
    user-select: none;
    background: #fafafa;
    transition: background .12s, border-color .12s, box-shadow .12s, transform .12s;
    box-sizing: border-box;
  }
  .node:hover { transform: translateY(-1px); border-color: #888; }
  .node.active { background: #fff3bf; border-color: #d19a00; box-shadow: 0 0 0 2px rgba(209,154,0,0.20); }
  .node.leaf { background: #f7fbff; }
  .legend { font-size: 13px; color:#444; margin-bottom: 10px; line-height: 1.35; }
  .rootLine { margin: 0 0 14px; font-size: 13px; color:#222; }
  .rootHash { font-family: ui-monospace, SFMono-Regular, Menlo, Monaco, Consolas, monospace; }
</style>
</head>
<body>
<div class="rootLine"><strong>Merkle root:</strong> <span class="rootHash">f2dcdd96791b6bac5d554f2d320e594b834f5da1981812c3707e7772234cb0ad</span></div><div class="legend">
Hover any node to highlight all descendant leaves that contribute to that hash (and any internal nodes fully contained in that leaf range).
Leaf count: 3.
</div><div class="container"><div class="level"><div class="node" data-leaf-start="0" data-leaf-end="2" title="f2dcdd96791b6bac5d554f2d320e594b834f5da1981812c3707e7772234cb0ad">f2dcdd9679</div></div><div class="level"><div class="node" data-leaf-start="0" data-leaf-end="1" title="30e1867424e66e8b6d159246db94e3486778136f7e386ff5f001859d6b8484ab">30e1867424</div><div class="node" data-leaf-start="2" data-leaf-end="2" title="3d14fb6d40142d70f29f15b3f6419554d61e260ae6f15929f0fd7f0f7f7ab4d1">3d14fb6d40</div></div><div class="level"><div class="node leaf" data-leaf-start="0" data-leaf-end="0" title="6e340b9cffb37a989ca544e6bb780a2c78901d3fb33738768511a30617afa01d">6e340b9cff</div><div class="node leaf" data-leaf-start="1" data-leaf-end="1" title="4bf5122f344554c53bde2ebb8cd2b7e3d1600ad631c385a5d7cce23c7785459a">4bf5122f34</div><div class="node leaf" data-leaf-start="2" data-leaf-end="2" title="dbc1b4c900ffe48d575b5da5c638040125f65db0fe3e24494b76ea986457d986">dbc1b4c900</div></div></div>
<script>
(function() {
  const nodes = Array.from(document.querySelectorAll('.node'));

  function clearActive() {
    nodes.forEach(n => n.classList.remove('active'));
  }

  function activateRange(s, e) {
    nodes.forEach(n => {
      const ns = parseInt(n.dataset.leafStart, 10);
      const ne = parseInt(n.dataset.leafEnd, 10);
      // Leaves and internal nodes are both represented by leaf ranges.
      // Highlight any node whose leaf range is fully contained in [s,e].
      if (ns >= s && ne <= e) n.classList.add('active');
    });
  }

  nodes.forEach(n => {
    n.addEventListener('mouseenter', () => {
      const s = parseInt(n.dataset.leafStart, 10);
      const e = parseInt(n.dataset.leafEnd, 10);
      clearActive();
      activateRange(s, e);
    });
  });

  document.body.addEventListener('mouseleave', () => clearActive());
})();
</script>
</body>
</html>
"##;
    assert_eq!(write_merkle_tree_html(&tree_over(3), 10).unwrap(), expected);
}

#[test]
fn detailed_page_of_three_leaves() {
    let expected = r##"<!doctype html>
<html lang="en">
<head>
<meta charset="utf-8">
<meta name="viewport" content="width=device-width, initial-scale=1">
<title>Merkle Tree</title>
<style>
  :root { --gap: 18px; --nodeW: 120px; --nodeH: 44px; }
  body { font-family: system-ui, -apple-system, Segoe UI, Roboto, Arial, sans-serif; margin: 24px; background: #fff; color:#111; }
  .container { display: flex; flex-direction: column; gap: 26px; }
  .level { display: flex; justify-content: center; gap: var(--gap); flex-wrap: nowrap; overflow-x: auto; padding-bottom: 6px; }
  .node {
    width: var(--nodeW);
    height: var(--nodeH);
    border: 1px solid #bbb;
    border-radius: 10px;
    display:flex;
    align-items:center;
    justify-content:center;
    font-family: ui-monospace, SFMono-Regular, Menlo, Monaco, Consolas, "Liberation Mono", "Courier New", monospace;
    font-size: 14px;
    user-select: none;
    background: #fafafa;
    transition: background .12s, border-color .12s, box-shadow .12s, transform .12s;
    box-sizing: border-box;
  }
  .node:hover { transform: translateY(-1px); border-color: #888; }
  .node.active { background: #fff3bf; border-color: #d19a00; box-shadow: 0 0 0 2px rgba(209,154,0,0.20); }
  .node.leaf { background: #f7fbff; }
  .legend { font-size: 13px; color:#444; margin-bottom: 10px; line-height: 1.35; }
  .rootLine { margin: 0 0 14px; font-size: 13px; color:#222; }
  .rootHash { font-family: ui-monospace, SFMono-Regular, Menlo, Monaco, Consolas, monospace; }
</style>
</head>
<body>
<div class="rootLine"><strong>Merkle root:</strong> <span class="rootHash">f2dcdd96791b6bac5d554f2d320e594b834f5da1981812c3707e7772234cb0ad</span></div><div class="legend">
Hover any node to highlight all descendant leaves that contribute to that hash (and any internal nodes fully contained in that leaf range).
Leaf count: 3.
</div><div class="container"><div class="level"><div class="node" id="n-L2-I0" data-lvl="2" data-idx="0" data-leaf-start="0" data-leaf-end="2" title="f2dcdd96791b6bac5d554f2d320e594b834f5da1981812c3707e7772234cb0ad">f2dc</div></div><div style="height:8px"></div><div class="level"><div class="node" id="n-L1-I0" data-lvl="1" data-idx="0" data-leaf-start="0" data-leaf-end="1" title="30e1867424e66e8b6d159246db94e3486778136f7e386ff5f001859d6b8484ab">30e1</div><div class="node" id="n-L1-I1" data-lvl="1" data-idx="1" data-leaf-start="2" data-leaf-end="2" title="3d14fb6d40142d70f29f15b3f6419554d61e260ae6f15929f0fd7f0f7f7ab4d1">3d14</div></div><div class="level"><div class="node leaf" id="n-L0-I0" data-lvl="0" data-idx="0" data-leaf-start="0" data-leaf-end="0" title="6e340b9cffb37a989ca544e6bb780a2c78901d3fb33738768511a30617afa01d">6e34</div><div class="node leaf" id="n-L0-I1" data-lvl="0" data-idx="1" data-leaf-start="1" data-leaf-end="1" title="4bf5122f344554c53bde2ebb8cd2b7e3d1600ad631c385a5d7cce23c7785459a">4bf5</div><div class="node leaf" id="n-L0-I2" data-lvl="0" data-idx="2" data-leaf-start="2" data-leaf-end="2" title="dbc1b4c900ffe48d575b5da5c638040125f65db0fe3e24494b76ea986457d986">dbc1</div></div></div>
<script>
(function() {
  const nodes = Array.from(document.querySelectorAll('.node'));

  function clearActive() {
    nodes.forEach(n => n.classList.remove('active'));
  }

  function activateRange(s, e) {
    nodes.forEach(n => {
      const ns = parseInt(n.dataset.leafStart, 10);
      const ne = parseInt(n.dataset.leafEnd, 10);

      // Leaf nodes: highlight if within range.
      // Internal nodes: highlight if fully contained in range.
      const isLeaf = n.classList.contains('leaf');
      const inRange = isLeaf ? (ns >= s && ne <= e) : (ns >= s && ne <= e);

      if (inRange) n.classList.add('active');
    });
  }

  nodes.forEach(n => {
    n.addEventListener('mouseenter', () => {
      const s = parseInt(n.dataset.leafStart, 10);
      const e = parseInt(n.dataset.leafEnd, 10);
      clearActive();
      activateRange(s, e);
    });
  });

  document.body.addEventListener('mouseleave', () => clearActive());
})();
</script>
</body>
</html>
"##;
    assert_eq!(write_detailed_merkle_tree_html(&tree_over(3), 4).unwrap(), expected);
}

#[test]
fn plain_page_of_twelve_leaves() {
    let html = write_merkle_tree_html(&tree_over(12), 64).unwrap();
    assert_eq!(html.len(), 7730);
    assert_eq!(
        digest_hex(&sha256(html.as_bytes())),
        "ebad4bbe572ab502c329fda47d37be52db94e983b91ea1d4c78a62e140f6635c"
    );
}

#[test]
fn detailed_page_of_twelve_leaves() {
    let html = write_detailed_merkle_tree_html(&tree_over(12), 0).unwrap();
    assert_eq!(html.len(), 7248);
    assert_eq!(
        digest_hex(&sha256(html.as_bytes())),
        "1de064796f1570f07362bef9e4b084e075b4d5fac7f1c4be61ea8c85dedbe632"
    );
}

#[test]
fn plain_page_of_one_leaf() {
    let html = write_merkle_tree_html(&tree_over(1), 100).unwrap();
    assert_eq!(html.len(), 2988);
    assert_eq!(
        digest_hex(&sha256(html.as_bytes())),
        "fadb48e9d759f4f0527ca1c6d5ca5a9c01cd800a4c038de9802ff4fe5aa7c62b"
    );
}

#[test]
fn detailed_page_of_one_leaf() {
    let html = write_detailed_merkle_tree_html(&tree_over(1), 10).unwrap();
    assert_eq!(html.len(), 3087);
    assert_eq!(
        digest_hex(&sha256(html.as_bytes())),
        "34d7def4818b5df01cc70344f3cae12fd41d6af9ce7dd2677fa514aac58b213a"
    );
}
