//! Where the parts of a drawing of a Merkle tree stand, in whole pixels. A drawing
//! over the rows of a CSV file has the root at the top, one over stored digests
//! the leaves.
use crate::tree::{lemma_merkle_level_len, right_child, Node, Tree};
use vstd::prelude::*;

verus! {

/// What the leaves of a tree come from.
#[derive(Clone, Copy, Debug, PartialEq, Eq, Structural)]
pub enum Source {
    /// Digests that were stored in a file of hashed rows.
    StoredDigests,
    /// The rows of a CSV file.
    Rows,
}

/// What a drawing is made of, and its sizes in pixels.
#[derive(Clone, Copy, Debug, PartialEq, Eq, Structural)]
pub struct PngSettings {
    /// What the leaves come from.
    pub source: Source,
    /// The radius of a node.
    pub node_radius: i32,
    /// The distance between two leaves.
    pub x_spacing: i32,
    /// The distance between two levels.
    pub y_spacing: i32,
    /// The space around the drawing.
    pub padding: i32,
    /// The height of the font, rounded towards zero.
    pub font_height: i32,
    /// The space that a label takes besides the height of the font.
    pub label_margin: i32,
    /// The least width of the canvas.
    pub min_width: i32,
    /// The least height of the canvas.
    pub min_height: i32,
}

impl PngSettings {
    /// The settings for drawing the tree over stored digests.
    pub fn for_stored_digests(
        node_radius: i32,
        x_spacing: i32,
        y_spacing: i32,
        padding: i32,
        font_height: i32,
    ) -> (settings: PngSettings)
        ensures
            settings == (PngSettings {
                source: Source::StoredDigests,
                node_radius,
                x_spacing,
                y_spacing,
                padding,
                font_height,
                label_margin: 22,
                min_width: 500,
                min_height: 350,
            }),
    {
        PngSettings {
            source: Source::StoredDigests,
            node_radius,
            x_spacing,
            y_spacing,
            padding,
            font_height,
            label_margin: 22,
            min_width: 500,
            min_height: 350,
        }
    }

    /// The settings for drawing the tree over the rows of a CSV file.
    pub fn for_rows(
        node_radius: i32,
        x_spacing: i32,
        y_spacing: i32,
        padding: i32,
        font_height: i32,
    ) -> (settings: PngSettings)
        ensures
            settings == (PngSettings {
                source: Source::Rows,
                node_radius,
                x_spacing,
                y_spacing,
                padding,
                font_height,
                label_margin: 18,
                min_width: 400,
                min_height: 300,
            }),
    {
        PngSettings {
            source: Source::Rows,
            node_radius,
            x_spacing,
            y_spacing,
            padding,
            font_height,
            label_margin: 18,
            min_width: 400,
            min_height: 300,
        }
    }
}

/// How the nodes of a level are spread over the width of the canvas.
#[derive(Clone, Copy, Debug, PartialEq, Eq, Structural)]
pub enum Placement {
    /// The only node stands at `x`.
    Single { x: i32 },
    /// The nodes stand at equal distances, the first at `left` and the last at
    /// `right`.
    Spread { left: i32, right: i32 },
}

/// Where the nodes of a level stand.
#[derive(Clone, Copy, Debug, PartialEq, Eq, Structural)]
pub struct PngRow {
    /// The height of the nodes' centres, from the top.
    pub y: i32,
    /// How the nodes are spread.
    pub placement: Placement,
}

/// The size of the canvas, and the place of each level, from that of the leaves
/// to that of the root.
#[derive(Debug)]
pub struct PngLayout {
    pub width: i32,
    pub height: i32,
    pub rows: Vec<PngRow>,
}

/// Why a tree cannot be drawn.
#[derive(Clone, Copy, Debug, PartialEq, Eq, Structural)]
pub enum LayoutError {
    /// The tree has no leaves.
    NoLeaves { source: Source },
    /// Some length of the drawing is out of the range of a pixel coordinate.
    Overflow,
}

/// The message of a [`LayoutError`].
pub open spec fn layout_error_text(e: LayoutError) -> Seq<char> {
    match e {
        LayoutError::NoLeaves { source: Source::StoredDigests } => "No leaves; cannot draw PNG."@,
        LayoutError::NoLeaves { source: Source::Rows } => {
            "No rows found: CSV produced zero leaves, cannot draw Merkle tree."@
        },
        LayoutError::Overflow => "A length of the drawing is out of range."@,
    }
}

impl LayoutError {
    /// The message for the user.
    pub fn message(&self) -> (text: &'static str)
        ensures
            text@ == layout_error_text(*self),
    {
        match self {
            LayoutError::NoLeaves { source: Source::StoredDigests } => {
                "No leaves; cannot draw PNG."
            },
            LayoutError::NoLeaves { source: Source::Rows } => {
                "No rows found: CSV produced zero leaves, cannot draw Merkle tree."
            },
            LayoutError::Overflow => "A length of the drawing is out of range.",
        }
    }
}

/// `x` is in the range of a coordinate.
pub open spec fn fits(x: int) -> bool {
    i32::MIN <= x <= i32::MAX
}

/// The larger of two numbers.
pub open spec fn larger(a: int, b: int) -> int {
    if a < b {
        b
    } else {
        a
    }
}

/// The number of gaps in a row of `count` things.
pub open spec fn gaps(count: nat) -> int {
    if count == 0 {
        0
    } else {
        count - 1
    }
}

impl PngSettings {
    /// The width that `leaves` leaves take.
    pub open spec fn needed_width(&self, leaves: nat) -> int {
        self.padding * 2 + gaps(leaves) * self.x_spacing + self.node_radius * 2
    }

    /// The height that `levels` levels take.
    pub open spec fn needed_height(&self, levels: nat) -> int {
        self.padding * 2 + gaps(levels) * self.y_spacing + self.node_radius * 2 + (
        self.font_height + self.label_margin)
    }

    /// Every partial result of the width and the height of the canvas is in the
    /// range of a coordinate.
    pub open spec fn canvas_fits(&self, leaves: nat, levels: nat) -> bool {
        &&& fits(self.font_height + self.label_margin)
        &&& fits(self.padding * 2)
        &&& fits(self.node_radius * 2)
        &&& fits(gaps(leaves) * self.x_spacing)
        &&& fits(self.padding * 2 + gaps(leaves) * self.x_spacing)
        &&& fits(self.needed_width(leaves))
        &&& fits(gaps(levels) * self.y_spacing)
        &&& fits(self.padding * 2 + gaps(levels) * self.y_spacing)
        &&& fits(self.padding * 2 + gaps(levels) * self.y_spacing + self.node_radius * 2)
        &&& fits(self.needed_height(levels))
    }

    /// The number of levels that are drawn above level `lvl` of `levels`: over
    /// stored digests those below it in the tree, over rows those above it.
    pub open spec fn rows_above(&self, levels: nat, lvl: nat) -> int {
        match self.source {
            Source::StoredDigests => lvl as int,
            Source::Rows => levels - 1 - lvl,
        }
    }

    /// The height of the centres of level `lvl` of `levels`.
    pub open spec fn row_y(&self, levels: nat, lvl: nat) -> int {
        self.padding + self.rows_above(levels, lvl) * self.y_spacing + self.node_radius
    }

    /// The place of a level of `nodes` nodes on a canvas of the given width.
    pub open spec fn row_placement(&self, leaves: nat, nodes: nat, width: int) -> Placement {
        if nodes == 1 {
            Placement::Single { x: (width / 2) as i32 }
        } else {
            Placement::Spread {
                left: (self.padding + self.node_radius) as i32,
                right: (self.padding + self.node_radius + gaps(leaves) * self.x_spacing) as i32,
            }
        }
    }

    /// Every partial result of a level's place is in the range of a coordinate.
    pub open spec fn row_fits(&self, leaves: nat, levels: nat, lvl: nat, nodes: nat) -> bool {
        &&& nodes <= i32::MAX
        &&& fits(self.rows_above(levels, lvl) * self.y_spacing)
        &&& fits(self.padding + self.rows_above(levels, lvl) * self.y_spacing)
        &&& fits(self.row_y(levels, lvl))
        &&& nodes != 1 ==> {
            &&& fits(self.padding + self.node_radius)
            &&& fits(self.padding + self.node_radius + gaps(leaves) * self.x_spacing)
        }
    }

    /// Every length of the drawing of `tree` is in the range of a coordinate.
    pub open spec fn tree_fits(&self, tree: Tree) -> bool {
        let leaves = tree.levels@[0]@.len();
        &&& leaves <= i32::MAX
        &&& tree.levels@.len() <= i32::MAX
        &&& self.canvas_fits(leaves, tree.levels@.len())
        &&& forall|l: int|
            0 <= l < tree.levels@.len() ==> self.row_fits(
                leaves,
                tree.levels@.len(),
                l as nat,
                (#[trigger] tree.levels@[l])@.len(),
            )
    }

    /// `layout` is the layout of `tree`.
    pub open spec fn is_layout_of(&self, layout: PngLayout, tree: Tree) -> bool {
        let leaves = tree.levels@[0]@.len();
        let width = larger(self.needed_width(leaves), self.min_width as int);
        &&& layout.width == width
        &&& layout.height == larger(
            self.needed_height(tree.levels@.len()),
            self.min_height as int,
        )
        &&& layout.rows@.len() == tree.levels@.len()
        &&& forall|l: int|
            0 <= l < tree.levels@.len() ==> (#[trigger] layout.rows@[l]).y == self.row_y(
                tree.levels@.len(),
                l as nat,
            ) && layout.rows@[l].placement == self.row_placement(
                leaves,
                tree.levels@[l]@.len(),
                width,
            )
    }
}

/// Tells whether `x` is in the range of a coordinate.
fn in_range(x: i64) -> (res: bool)
    ensures
        res == fits(x as int),
{
    -0x8000_0000 <= x && x <= 0x7fff_ffff
}

/// The product of two numbers of 32 bits.
fn product(a: i64, b: i32) -> (res: i64)
    requires
        0 <= a <= i32::MAX,
    ensures
        res == a * b,
        -0x4000_0000_0000_0000 <= res <= 0x4000_0000_0000_0000,
{
    assert(-0x4000_0000_0000_0000 <= a * b <= 0x4000_0000_0000_0000) by (nonlinear_arith)
        requires
            0 <= a <= 0x7fff_ffff,
            -0x8000_0000 <= b <= 0x7fff_ffff,
    ;
    a * (b as i64)
}

/// The number of gaps in a row of `count` things.
fn gap_count(count: usize) -> (res: i64)
    requires
        count <= i32::MAX,
    ensures
        res == gaps(count as nat),
        0 <= res <= i32::MAX,
{
    if count == 0 {
        0
    } else {
        count as i64 - 1
    }
}

/// The size of the canvas for a tree of `levels` levels over `leaves` leaves;
/// `None` where a partial result is out of range.
pub fn canvas_size(settings: &PngSettings, leaves: usize, levels: usize) -> (size: Option<(i32, i32)>)
    requires
        leaves <= i32::MAX,
        levels <= i32::MAX,
    ensures
        match size {
            Some((width, height)) => {
                &&& settings.canvas_fits(leaves as nat, levels as nat)
                &&& width == larger(
                    settings.needed_width(leaves as nat),
                    settings.min_width as int,
                )
                &&& height == larger(
                    settings.needed_height(levels as nat),
                    settings.min_height as int,
                )
            },
            None => !settings.canvas_fits(leaves as nat, levels as nat),
        },
{
    let border: i64 = settings.padding as i64 * 2;
    let diameter: i64 = settings.node_radius as i64 * 2;
    let label: i64 = settings.font_height as i64 + settings.label_margin as i64;
    let across: i64 = product(gap_count(leaves), settings.x_spacing);
    let down: i64 = product(gap_count(levels), settings.y_spacing);
    if !in_range(label) || !in_range(border) || !in_range(diameter) || !in_range(across)
        || !in_range(border + across) || !in_range(border + across + diameter) || !in_range(down)
        || !in_range(border + down) || !in_range(border + down + diameter) || !in_range(
        border + down + diameter + label,
    ) {
        return None;
    }
    let needed_width: i32 = (border + across + diameter) as i32;
    let needed_height: i32 = (border + down + diameter + label) as i32;
    let width: i32 = if needed_width < settings.min_width {
        settings.min_width
    } else {
        needed_width
    };
    let height: i32 = if needed_height < settings.min_height {
        settings.min_height
    } else {
        needed_height
    };
    Some((width, height))
}

/// The place of level `lvl` among `levels`, with `nodes` nodes, on a canvas of the
/// given width; `None` where a partial result is out of range.
pub fn row_layout(
    settings: &PngSettings,
    leaves: usize,
    levels: usize,
    lvl: usize,
    nodes: usize,
    width: i32,
) -> (row: Option<PngRow>)
    requires
        leaves <= i32::MAX,
        lvl < levels <= i32::MAX,
        width >= 0,
    ensures
        match row {
            Some(r) => {
                &&& settings.row_fits(leaves as nat, levels as nat, lvl as nat, nodes as nat)
                &&& r.y == settings.row_y(levels as nat, lvl as nat)
                &&& r.placement == settings.row_placement(
                    leaves as nat,
                    nodes as nat,
                    width as int,
                )
            },
            None => !settings.row_fits(leaves as nat, levels as nat, lvl as nat, nodes as nat),
        },
{
    if nodes > 0x7fff_ffff {
        return None;
    }
    let above: usize = match settings.source {
        Source::StoredDigests => lvl,
        Source::Rows => levels - 1 - lvl,
    };
    let down: i64 = product(above as i64, settings.y_spacing);
    let upper: i64 = settings.padding as i64 + down;
    let y: i64 = upper + settings.node_radius as i64;
    if !in_range(down) || !in_range(upper) || !in_range(y) {
        return None;
    }
    if nodes == 1 {
        return Some(PngRow { y: y as i32, placement: Placement::Single { x: width / 2 } });
    }
    let left: i64 = settings.padding as i64 + settings.node_radius as i64;
    let right: i64 = left + product(gap_count(leaves), settings.x_spacing);
    if !in_range(left) || !in_range(right) {
        return None;
    }
    Some(
        PngRow {
            y: y as i32,
            placement: Placement::Spread { left: left as i32, right: right as i32 },
        },
    )
}

/// The layout of a drawing of `tree`. There is none of a tree without leaves, and
/// none where a length is out of range.
pub fn png_layout(tree: &Tree, settings: &PngSettings) -> (layout: Result<PngLayout, LayoutError>)
    requires
        settings.min_width >= 0,
    ensures
        match layout {
            Ok(l) => tree.levels@.len() > 0 && settings.tree_fits(*tree) && settings.is_layout_of(
                l,
                *tree,
            ),
            Err(LayoutError::NoLeaves { source }) => tree.levels@.len() == 0 && source
                == settings.source,
            Err(LayoutError::Overflow) => tree.levels@.len() > 0 && !settings.tree_fits(*tree),
        },
{
    let levels: usize = tree.levels.len();
    if levels == 0 {
        return Err(LayoutError::NoLeaves { source: settings.source });
    }
    let leaves: usize = tree.levels[0].len();
    if leaves > 0x7fff_ffff || levels > 0x7fff_ffff {
        return Err(LayoutError::Overflow);
    }
    let (width, height) = match canvas_size(settings, leaves, levels) {
        Some(size) => size,
        None => {
            return Err(LayoutError::Overflow);
        },
    };
    let mut rows: Vec<PngRow> = Vec::with_capacity(levels);
    let mut lvl: usize = 0;
    while lvl < levels
        invariant
            lvl <= levels == tree.levels@.len() <= i32::MAX,
            leaves == tree.levels@[0]@.len() <= i32::MAX,
            settings.canvas_fits(leaves as nat, levels as nat),
            width == larger(settings.needed_width(leaves as nat), settings.min_width as int),
            width >= 0,
            rows@.len() == lvl,
            forall|l: int|
                0 <= l < lvl ==> settings.row_fits(
                    leaves as nat,
                    levels as nat,
                    l as nat,
                    (#[trigger] tree.levels@[l])@.len(),
                ),
            forall|l: int|
                0 <= l < lvl ==> (#[trigger] rows@[l]).y == settings.row_y(
                    levels as nat,
                    l as nat,
                ) && rows@[l].placement == settings.row_placement(
                    leaves as nat,
                    tree.levels@[l]@.len(),
                    width as int,
                ),
        decreases levels - lvl,
    {
        match row_layout(settings, leaves, levels, lvl, tree.levels[lvl].len(), width) {
            Some(row) => {
                rows.push(row);
            },
            None => {
                return Err(LayoutError::Overflow);
            },
        }
        lvl += 1;
    }
    Ok(PngLayout { width, height, rows })
}

/// A line from node `from` of level `level` to its parent, node `to` of the next
/// level.
#[derive(Clone, Copy, Debug, PartialEq, Eq, Structural)]
pub struct Edge {
    pub level: usize,
    pub from: usize,
    pub to: usize,
}

/// The edges to node `parent` from its children among the `count` nodes of level
/// `level`: the left one and the right one, which are the same where the left one
/// is the last. None where the level has no such nodes.
pub open spec fn child_edges(level: nat, parent: nat, count: nat) -> Seq<Edge> {
    if 2 * parent >= count {
        seq![]
    } else {
        seq![
            Edge { level: level as usize, from: (2 * parent) as usize, to: parent as usize },
            Edge {
                level: level as usize,
                from: right_child(parent as int, count) as usize,
                to: parent as usize,
            },
        ]
    }
}

/// The edges to the first `k` parents of the `count` nodes of level `level`.
pub open spec fn row_edges(level: nat, k: nat, count: nat) -> Seq<Edge>
    decreases k,
{
    if k == 0 {
        seq![]
    } else {
        row_edges(level, (k - 1) as nat, count) + child_edges(level, (k - 1) as nat, count)
    }
}

/// The edges from level `l` of a tree to the next one.
pub open spec fn level_edges(tree: Tree, l: nat) -> Seq<Edge> {
    row_edges(l, tree.levels@[l as int + 1]@.len(), tree.levels@[l as int]@.len())
}

/// The edges from the first `k` levels of a tree, each to the next one.
pub open spec fn tree_edges(tree: Tree, k: nat) -> Seq<Edge>
    decreases k,
{
    if k == 0 {
        seq![]
    } else {
        tree_edges(tree, (k - 1) as nat) + level_edges(tree, (k - 1) as nat)
    }
}

/// All edges of a tree.
pub open spec fn all_edges(tree: Tree) -> Seq<Edge> {
    tree_edges(tree, gaps(tree.levels@.len()) as nat)
}

/// Appends the edges to a parent.
fn push_child_edges(edges: &mut Vec<Edge>, level: usize, parent: usize, count: usize)
    ensures
        final(edges)@ == old(edges)@ + child_edges(level as nat, parent as nat, count as nat),
{
    if parent < count && parent < count - parent {
        let left: usize = 2 * parent;
        let right: usize = if left + 1 < count {
            left + 1
        } else {
            left
        };
        edges.push(Edge { level, from: left, to: parent });
        edges.push(Edge { level, from: right, to: parent });
    }
    assert(edges@ =~= old(edges)@ + child_edges(level as nat, parent as nat, count as nat));
}

/// The lines of a drawing in the order in which they are drawn: level by level
/// from the leaves on, to each parent from its two children.
pub fn edges(tree: &Tree) -> (edges: Vec<Edge>)
    ensures
        edges@ == all_edges(*tree),
{
    let mut edges: Vec<Edge> = Vec::new();
    let levels: usize = tree.levels.len();
    if levels == 0 {
        return edges;
    }
    let mut lvl: usize = 0;
    while lvl < levels - 1
        invariant
            lvl <= levels - 1,
            levels == tree.levels@.len(),
            edges@ == tree_edges(*tree, lvl as nat),
        decreases levels - lvl,
    {
        let count: usize = tree.levels[lvl].len();
        let parents: usize = tree.levels[lvl + 1].len();
        let ghost before = edges@;
        let mut parent: usize = 0;
        assert(edges@ =~= before + row_edges(lvl as nat, 0, count as nat));
        while parent < parents
            invariant
                parent <= parents,
                edges@ == before + row_edges(lvl as nat, parent as nat, count as nat),
            decreases parents - parent,
        {
            push_child_edges(&mut edges, lvl, parent, count);
            parent += 1;
            assert(edges@ =~= before + row_edges(lvl as nat, parent as nat, count as nat));
        }
        lvl += 1;
    }
    edges
}

/// The levels of a tree over leaves halve from one to the next.
proof fn lemma_levels_halve(tree: Tree, leaves: Seq<Node>, l: int)
    requires
        tree.is_tree_of(leaves),
        0 <= l < tree.levels@.len() - 1,
    ensures
        tree.levels@[l + 1]@.len() == (tree.levels@[l]@.len() + 1) / 2,
        tree.levels@[l]@.len() <= usize::MAX,
        tree.levels@.len() <= usize::MAX,
{
    lemma_merkle_level_len(leaves, l as nat);
    lemma_merkle_level_len(leaves, (l + 1) as nat);
    assert(tree.levels@[l]@.len() == tree.levels@[l].len());
    assert(tree.levels@.len() == tree.levels.len());
}

/// Edge `j` from the `count` nodes of level `level`, where each parent has two:
/// the first from its left child, the second from its right child.
pub open spec fn nth_edge(level: nat, j: int, count: nat) -> Edge {
    let parent = j / 2;
    Edge {
        level: level as usize,
        from: (if j % 2 == 0 {
            2 * parent
        } else {
            right_child(parent, count)
        }) as usize,
        to: parent as usize,
    }
}

proof fn lemma_row_edges(level: nat, k: nat, count: nat)
    requires
        2 * k <= count + 1,
    ensures
        row_edges(level, k, count).len() == 2 * k,
        forall|j: int|
            0 <= j < 2 * k ==> #[trigger] row_edges(level, k, count)[j] == nth_edge(
                level,
                j,
                count,
            ),
    decreases k,
{
    if k > 0 {
        lemma_row_edges(level, (k - 1) as nat, count);
        let last = child_edges(level, (k - 1) as nat, count);
        assert(last[0] == nth_edge(level, 2 * k - 2, count));
        assert(last[1] == nth_edge(level, 2 * k - 1, count));
    }
}

/// In a drawing of a tree over leaves, the lines between two levels are those
/// that join each parent to its left child and to its right child, in the order
/// of the parents, and no others.
pub proof fn law_lines_join_parents_to_their_children(tree: Tree, leaves: Seq<Node>, l: int)
    requires
        tree.is_tree_of(leaves),
        0 <= l < tree.levels@.len() - 1,
    ensures
        ({
            let count = tree.levels@[l]@.len();
            let parents = tree.levels@[l + 1]@.len();
            let lines = level_edges(tree, l as nat);
            &&& lines.len() == 2 * parents
            &&& forall|j: int|
                0 <= j < 2 * parents ==> #[trigger] lines[j] == nth_edge(l as nat, j, count)
        }),
{
    lemma_levels_halve(tree, leaves, l);
    lemma_row_edges(l as nat, tree.levels@[l + 1]@.len(), tree.levels@[l]@.len());
}

/// The edges between two levels of a tree are among its edges.
proof fn lemma_level_edges_are_tree_edges(tree: Tree, l: nat, k: nat, j: int)
    requires
        l < k,
        0 <= j < level_edges(tree, l).len(),
    ensures
        tree_edges(tree, k).contains(level_edges(tree, l)[j]),
    decreases k,
{
    let row = level_edges(tree, l);
    let before = tree_edges(tree, (k - 1) as nat);
    if l + 1 == k {
        assert(tree_edges(tree, k)[before.len() + j] == row[j]);
    } else {
        lemma_level_edges_are_tree_edges(tree, l, (k - 1) as nat, j);
        let i = choose|i: int| 0 <= i < before.len() && before[i] == row[j];
        assert(tree_edges(tree, k)[i] == row[j]);
    }
}

/// The line joins a node of the tree to its parent.
pub open spec fn joins_to_parent(tree: Tree, e: Edge) -> bool {
    &&& e.level + 1 < tree.levels@.len()
    &&& e.from < tree.levels@[e.level as int]@.len()
    &&& e.to < tree.levels@[e.level + 1]@.len()
    &&& e.to == e.from / 2
}

proof fn lemma_tree_edges_join(tree: Tree, leaves: Seq<Node>, k: nat, j: int)
    requires
        tree.is_tree_of(leaves),
        k < tree.levels@.len(),
        0 <= j < tree_edges(tree, k).len(),
    ensures
        joins_to_parent(tree, tree_edges(tree, k)[j]),
    decreases k,
{
    let l = (k - 1) as nat;
    let before = tree_edges(tree, l);
    if j < before.len() {
        lemma_tree_edges_join(tree, leaves, l, j);
    } else {
        lemma_levels_halve(tree, leaves, l as int);
        law_lines_join_parents_to_their_children(tree, leaves, l as int);
        let row = level_edges(tree, l);
        assert(tree_edges(tree, k)[j] == row[j - before.len()]);
    }
}

/// In a drawing of a tree over leaves, every node but the root is joined to its
/// parent, and no line joins anything else.
pub proof fn law_every_node_is_joined_to_its_parent(tree: Tree, leaves: Seq<Node>)
    requires
        tree.is_tree_of(leaves),
    ensures
        forall|e: Edge| #[trigger] all_edges(tree).contains(e) <==> joins_to_parent(tree, e),
{
    let k = gaps(tree.levels@.len()) as nat;
    assert forall|e: Edge| #[trigger] all_edges(tree).contains(e) <==> joins_to_parent(tree, e) by {
        if all_edges(tree).contains(e) {
            let j = choose|j: int| 0 <= j < all_edges(tree).len() && all_edges(tree)[j] == e;
            lemma_tree_edges_join(tree, leaves, k, j);
        }
        if joins_to_parent(tree, e) {
            let l = e.level as nat;
            let p = e.to as int;
            lemma_levels_halve(tree, leaves, l as int);
            law_lines_join_parents_to_their_children(tree, leaves, l as int);
            let row = level_edges(tree, l);
            let j = if e.from == 2 * p {
                2 * p
            } else {
                2 * p + 1
            };
            assert(row[j] == e);
            lemma_level_edges_are_tree_edges(tree, l, k, j);
        }
    }
}

/// In a drawing over rows the root stands at the top: no level stands above it,
/// and each level stands `y_spacing` above the one before it.
pub proof fn law_root_stands_at_the_top(settings: PngSettings, levels: nat, lvl: nat)
    requires
        settings.source == Source::Rows,
        lvl < levels,
        settings.y_spacing >= 0,
    ensures
        settings.row_y(levels, (levels - 1) as nat) == settings.padding + settings.node_radius,
        settings.row_y(levels, (levels - 1) as nat) <= settings.row_y(levels, lvl),
        lvl + 1 < levels ==> settings.row_y(levels, lvl) == settings.row_y(levels, lvl + 1)
            + settings.y_spacing,
{
    lemma_rows_apart(levels - 1 - lvl, settings.y_spacing as int);
}

/// In a drawing over stored digests the leaves stand at the top: no level stands
/// above them, and each level stands `y_spacing` below the one before it.
pub proof fn law_leaves_stand_at_the_top(settings: PngSettings, levels: nat, lvl: nat)
    requires
        settings.source == Source::StoredDigests,
        lvl < levels,
        settings.y_spacing >= 0,
    ensures
        settings.row_y(levels, 0) == settings.padding + settings.node_radius,
        settings.row_y(levels, 0) <= settings.row_y(levels, lvl),
        lvl + 1 < levels ==> settings.row_y(levels, lvl + 1) == settings.row_y(levels, lvl)
            + settings.y_spacing,
{
    lemma_rows_apart(lvl as int, settings.y_spacing as int);
    lemma_rows_apart(lvl as int + 1, settings.y_spacing as int);
}

proof fn lemma_rows_apart(above: int, y_spacing: int)
    by (nonlinear_arith)
    requires
        above >= 0,
        y_spacing >= 0,
    ensures
        0 * y_spacing == 0,
        above * y_spacing >= 0,
        above * y_spacing == (above - 1) * y_spacing + y_spacing,
{
}

/// Half of a number, rounded towards zero.
pub open spec fn half(x: int) -> int {
    if x >= 0 {
        x / 2
    } else {
        -((-x) / 2)
    }
}

/// Where the label of a node at `(x, y)` starts: centred below the node as far as
/// the left border lets it, if each of its `label_len` characters is `char_width`
/// wide. `None` where a partial result is out of range.
pub fn label_origin(
    x: i32,
    y: i32,
    node_radius: i32,
    char_width: i32,
    label_len: usize,
) -> (origin: Option<(i32, i32)>)
    requires
        label_len <= i32::MAX,
    ensures
        ({
            let text_width = char_width * label_len;
            let fit = fits(text_width) && fits(x - half(text_width)) && fits(y + node_radius)
                && fits(y + node_radius + 6);
            match origin {
                Some((tx, ty)) => fit && tx == larger(x - half(text_width), 0) && ty == y
                    + node_radius + 6,
                None => !fit,
            }
        }),
{
    let text_width: i64 = product(label_len as i64, char_width);
    assert(text_width == char_width * label_len) by (nonlinear_arith)
        requires
            text_width == (label_len as i64) * char_width,
            label_len <= 0x7fff_ffff,
    ;
    let half_width: i64 = if text_width >= 0 {
        text_width / 2
    } else {
        -((-text_width) / 2)
    };
    let left: i64 = x as i64 - half_width;
    let below: i64 = y as i64 + node_radius as i64;
    if !in_range(text_width) || !in_range(left) || !in_range(below) || !in_range(below + 6) {
        return None;
    }
    let tx: i32 = if left < 0 {
        0
    } else {
        left as i32
    };
    Some((tx, (below + 6) as i32))
}

/// The numbers of a drawing: the range of a coordinate is that of 32 bits with
/// sign; of two lengths the larger one counts; `count` things in a row have one gap
/// less; half of a number is off by at most a half, towards zero.
pub proof fn law_numbers_of_a_drawing(x: int, y: int, count: nat)
    ensures
        fits(x) <==> -0x8000_0000 <= x <= 0x7fff_ffff,
        larger(x, y) >= x && larger(x, y) >= y && (larger(x, y) == x || larger(x, y) == y),
        gaps(count + 1) == count,
        gaps(0) == 0,
        x >= 0 ==> 0 <= x - 2 * half(x) <= 1,
        x <= 0 ==> -1 <= x - 2 * half(x) <= 0,
{
}

/// The canvas has the padding on both sides, the distances between the leaves and
/// between the levels, a node's radius at both ends, and below the last row the
/// space of a label. It can be made wherever these sums, taken in this order, are
/// in the range of a coordinate.
pub proof fn law_canvas_holds_the_drawing(settings: PngSettings, leaves: nat, levels: nat)
    requires
        leaves >= 1,
        levels >= 1,
    ensures
        settings.needed_width(leaves) == 2 * settings.padding + (leaves - 1) * settings.x_spacing
            + 2 * settings.node_radius,
        settings.needed_height(levels) == 2 * settings.padding + (levels - 1) * settings.y_spacing
            + 2 * settings.node_radius + settings.font_height + settings.label_margin,
        settings.canvas_fits(leaves, levels) <==> {
            let low = -0x8000_0000int;
            let high = 0x7fff_ffffint;
            let border = 2 * settings.padding;
            let nodes = 2 * settings.node_radius;
            let label = settings.font_height + settings.label_margin;
            let across = (leaves - 1) * settings.x_spacing;
            let down = (levels - 1) * settings.y_spacing;
            &&& low <= border <= high
            &&& low <= nodes <= high
            &&& low <= label <= high
            &&& low <= across <= high
            &&& low <= border + across <= high
            &&& low <= border + across + nodes <= high
            &&& low <= down <= high
            &&& low <= border + down <= high
            &&& low <= border + down + nodes <= high
            &&& low <= border + down + nodes + label <= high
        },
{
}

/// A level stands `y_spacing` below the one that is drawn before it, the first one
/// a padding and a radius below the top. A single node stands in the middle of the
/// canvas; several are spread from a padding and a radius at the left over the
/// width of all leaves. This can be told wherever the sums are in the range of a
/// coordinate.
pub proof fn law_place_of_a_level(
    settings: PngSettings,
    leaves: nat,
    levels: nat,
    lvl: nat,
    nodes: nat,
    width: int,
)
    requires
        leaves >= 1,
        lvl < levels,
        0 <= width <= i32::MAX,
    ensures
        ({
            let low = -0x8000_0000int;
            let high = 0x7fff_ffffint;
            let above = if settings.source is Rows {
                levels - 1 - lvl
            } else {
                lvl as int
            };
            let down = above * settings.y_spacing;
            let left = settings.padding + settings.node_radius;
            let right = left + (leaves - 1) * settings.x_spacing;
            &&& settings.row_y(levels, lvl) == settings.padding + down + settings.node_radius
            &&& settings.row_fits(leaves, levels, lvl, nodes) <==> {
                &&& nodes <= high
                &&& low <= down <= high
                &&& low <= settings.padding + down <= high
                &&& low <= settings.padding + down + settings.node_radius <= high
                &&& nodes == 1 || (low <= left <= high && low <= right <= high)
            }
            &&& nodes == 1 ==> (settings.row_placement(leaves, nodes, width)
                matches Placement::Single { x } && 0 <= width - 2 * x <= 1)
            &&& nodes != 1 && low <= left <= high && low <= right <= high ==> (
            settings.row_placement(leaves, nodes, width) matches Placement::Spread {
                left: first,
                right: last,
            } && first == left && last == right)
        }),
{
}

/// Where a tree is laid out, the canvas is as large as the drawing needs but no
/// smaller than the least size, and every level has its row, at its height and
/// with its nodes spread as their number asks.
pub proof fn law_layout_places_every_level(settings: PngSettings, layout: PngLayout, tree: Tree)
    requires
        tree.levels@.len() > 0,
        tree.levels@[0]@.len() > 0,
        settings.min_width >= 0,
        settings.tree_fits(tree),
        settings.is_layout_of(layout, tree),
    ensures
        ({
            let leaves = tree.levels@[0]@.len();
            let levels = tree.levels@.len();
            let width = 2 * settings.padding + (leaves - 1) * settings.x_spacing + 2
                * settings.node_radius;
            let height = 2 * settings.padding + (levels - 1) * settings.y_spacing + 2
                * settings.node_radius + settings.font_height + settings.label_margin;
            let left = settings.padding + settings.node_radius;
            &&& layout.width == if width < settings.min_width {
                settings.min_width as int
            } else {
                width
            }
            &&& layout.height == if height < settings.min_height {
                settings.min_height as int
            } else {
                height
            }
            &&& layout.rows@.len() == levels
            &&& forall|l: int|
                0 <= l < levels ==> {
                    &&& (#[trigger] layout.rows@[l]).y == left + (if settings.source is Rows {
                        levels - 1 - l
                    } else {
                        l
                    }) * settings.y_spacing
                    &&& if tree.levels@[l]@.len() == 1 {
                        layout.rows@[l].placement matches Placement::Single { x } && 0
                            <= layout.width - 2 * x <= 1
                    } else {
                        layout.rows@[l].placement matches Placement::Spread { left: first, right }
                            && first == left && right == left + (leaves - 1) * settings.x_spacing
                    }
                }
        }),
{
    let leaves = tree.levels@[0]@.len();
    let levels = tree.levels@.len();
    assert forall|l: int| 0 <= l < levels implies {
        let left = settings.padding + settings.node_radius;
        &&& (#[trigger] layout.rows@[l]).y == left + (if settings.source is Rows {
            levels - 1 - l
        } else {
            l
        }) * settings.y_spacing
        &&& if tree.levels@[l]@.len() == 1 {
            layout.rows@[l].placement matches Placement::Single { x } && 0 <= layout.width - 2 * x
                <= 1
        } else {
            layout.rows@[l].placement matches Placement::Spread { left: first, right } && first
                == left && right == left + (leaves - 1) * settings.x_spacing
        }
    } by {
        assert(settings.row_fits(leaves, levels, l as nat, tree.levels@[l]@.len()));
        law_place_of_a_level(
            settings,
            leaves,
            levels,
            l as nat,
            tree.levels@[l]@.len(),
            layout.width as int,
        );
    }
}

/// A drawing that fits is laid out: the canvas and every level of it can be told.
pub proof fn law_what_fits_is_laid_out(settings: PngSettings, tree: Tree)
    requires
        tree.levels@.len() > 0,
    ensures
        settings.tree_fits(tree) <==> {
            let leaves = tree.levels@[0]@.len();
            let levels = tree.levels@.len();
            &&& leaves <= 0x7fff_ffff
            &&& levels <= 0x7fff_ffff
            &&& settings.canvas_fits(leaves, levels)
            &&& forall|l: int|
                0 <= l < levels ==> settings.row_fits(
                    leaves,
                    levels,
                    l as nat,
                    (#[trigger] tree.levels@[l])@.len(),
                )
        },
{
}

/// The leaves stand `x_spacing` apart, from a padding and a radius at the left on:
/// of `n` leaves that are spread evenly from `left` to `right`, leaf `i` stands at
/// `left + i * x_spacing`. Where `x_spacing` is positive, no two nodes of a level
/// share a place: at equal steps from `left` to `right`, node `i` stands left of
/// node `j` wherever `i < j`.
pub proof fn law_nodes_stand_apart(
    settings: PngSettings,
    layout: PngLayout,
    tree: Tree,
    l: int,
    i: int,
    j: int,
)
    requires
        tree.levels@.len() > 0,
        tree.levels@[0]@.len() >= 2,
        settings.min_width >= 0,
        settings.tree_fits(tree),
        settings.is_layout_of(layout, tree),
        0 <= l < tree.levels@.len(),
        tree.levels@[l]@.len() >= 2,
        0 <= i < j < tree.levels@[l]@.len(),
    ensures
        layout.rows@[l].placement matches Placement::Spread { left, right } && {
            let leaves = tree.levels@[0]@.len();
            &&& left == settings.padding + settings.node_radius
            &&& right - left == (leaves - 1) * settings.x_spacing
            &&& l == 0 ==> (leaves - 1) * left + i * (right - left) == (leaves - 1) * (left + i
                * settings.x_spacing)
            &&& settings.x_spacing > 0 ==> i * (right - left) < j * (right - left)
        },
{
    law_layout_places_every_level(settings, layout, tree);
    let m = tree.levels@[0]@.len() - 1;
    let s = settings.x_spacing as int;
    let left = settings.padding + settings.node_radius;
    assert(layout.rows@[l].placement is Spread);
    assert(m * left + i * (m * s) == m * (left + i * s)) by (nonlinear_arith);
    if s > 0 {
        assert(i * (m * s) < j * (m * s)) by (nonlinear_arith)
            requires
                i < j,
                m >= 1,
                s > 0,
        ;
    }
}

proof fn lemma_row_edges_flat(level: nat, k: nat, count: nat)
    ensures
        row_edges(level, k, count) == Seq::new(
            k,
            |p: int| child_edges(level, p as nat, count),
        ).flatten(),
    decreases k,
{
    let all = Seq::new(k, |p: int| child_edges(level, p as nat, count));
    if k > 0 {
        lemma_row_edges_flat(level, (k - 1) as nat, count);
        let before = Seq::new((k - 1) as nat, |p: int| child_edges(level, p as nat, count));
        let last = child_edges(level, (k - 1) as nat, count);
        assert(all =~= before.push(last));
        before.lemma_flatten_push(last);
    }
}

proof fn lemma_tree_edges_flat(tree: Tree, k: nat)
    ensures
        tree_edges(tree, k) == Seq::new(k, |l: int| level_edges(tree, l as nat)).flatten(),
    decreases k,
{
    let all = Seq::new(k, |l: int| level_edges(tree, l as nat));
    if k > 0 {
        lemma_tree_edges_flat(tree, (k - 1) as nat);
        let before = Seq::new((k - 1) as nat, |l: int| level_edges(tree, l as nat));
        let last = level_edges(tree, (k - 1) as nat);
        assert(all =~= before.push(last));
        before.lemma_flatten_push(last);
    }
}

/// All lines of a drawing of a tree over leaves: for each level but that of the
/// root, and for each node `p` of the next level, in their order, the line from
/// node `2p` and the line from node `2p + 1`, or from node `2p` again where that is
/// the last.
pub proof fn law_all_lines_of_a_drawing(tree: Tree, leaves: Seq<Node>)
    requires
        tree.is_tree_of(leaves),
        leaves.len() > 0,
    ensures
        all_edges(tree) == Seq::new(
            (tree.levels@.len() - 1) as nat,
            |l: int|
                Seq::new(
                    tree.levels@[l + 1]@.len(),
                    |p: int|
                        seq![
                            Edge { level: l as usize, from: (2 * p) as usize, to: p as usize },
                            Edge {
                                level: l as usize,
                                from: (if 2 * p + 1 < tree.levels@[l]@.len() {
                                    2 * p + 1
                                } else {
                                    2 * p
                                }) as usize,
                                to: p as usize,
                            },
                        ],
                ).flatten(),
        ).flatten(),
{
    let k = (tree.levels@.len() - 1) as nat;
    lemma_tree_edges_flat(tree, k);
    let by_level = Seq::new(k, |l: int| level_edges(tree, l as nat));
    let written_out = Seq::new(
        k,
        |l: int|
            Seq::new(
                tree.levels@[l + 1]@.len(),
                |p: int|
                    seq![
                        Edge { level: l as usize, from: (2 * p) as usize, to: p as usize },
                        Edge {
                            level: l as usize,
                            from: (if 2 * p + 1 < tree.levels@[l]@.len() {
                                2 * p + 1
                            } else {
                                2 * p
                            }) as usize,
                            to: p as usize,
                        },
                    ],
            ).flatten(),
    );
    assert forall|l: int| 0 <= l < k implies #[trigger] by_level[l] == written_out[l] by {
        let count = tree.levels@[l]@.len();
        let parents = tree.levels@[l + 1]@.len();
        lemma_levels_halve(tree, leaves, l);
        lemma_row_edges_flat(l as nat, parents, count);
        let a = Seq::new(parents, |p: int| child_edges(l as nat, p as nat, count));
        let b = Seq::new(
            parents,
            |p: int|
                seq![
                    Edge { level: l as usize, from: (2 * p) as usize, to: p as usize },
                    Edge {
                        level: l as usize,
                        from: (if 2 * p + 1 < tree.levels@[l]@.len() {
                            2 * p + 1
                        } else {
                            2 * p
                        }) as usize,
                        to: p as usize,
                    },
                ],
        );
        assert forall|p: int| 0 <= p < parents implies #[trigger] a[p] == b[p] by {
            assert(a[p] =~= b[p]);
        }
        assert(a =~= b);
    }
    assert(by_level =~= written_out);
}

/// The lines to a node `p` from the `count` nodes of the level before, in any tree:
/// none where that level has no node `2p`, otherwise two, from node `2p` and from
/// the node behind it or, where there is none, from node `2p` again. The lines of a
/// level are those to the nodes of the next one, in their order, and the lines of
/// the tree those of its levels, from the lowest on.
pub proof fn law_lines_of_any_tree(tree: Tree, l: nat, p: nat, count: nat)
    requires
        tree.levels@.len() > 0,
    ensures
        2 * p >= count ==> child_edges(l, p, count).len() == 0,
        2 * p < count ==> child_edges(l, p, count) == seq![
            Edge { level: l as usize, from: (2 * p) as usize, to: p as usize },
            Edge {
                level: l as usize,
                from: (if 2 * p + 1 < count {
                    2 * p + 1
                } else {
                    2 * p
                }) as usize,
                to: p as usize,
            },
        ],
        level_edges(tree, l) == Seq::new(
            tree.levels@[l as int + 1]@.len(),
            |i: int| child_edges(l, i as nat, tree.levels@[l as int]@.len()),
        ).flatten(),
        all_edges(tree) == Seq::new(
            (tree.levels@.len() - 1) as nat,
            |k: int| level_edges(tree, k as nat),
        ).flatten(),
{
    lemma_row_edges_flat(l, tree.levels@[l as int + 1]@.len(), tree.levels@[l as int]@.len());
    lemma_tree_edges_flat(tree, (tree.levels@.len() - 1) as nat);
    if 2 * p < count {
        assert(child_edges(l, p, count) =~= seq![
            Edge { level: l as usize, from: (2 * p) as usize, to: p as usize },
            Edge {
                level: l as usize,
                from: (if 2 * p + 1 < count {
                    2 * p + 1
                } else {
                    2 * p
                }) as usize,
                to: p as usize,
            },
        ]);
    }
}

/// What is told of a tree that cannot be drawn.
pub proof fn law_messages_of_a_drawing()
    ensures
        layout_error_text(LayoutError::NoLeaves { source: Source::StoredDigests })
            == "No leaves; cannot draw PNG."@,
        layout_error_text(LayoutError::NoLeaves { source: Source::Rows })
            == "No rows found: CSV produced zero leaves, cannot draw Merkle tree."@,
{
}

} // verus!
