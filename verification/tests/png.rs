use csv_verify::png::{
    canvas_size, edges, label_origin, png_layout, row_layout, Edge, LayoutError, Placement, PngRow,
    PngSettings, Source,
};
use csv_verify::{build_tree_from_leaves, sha256, Node, Tree};

fn tree_over(n: u8) -> Tree {
    let leaves: Vec<Node> = (0..n).map(|i| Node { hash: sha256(&[i]) }).collect();
    build_tree_from_leaves(leaves)
}

fn default_settings() -> PngSettings {
    PngSettings::for_stored_digests(10, 56, 110, 40, 16)
}

#[test]
fn small_trees_get_the_least_width() {
    let layout = png_layout(&tree_over(3), &default_settings()).unwrap();
    assert_eq!(layout.width, 500);
    assert_eq!(layout.height, 358);
    let layout = png_layout(&tree_over(3), &PngSettings::for_rows(10, 56, 110, 40, 16)).unwrap();
    assert_eq!(layout.width, 400);
    assert_eq!(layout.height, 354);
    let layout = png_layout(&tree_over(1), &default_settings()).unwrap();
    assert_eq!((layout.width, layout.height), (500, 350));
}

#[test]
fn wide_trees_take_their_width() {
    let layout = png_layout(&tree_over(20), &default_settings()).unwrap();
    assert_eq!(layout.width, 80 + 19 * 56 + 20);
    assert_eq!(layout.height, 80 + 5 * 110 + 20 + 38);
}

#[test]
fn over_rows_the_root_stands_at_the_top() {
    let layout = png_layout(&tree_over(3), &PngSettings::for_rows(10, 56, 110, 40, 16)).unwrap();
    assert_eq!(
        layout.rows,
        vec![
            PngRow { y: 270, placement: Placement::Spread { left: 50, right: 162 } },
            PngRow { y: 160, placement: Placement::Spread { left: 50, right: 162 } },
            PngRow { y: 50, placement: Placement::Single { x: 200 } },
        ]
    );
    let layout = png_layout(&tree_over(2), &PngSettings::for_rows(10, 400, 200, 40, 16)).unwrap();
    assert_eq!(layout.width, 500);
    assert_eq!(
        layout.rows,
        vec![
            PngRow { y: 250, placement: Placement::Spread { left: 50, right: 450 } },
            PngRow { y: 50, placement: Placement::Single { x: 250 } },
        ]
    );
}

#[test]
fn over_stored_digests_the_leaves_stand_at_the_top() {
    let layout = png_layout(&tree_over(3), &default_settings()).unwrap();
    assert_eq!(
        layout.rows,
        vec![
            PngRow { y: 50, placement: Placement::Spread { left: 50, right: 162 } },
            PngRow { y: 160, placement: Placement::Spread { left: 50, right: 162 } },
            PngRow { y: 270, placement: Placement::Single { x: 250 } },
        ]
    );
    let settings = PngSettings::for_stored_digests(10, 400, 200, 40, 16);
    let layout = png_layout(&tree_over(2), &settings).unwrap();
    assert_eq!(layout.width, 500);
    assert_eq!(
        layout.rows,
        vec![
            PngRow { y: 50, placement: Placement::Spread { left: 50, right: 450 } },
            PngRow { y: 250, placement: Placement::Single { x: 250 } },
        ]
    );
}

#[test]
fn lengths_out_of_range_are_told() {
    let tree = tree_over(3);
    let settings = default_settings();
    let cases = [
        PngSettings { x_spacing: i32::MAX, ..settings },
        PngSettings { y_spacing: i32::MIN, ..settings },
        PngSettings { padding: i32::MAX, ..settings },
        PngSettings { node_radius: i32::MAX / 2 + 1, ..settings },
        PngSettings { font_height: i32::MAX, ..settings },
    ];
    for case in cases {
        assert_eq!(png_layout(&tree, &case).err(), Some(LayoutError::Overflow));
    }
    assert_eq!(canvas_size(&settings, 3, 3), Some((500, 358)));
    assert_eq!(canvas_size(&cases[0], 3, 3), None);
}

#[test]
fn a_row_out_of_range_is_told() {
    let settings = default_settings();
    let rows = PngSettings::for_rows(10, 56, 110, 40, 16);
    assert_eq!(row_layout(&settings, 3, 30_000_001, 30_000_000, 1, 500), None);
    assert_eq!(row_layout(&rows, 3, 30_000_001, 0, 1, 500), None);
    let single = |y| Some(PngRow { y, placement: Placement::Single { x: 250 } });
    assert_eq!(row_layout(&settings, 3, 3, 2, 1, 501), single(270));
    assert_eq!(row_layout(&settings, 3, 30_000_001, 0, 1, 501), single(50));
    assert_eq!(row_layout(&rows, 3, 3, 2, 1, 501), single(50));
    assert_eq!(row_layout(&rows, 3, 3, 0, 1, 501), single(270));
}

#[test]
fn there_is_no_layout_without_leaves() {
    let stored = png_layout(&tree_over(0), &default_settings()).unwrap_err();
    assert_eq!(stored, LayoutError::NoLeaves { source: Source::StoredDigests });
    assert_eq!(stored.message(), "No leaves; cannot draw PNG.");
    let rows = png_layout(&tree_over(0), &PngSettings::for_rows(10, 56, 110, 40, 16)).unwrap_err();
    assert_eq!(rows, LayoutError::NoLeaves { source: Source::Rows });
    assert_eq!(
        rows.message(),
        "No rows found: CSV produced zero leaves, cannot draw Merkle tree."
    );
    assert_eq!(LayoutError::Overflow.message(), "A length of the drawing is out of range.");
}

#[test]
fn edges_join_each_parent_to_its_children() {
    let e = |level, from, to| Edge { level, from, to };
    assert_eq!(edges(&tree_over(0)), vec![]);
    assert_eq!(edges(&tree_over(1)), vec![]);
    assert_eq!(edges(&tree_over(2)), vec![e(0, 0, 0), e(0, 1, 0)]);
    assert_eq!(
        edges(&tree_over(3)),
        vec![e(0, 0, 0), e(0, 1, 0), e(0, 2, 1), e(0, 2, 1), e(1, 0, 0), e(1, 1, 0)]
    );
    assert_eq!(
        edges(&tree_over(5)),
        vec![
            e(0, 0, 0),
            e(0, 1, 0),
            e(0, 2, 1),
            e(0, 3, 1),
            e(0, 4, 2),
            e(0, 4, 2),
            e(1, 0, 0),
            e(1, 1, 0),
            e(1, 2, 1),
            e(1, 2, 1),
            e(2, 0, 0),
            e(2, 1, 0),
        ]
    );
}

#[test]
fn every_node_is_joined_to_its_parent() {
    for n in 0..40u8 {
        let tree = tree_over(n);
        let lines = edges(&tree);
        for line in &lines {
            assert_eq!(line.to, line.from / 2);
            assert!(line.from < tree.levels[line.level].len());
            assert!(line.to < tree.levels[line.level + 1].len());
        }
        for level in 0..tree.levels.len().saturating_sub(1) {
            for from in 0..tree.levels[level].len() {
                assert!(lines.contains(&Edge { level, from, to: from / 2 }));
            }
        }
    }
}

#[test]
fn labels_are_centred_below_their_node() {
    assert_eq!(label_origin(250, 50, 10, 9, 10), Some((205, 66)));
    assert_eq!(label_origin(250, 50, 10, 9, 11), Some((201, 66)));
    assert_eq!(label_origin(20, 50, 10, 9, 10), Some((0, 66)));
    assert_eq!(label_origin(20, 50, 10, -3, 3), Some((24, 66)));
    assert_eq!(label_origin(20, i32::MAX - 12, 10, 9, 10), None);
    assert_eq!(label_origin(0, 0, 0, i32::MAX, 2), None);
}
