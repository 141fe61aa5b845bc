//! Splitting tiles and closing them again.

use wm::attach_to_tile::{attach_to_tile, split_direction};
use wm::detach_tile::{detach_tile, split_partner};
use wm::layout::{rect_of, tile_split_direction, PositionGetters, TilingContainer};
use wm::rect::Rect;
use wm::tree::{
    ContainerKind, ContainerSpec, ContainerTree, InnerGaps, TilingDirection, TreeError, FULL_SIZE,
};

const NO_GAPS: InnerGaps = InnerGaps { horizontal: 0, vertical: 0 };

const WORKSPACE: u128 = 1;

fn spec(kind: ContainerKind) -> ContainerSpec {
    ContainerSpec {
        kind,
        direction: TilingDirection::Horizontal,
        inner_gaps: NO_GAPS,
        min_width: 0,
        min_height: 0,
        area: Rect::from_xy(0, 0, 1000, 600),
    }
}

/// A tree with an empty horizontal workspace.
fn workspace() -> ContainerTree {
    let mut tree = ContainerTree::new();
    tree.add_container(WORKSPACE, spec(ContainerKind::Workspace));
    tree
}

/// Adds a detached tiling window.
fn window(tree: &mut ContainerTree, id: u128) {
    tree.add_container(id, spec(ContainerKind::TilingWindow));
}

/// Asserts the tiling sizes of `parent`'s tiling children, in order.
fn assert_sizes(tree: &ContainerTree, parent: u128, expected: &[f32]) {
    let sizes: Vec<f32> = tree
        .tiling_children(parent)
        .iter()
        .map(|child| tree.node(*child).tiling_size as f32 / FULL_SIZE as f32)
        .collect();

    assert_eq!(sizes.len(), expected.len(), "sizes: {sizes:?}");

    for (size, expected) in sizes.iter().zip(expected) {
        assert!((size - expected).abs() < 0.0001, "sizes: {sizes:?}, expected: {expected:?}");
    }
}

/// A workspace holding `sizes.len()` windows with those tiling sizes.
fn row(sizes: &[f32]) -> (ContainerTree, Vec<u128>) {
    let mut tree = workspace();
    let windows: Vec<u128> = (0..sizes.len()).map(|i| 10 + i as u128).collect();
    for id in &windows {
        window(&mut tree, *id);
        tree.attach_container(*id, WORKSPACE);
    }

    // Sized after every attach, since each attach re-divides the row.
    for (id, &size) in windows.iter().zip(sizes) {
        tree.set_tiling_size(*id, (size * FULL_SIZE as f32) as u32);
    }

    (tree, windows)
}

#[test]
fn alone_tile_joins_its_container_at_half() {
    let mut tree = workspace();
    window(&mut tree, 10);
    tree.attach_container(10, WORKSPACE);

    window(&mut tree, 11);
    attach_to_tile(&mut tree, 11, 10, TilingDirection::Vertical, NO_GAPS, 99).unwrap();

    assert_eq!(tree.node(WORKSPACE).children.len(), 2);
    assert!(tree
        .node(WORKSPACE)
        .children
        .iter()
        .all(|child| tree.node(*child).info.kind == ContainerKind::TilingWindow));
    assert_sizes(&tree, WORKSPACE, &[0.5, 0.5]);
    assert!(!tree.contains(99));
}

#[test]
fn same_direction_halves_the_tile_only() {
    let mut tree = workspace();
    window(&mut tree, 10);
    window(&mut tree, 11);
    tree.attach_container(10, WORKSPACE);
    tree.attach_container(11, WORKSPACE);

    window(&mut tree, 12);
    attach_to_tile(&mut tree, 12, 11, TilingDirection::Horizontal, NO_GAPS, 99).unwrap();

    assert_eq!(tree.node(WORKSPACE).children, vec![10, 11, 12]);
    assert_sizes(&tree, WORKSPACE, &[0.5, 0.25, 0.25]);
}

#[test]
fn cross_direction_wraps_the_tile() {
    let mut tree = workspace();
    window(&mut tree, 10);
    window(&mut tree, 11);
    tree.attach_container(10, WORKSPACE);
    tree.attach_container(11, WORKSPACE);

    window(&mut tree, 12);
    attach_to_tile(&mut tree, 12, 11, TilingDirection::Vertical, NO_GAPS, 99).unwrap();

    assert_sizes(&tree, WORKSPACE, &[0.5, 0.5]);

    let split = tree.node(WORKSPACE).children[1];
    assert_eq!(split, 99);
    assert_eq!(tree.node(split).info.kind, ContainerKind::Split, "The tile was wrapped in a split.");
    assert_eq!(tree.node(split).info.direction, TilingDirection::Vertical);
    assert_eq!(tree.node(split).children, vec![11, 12]);
    assert_sizes(&tree, split, &[0.5, 0.5]);
}

#[test]
fn split_runs_across_the_longer_side() {
    let wide = Rect::from_xy(0, 0, 1705, 1380);
    let tall = Rect::from_xy(0, 0, 852, 1380);
    let square = Rect::from_xy(0, 0, 900, 900);

    assert_eq!(split_direction(&wide, TilingDirection::Vertical), TilingDirection::Horizontal);
    assert_eq!(split_direction(&tall, TilingDirection::Horizontal), TilingDirection::Vertical);
    assert_eq!(split_direction(&square, TilingDirection::Vertical), TilingDirection::Vertical);
}

#[test]
fn closing_a_half_restores_its_partner() {
    let (mut tree, windows) = row(&[0.5, 0.25, 0.25]);

    detach_tile(&mut tree, windows[2]).unwrap();

    assert_sizes(&tree, WORKSPACE, &[0.5, 0.5]);
}

#[test]
fn closing_the_first_half_restores_the_next() {
    let (mut tree, windows) = row(&[0.25, 0.25, 0.5]);

    detach_tile(&mut tree, windows[0]).unwrap();

    assert_sizes(&tree, WORKSPACE, &[0.5, 0.5]);
}

#[test]
fn closing_an_unpaired_tile_shares_out() {
    let (mut tree, windows) = row(&[0.25, 0.25, 0.5]);

    detach_tile(&mut tree, windows[2]).unwrap();

    assert_sizes(&tree, WORKSPACE, &[0.5, 0.5]);
}

#[test]
fn two_matching_neighbours_share_out() {
    let third = 1.0 / 3.0;
    let (mut tree, windows) = row(&[third, third, third]);

    detach_tile(&mut tree, windows[1]).unwrap();

    assert_sizes(&tree, WORKSPACE, &[0.5, 0.5]);
}

#[test]
fn plain_detaching_shares_out_in_proportion() {
    let (mut tree, windows) = row(&[0.5, 0.25, 0.25]);

    tree.detach_container(windows[2]).unwrap();

    assert_sizes(&tree, WORKSPACE, &[2.0 / 3.0, 1.0 / 3.0]);
}

#[test]
fn attaching_shares_a_row_evenly() {
    let (mut tree, _) = row(&[0.5, 0.5]);
    window(&mut tree, 20);
    tree.attach_container(20, WORKSPACE);

    assert_sizes(&tree, WORKSPACE, &[1.0 / 3.0, 1.0 / 3.0, 1.0 / 3.0]);
}

#[test]
fn a_small_tile_is_halved_too() {
    let (mut tree, windows) = row(&[0.985, 0.015]);
    window(&mut tree, 20);
    attach_to_tile(&mut tree, 20, windows[1], TilingDirection::Horizontal, NO_GAPS, 99).unwrap();

    assert_eq!(tree.node(WORKSPACE).children, vec![windows[0], windows[1], 20]);
    assert!(!tree.contains(99));
    assert_sizes(&tree, WORKSPACE, &[0.985, 0.0075, 0.0075]);
}

#[test]
fn a_tile_without_a_parent_is_not_split() {
    let mut tree = workspace();
    window(&mut tree, 10);
    window(&mut tree, 11);
    assert_eq!(
        attach_to_tile(&mut tree, 11, 10, TilingDirection::Vertical, NO_GAPS, 99),
        Err(TreeError::NoDirectionContainer)
    );
    assert_eq!(tile_split_direction(&tree, 10), Err(TreeError::NoDirectionContainer));
}

#[test]
fn a_sibling_that_does_not_tile_is_refused() {
    let (mut tree, windows) = row(&[0.5, 0.5]);
    tree.add_container(20, spec(ContainerKind::NonTilingWindow));
    assert_eq!(
        attach_to_tile(&mut tree, 20, windows[0], TilingDirection::Horizontal, NO_GAPS, 99),
        Err(TreeError::NotTiling)
    );
}

#[test]
fn a_container_without_a_parent_is_not_detached() {
    let mut tree = workspace();
    window(&mut tree, 10);
    assert_eq!(detach_tile(&mut tree, 10), Err(TreeError::NoParent));
}

#[test]
fn closing_what_split_a_tile_undoes_the_split() {
    let (mut tree, windows) = row(&[0.5, 0.375, 0.125]);
    window(&mut tree, 20);
    attach_to_tile(&mut tree, 20, windows[1], TilingDirection::Horizontal, NO_GAPS, 99).unwrap();
    assert_sizes(&tree, WORKSPACE, &[0.5, 0.1875, 0.1875, 0.125]);

    detach_tile(&mut tree, 20).unwrap();
    assert_sizes(&tree, WORKSPACE, &[0.5, 0.375, 0.125]);
    assert_eq!(tree.node(WORKSPACE).children, windows);
}

#[test]
fn partners_match_within_a_thousandth() {
    let (tree, windows) = row(&[0.25, 0.2505, 0.4995]);
    assert_eq!(split_partner(&tree, windows[0]), Some(windows[1]));
    assert_eq!(split_partner(&tree, windows[2]), None);

    let (tree, windows) = row(&[0.25, 0.252, 0.498]);
    assert_eq!(split_partner(&tree, windows[0]), None);

    let (tree, windows) = row(&[0.25, 0.25, 0.25, 0.25]);
    assert_eq!(split_partner(&tree, windows[1]), None);
    assert_eq!(split_partner(&tree, windows[0]), Some(windows[1]));
}

#[test]
fn tiles_lie_side_by_side_with_gaps() {
    let mut tree = workspace();
    for id in [10, 11] {
        tree.add_container(
            id,
            ContainerSpec {
                inner_gaps: InnerGaps { horizontal: 20, vertical: 8 },
                ..spec(ContainerKind::TilingWindow)
            },
        );
        tree.attach_container(id, WORKSPACE);
    }

    assert_eq!(rect_of(&tree, WORKSPACE), Ok(Rect::from_xy(0, 0, 1000, 600)));
    let first = TilingContainer { tree: &tree, id: 10 };
    let second = TilingContainer { tree: &tree, id: 11 };
    assert_eq!(first.to_rect(), Ok(Rect::from_xy(0, 0, 490, 600)));
    assert_eq!(second.to_rect(), Ok(Rect::from_xy(510, 0, 490, 600)));
    assert_eq!(tile_split_direction(&tree, 10), Ok(TilingDirection::Vertical));
}

#[test]
fn a_floor_pushes_the_next_tile_along() {
    let mut tree = workspace();
    tree.add_container(
        10,
        ContainerSpec { min_width: 700, ..spec(ContainerKind::TilingWindow) },
    );
    tree.attach_container(10, WORKSPACE);
    window(&mut tree, 11);
    tree.attach_container(11, WORKSPACE);

    assert_eq!(rect_of(&tree, 10), Ok(Rect::from_xy(0, 0, 700, 600)));
    assert_eq!(rect_of(&tree, 11), Ok(Rect::from_xy(700, 0, 300, 600)));
    assert_eq!(tile_split_direction(&tree, 10), Ok(TilingDirection::Horizontal));
}

#[test]
fn nested_tiles_divide_their_split() {
    let (mut tree, windows) = row(&[0.5, 0.5]);
    window(&mut tree, 20);
    attach_to_tile(&mut tree, 20, windows[1], TilingDirection::Vertical, NO_GAPS, 99).unwrap();

    assert_eq!(rect_of(&tree, 99), Ok(Rect::from_xy(500, 0, 500, 600)));
    assert_eq!(rect_of(&tree, windows[1]), Ok(Rect::from_xy(500, 0, 500, 300)));
    assert_eq!(rect_of(&tree, 20), Ok(Rect::from_xy(500, 300, 500, 300)));
}

#[test]
fn rectangles_join_and_crop() {
    let a = Rect::from_xy(0, 0, 100, 50);
    let b = Rect::from_xy(80, 20, 100, 100);
    assert_eq!(a.union(&b), Rect::from_xy(0, 0, 180, 120));
    assert_eq!(a.crop(&b), Rect::from_xy(80, 20, 20, 30));
    assert_eq!(a.flip_y(200), Rect::from_xy(0, 150, 100, 50));
    assert_eq!(a.translate_to_coordinates(-5, 7), Rect::from_xy(-5, 7, 100, 50));
}

/// What the tiling sizes of a row add up to.
fn total(tree: &ContainerTree) -> u64 {
    tree.tiling_children(WORKSPACE)
        .iter()
        .map(|child| u64::from(tree.node(*child).tiling_size))
        .sum()
}

#[test]
fn closing_one_of_a_pair_restores_the_other() {
    let (mut tree, windows) = row(&[0.5, 0.5]);
    window(&mut tree, 20);
    attach_to_tile(&mut tree, 20, windows[1], TilingDirection::Vertical, NO_GAPS, 99).unwrap();

    detach_tile(&mut tree, 20).unwrap();
    assert_eq!(tree.node(99).children, vec![windows[1]]);
    assert_sizes(&tree, 99, &[1.0]);
    assert_sizes(&tree, WORKSPACE, &[0.5, 0.5]);

    // What the pair leaves behind is joined again, whichever way it runs.
    window(&mut tree, 21);
    attach_to_tile(&mut tree, 21, windows[1], TilingDirection::Horizontal, NO_GAPS, 98).unwrap();
    assert_eq!(tree.node(99).children, vec![windows[1], 21]);
    detach_tile(&mut tree, windows[1]).unwrap();
    assert_eq!(tree.node(99).children, vec![21]);
    assert_sizes(&tree, 99, &[1.0]);
}

#[test]
fn rows_keep_their_total() {
    let (mut tree, windows) = row(&[0.5, 0.375, 0.125]);
    assert_eq!(total(&tree), u64::from(FULL_SIZE));

    window(&mut tree, 20);
    attach_to_tile(&mut tree, 20, windows[0], TilingDirection::Horizontal, NO_GAPS, 99).unwrap();
    assert_eq!(total(&tree), u64::from(FULL_SIZE));

    detach_tile(&mut tree, windows[2]).unwrap();
    assert!(total(&tree) > u64::from(FULL_SIZE) - 3 && total(&tree) <= u64::from(FULL_SIZE));

    window(&mut tree, 21);
    tree.attach_container(21, WORKSPACE);
    assert_eq!(tree.node(21).tiling_size, FULL_SIZE / 4);
    assert!(total(&tree) >= u64::from(FULL_SIZE) - 3 && total(&tree) <= u64::from(FULL_SIZE));
}

#[test]
fn an_odd_unit_stays_with_the_tile() {
    let (mut tree, windows) = row(&[0.5, 0.5]);
    tree.set_tiling_size(windows[0], FULL_SIZE / 2 + 1);
    window(&mut tree, 20);
    attach_to_tile(&mut tree, 20, windows[0], TilingDirection::Horizontal, NO_GAPS, 99).unwrap();
    assert_eq!(tree.node(windows[0]).tiling_size, FULL_SIZE / 4 + 1);
    assert_eq!(tree.node(20).tiling_size, FULL_SIZE / 4);
}

#[test]
fn rows_beyond_the_range_of_a_size_can_be_closed() {
    // Together the sizes are out of range, but the pair is not.
    let (mut tree, windows) = row(&[0.5, 0.25, 0.25]);
    tree.set_tiling_size(windows[0], u32::MAX);
    detach_tile(&mut tree, windows[2]).unwrap();
    assert_eq!(tree.node(windows[0]).tiling_size, u32::MAX);
    assert_eq!(tree.node(windows[1]).tiling_size, FULL_SIZE / 2);
}
