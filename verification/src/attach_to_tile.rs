//! Giving a new container half of a tile's space.

use vstd::prelude::*;

use crate::rect::Rect;
use crate::tree;
use crate::tree::{
    ContainerKind, ContainerSpec, ContainerTree, InnerGaps, Nodes, TilingDirection, TreeError,
};

verus! {

/// The parent of `tile`, if it has one that lays out its children in a
/// direction.
pub open spec fn direction_parent(t: Nodes, tile: u128) -> Option<u128> {
    match t[tile].parent {
        Some(parent) => if t[parent].directs() {
            Some(parent)
        } else {
            None
        },
        None => None,
    }
}

/// A new split container.
pub open spec fn split_info(direction: TilingDirection, gaps: InnerGaps) -> ContainerSpec {
    ContainerSpec {
        kind: ContainerKind::Split,
        direction,
        inner_gaps: gaps,
        min_width: 0,
        min_height: 0,
        area: Rect { left: 0, top: 0, right: 0, bottom: 0 },
    }
}

/// How a tile makes room for a new container.
pub enum Placement {
    /// The tile is alone in `parent`, which the container joins.
    Join { parent: u128 },
    /// The container becomes the tile's next sibling.
    Beside { parent: u128 },
    /// The tile is wrapped in a split, which the container joins.
    Wrap { parent: u128 },
    /// There is nowhere to put the container.
    Nowhere,
}

/// How `tile` makes room for a container that splits it in `direction`.
pub open spec fn placement(
    t: Nodes,
    tile: u128,
    direction: TilingDirection,
) -> Placement {
    match direction_parent(t, tile) {
        None => Placement::Nowhere,
        Some(parent) => if tree::row(t, parent) == seq![tile] {
            Placement::Join { parent }
        } else if direction == t[parent].info.direction {
            Placement::Beside { parent }
        } else {
            Placement::Wrap { parent }
        },
    }
}

/// The tree once `tile` has been halved and `child` put after it. Where the
/// tile's size is an odd number of units, the tile keeps the odd one.
pub open spec fn halved(t: Nodes, child: u128, tile: u128, parent: u128) -> Nodes {
    let size = t[tile].tiling_size;
    let beside = tree::resized(
        tree::inserted(t, child, parent, t[parent].children.index_of(tile) + 1),
        tile,
        (size - size / 2) as u32,
    );
    if t[child].tiles() {
        tree::resized(beside, child, (size / 2) as u32)
    } else {
        beside
    }
}

/// The tree after `child` has been attached beside `tile`.
pub open spec fn attached_to_tile(
    t: Nodes,
    child: u128,
    tile: u128,
    direction: TilingDirection,
    gaps: InnerGaps,
    split: u128,
) -> Nodes {
    match placement(t, tile, direction) {
        Placement::Nowhere => t,
        Placement::Join { parent } => tree::attached(t, child, parent),
        Placement::Beside { parent } => halved(t, child, tile, parent),
        Placement::Wrap { parent } => tree::attached(
            tree::wrapped(t, tile, split, split_info(direction, gaps)),
            child,
            split,
        ),
    }
}

/// Attaches `child` beside `tile`, giving each half of the tile's space.
///
/// Only the tile is split; its siblings keep their sizes. Where the split runs
/// the way the tile's parent already does, `child` becomes the tile's next
/// sibling; otherwise the tile is first wrapped in the new split container
/// `split` running that way.
///
/// A tile alone in its container joins it instead, at half, whichever way that
/// container runs: a container of one is also what a closed pair leaves behind.
///
/// A `child` that does not tile is refused only where it would be the tile's
/// sibling, and only after it has become one and the tile has been halved.
pub fn attach_to_tile(
    tree: &mut ContainerTree,
    child: u128,
    tile: u128,
    direction: TilingDirection,
    gaps: InnerGaps,
    split: u128,
) -> (result: Result<(), TreeError>)
    requires
        old(tree).wf(),
        old(tree)@.contains_key(child),
        old(tree)@.contains_key(tile),
        old(tree)@[tile].tiles(),
        old(tree)@[child].parent is None,
        !old(tree)@.contains_key(split),
        old(tree)@[tile].parent is Some ==> tree::apart(
            old(tree)@,
            child,
            old(tree)@[tile].parent->0,
        ),
    ensures
        final(tree).wf(),
        final(tree)@ == attached_to_tile(
            old(tree)@,
            child,
            tile,
            direction,
            gaps,
            split,
        ),
        result == (match placement(old(tree)@, tile, direction) {
            Placement::Nowhere => Err::<(), TreeError>(TreeError::NoDirectionContainer),
            Placement::Beside { .. } => if old(tree)@[child].tiles() {
                Ok::<(), TreeError>(())
            } else {
                Err::<(), TreeError>(TreeError::NotTiling)
            },
            _ => Ok::<(), TreeError>(()),
        }),
        placement(old(tree)@, tile, direction) is Wrap ==> {
            let info = final(tree)@[split].info;
            &&& info.kind is Split
            &&& info.direction == direction
            &&& info.inner_gaps == gaps
        },
{
    let ghost t = tree@;
    let parent: u128 = match tree.node(tile).parent {
        Some(parent) => parent,
        None => return Err(TreeError::NoDirectionContainer),
    };
    assert(t[tile].parent == Some(parent));
    assert(t.contains_key(parent) && t[parent].children.contains(tile));
    if !tree.node(parent).info.kind.is_direction_container() {
        return Err(TreeError::NoDirectionContainer);
    }
    let tiles: Vec<u128> = tree.tiling_children(parent);
    proof {
        tree::lemma_tiling_members(t, t[parent].children);
        assert(tiles@.contains(tile));
        if tiles@.len() == 1 {
            assert(tiles@ =~= seq![tile]);
        }
    }
    if tiles.len() == 1 {
        tree.attach_container(child, parent);
        return Ok(());
    }
    let size: u32 = tree.node(tile).tiling_size;
    let half: u32 = size / 2;
    if direction == tree.node(parent).info.direction {
        let index: usize = tree.child_index(tile);
        tree.insert_container(child, parent, index + 1);
        tree.set_tiling_size(tile, size - half);
        if !tree.node(child).info.kind.is_tiling() {
            return Err(TreeError::NotTiling);
        }
        tree.set_tiling_size(child, half);
        return Ok(());
    }
    let info = ContainerSpec {
        kind: ContainerKind::Split,
        direction,
        inner_gaps: gaps,
        min_width: 0,
        min_height: 0,
        area: Rect { left: 0, top: 0, right: 0, bottom: 0 },
    };
    tree.wrap_in_split_container(tile, split, info);
    proof {
        lemma_apart_from_wrap(t, child, tile, split, info);
    }
    // The tile is the split's only child, so an even share is a half.
    tree.attach_container(child, split);
    Ok(())
}

/// A container apart from the tile's parent is apart from a split around the
/// tile.
pub proof fn lemma_apart_from_wrap(
    t: Nodes,
    child: u128,
    tile: u128,
    split: u128,
    info: ContainerSpec,
)
    requires
        tree::linked(t),
        t.contains_key(child),
        t.contains_key(tile),
        t[tile].parent is Some,
        t[child].parent is None,
        !t.contains_key(split),
        tree::apart(t, child, t[tile].parent->0),
    ensures
        tree::apart(tree::wrapped(t, tile, split, info), child, split),
{
    let u = tree::wrapped(t, tile, split, info);
    let parent = t[tile].parent->0;
    let below = tree::lemma_apart(t, child, parent);
    let without = below.remove(split);
    assert(tree::encloses(u, without, child)) by {
        assert forall|c: u128|
            #![trigger u[c].parent]
            u.contains_key(c) && u[c].parent is Some && without.contains(
                u[c].parent->0,
            ) implies without.contains(c) by {
            if c != split && c != tile {
                assert(t.contains_key(c) && t[c].parent == u[c].parent);
            }
        }
    }
}

/// The way a new tile splits one of `rect`: across its longer side, so a wide
/// tile gains a column and a tall one a row.
///
/// `fallback` breaks a tie. Passing the parent's direction keeps a square tile
/// from nesting.
#[must_use]
pub fn split_direction(rect: &Rect, fallback: TilingDirection) -> (direction: TilingDirection)
    requires
        rect.measurable(),
    ensures
        direction == split_across(*rect, fallback),
        rect.bottom - rect.top == rect.right - rect.left ==> direction == fallback,
{
    if rect.height() > rect.width() {
        TilingDirection::Vertical
    } else if rect.height() < rect.width() {
        TilingDirection::Horizontal
    } else {
        fallback
    }
}

/// The direction across the longer side of `rect`, or `fallback`.
pub open spec fn split_across(rect: Rect, fallback: TilingDirection) -> TilingDirection {
    if rect.spec_height() > rect.spec_width() {
        TilingDirection::Vertical
    } else if rect.spec_height() < rect.spec_width() {
        TilingDirection::Horizontal
    } else {
        fallback
    }
}

} // verus!
