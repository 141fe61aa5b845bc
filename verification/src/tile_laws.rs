//! What splitting a tile and closing one of its halves keep.

use vstd::prelude::*;

use crate::attach_to_tile;
use crate::attach_to_tile::Placement;
use crate::detach_tile;
use crate::row_laws;
use crate::tree;
use crate::tree::{InnerGaps, Nodes, TilingDirection, FULL_SIZE};

verus! {

/// What attaching `child` to `tile` asks of the tree.
pub open spec fn attachable(t: Nodes, child: u128, tile: u128, split: u128) -> bool {
    &&& tree::linked(t)
    &&& exists|depth: Map<u128, nat>| #[trigger] tree::graded(t, depth)
    &&& t.contains_key(child)
    &&& t.contains_key(tile)
    &&& t[tile].tiles()
    &&& t[child].parent is None
    &&& !t.contains_key(split)
    &&& t[tile].parent is Some ==> tree::apart(t, child, t[tile].parent->0)
}

/// The one tile of a row of one, and the tile of a fresh split.
proof fn lemma_row_of_split(t: Nodes, tile: u128, split: u128, info: tree::ContainerSpec)
    requires
        t.contains_key(tile),
        t[tile].tiles(),
        t[tile].parent is Some,
        !t.contains_key(split),
        t.contains_key(t[tile].parent->0),
    ensures
        tree::row(tree::wrapped(t, tile, split, info), split) == seq![tile],
        tree::size_total(tree::wrapped(t, tile, split, info), seq![tile]) == FULL_SIZE,
{
    let u = tree::wrapped(t, tile, split, info);
    reveal_with_fuel(tree::tiling_of, 2);
    reveal_with_fuel(tree::size_total, 2);
    assert(u[split].children =~= seq![tile]);
    assert(seq![tile].drop_last() =~= Seq::<u128>::empty());
    assert(tree::row(u, split) =~= seq![tile]);
}

/// Only the tile is split: every container other than the tile and the new
/// child keeps its size.
pub proof fn law_siblings_keep_their_sizes(
    t: Nodes,
    child: u128,
    tile: u128,
    direction: TilingDirection,
    gaps: InnerGaps,
    split: u128,
    other: u128,
)
    requires
        attachable(t, child, tile, split),
        t.contains_key(other),
        other != tile,
        other != child,
    ensures
        attach_to_tile::attached_to_tile(
            t,
            child,
            tile,
            direction,
            gaps,
            split,
        )[other].tiling_size == t[other].tiling_size,
{
    match attach_to_tile::placement(t, tile, direction) {
        Placement::Wrap { parent } => {
            assert(t.contains_key(t[tile].parent->0));
            lemma_row_of_split(t, tile, split, attach_to_tile::split_info(direction, gaps));
            assert(!seq![tile].contains(other));
        },
        _ => {
            assert(!seq![tile].contains(other));
        },
    }
}

/// A tile alone in its container, and one that has to be wrapped, share their
/// container with the new child in halves.
pub proof fn law_joining_and_wrapping_give_halves(
    t: Nodes,
    child: u128,
    tile: u128,
    direction: TilingDirection,
    gaps: InnerGaps,
    split: u128,
)
    requires
        attachable(t, child, tile, split),
        t[child].tiles(),
        attach_to_tile::placement(t, tile, direction) is Join
            || attach_to_tile::placement(t, tile, direction) is Wrap,
    ensures
        ({
            let u = attach_to_tile::attached_to_tile(
                t,
                child,
                tile,
                direction,
                gaps,
                split,
            );
            &&& u[tile].tiling_size == FULL_SIZE / 2
            &&& u[child].tiling_size == FULL_SIZE / 2
            &&& attach_to_tile::placement(t, tile, direction) is Wrap ==> {
                &&& u[split].tiling_size == t[tile].tiling_size
                &&& u[split].parent == t[tile].parent
                &&& u[split].info.direction == direction
                &&& u[split].children == seq![tile, child]
            }
        }),
{
    let half: nat = FULL_SIZE as nat / 2;
    assert(t.contains_key(t[tile].parent->0));
    assert(t[t[tile].parent->0].children.contains(tile));
    let (before, parent) = match attach_to_tile::placement(t, tile, direction) {
        Placement::Join { parent } => (t, parent),
        _ => (
            tree::wrapped(t, tile, split, attach_to_tile::split_info(direction, gaps)),
            split,
        ),
    };
    if attach_to_tile::placement(t, tile, direction) is Wrap {
        lemma_row_of_split(t, tile, split, attach_to_tile::split_info(direction, gaps));
        assert(seq![tile].insert(1, child) =~= seq![tile, child]);
    }
    let tiles = tree::row(before, parent);
    assert(tiles == seq![tile]);
    assert(seq![tile][0] == tile);
    assert(tiles.contains(tile));
    reveal_with_fuel(tree::size_total, 2);
    assert(seq![tile].drop_last() =~= Seq::<u128>::empty());
    let size: nat = before[tile].tiling_size as nat;
    assert(tree::size_total(before, tiles) == size);
    assert(tree::part_of(half, size, size, 1) == half) by {
        if size > 0 {
            assert((half * size) / size == half) by (nonlinear_arith)
                requires
                    size > 0,
            ;
        }
    }
}

/// A tile that has a sibling in its row is split within the row wherever the
/// split runs the way of the row, however small the tile is, and is wrapped
/// wherever it does not.
pub proof fn law_only_cross_splits_wrap(
    t: Nodes,
    child: u128,
    tile: u128,
    direction: TilingDirection,
    split: u128,
)
    requires
        attachable(t, child, tile, split),
        t[tile].parent is Some,
        tree::row(t, t[tile].parent->0).len() > 1,
    ensures
        attach_to_tile::placement(t, tile, direction) is Beside <==> direction
            == t[t[tile].parent->0].info.direction,
        attach_to_tile::placement(t, tile, direction) is Wrap <==> direction
            != t[t[tile].parent->0].info.direction,
{
    let parent = t[tile].parent->0;
    assert(t.contains_key(parent) && t[parent].children.contains(tile));
    assert(tree::row(t, parent) != seq![tile]);
}

/// A tile that is split within its row gives half of its space, to within one
/// unit, to the new child, which becomes its next sibling.
pub proof fn law_splitting_gives_halves(
    t: Nodes,
    child: u128,
    tile: u128,
    direction: TilingDirection,
    gaps: InnerGaps,
    split: u128,
)
    requires
        attachable(t, child, tile, split),
        t[child].tiles(),
        attach_to_tile::placement(t, tile, direction) is Beside,
    ensures
        ({
            let parent = t[tile].parent->0;
            let siblings = t[parent].children;
            let u = attach_to_tile::attached_to_tile(
                t,
                child,
                tile,
                direction,
                gaps,
                split,
            );
            &&& u[tile].tiling_size + u[child].tiling_size == t[tile].tiling_size
            &&& 0 <= u[tile].tiling_size - u[child].tiling_size <= 1
            &&& u[child].parent == Some(parent)
            &&& u[parent].children == siblings.insert(siblings.index_of(tile) + 1, child)
            &&& u[parent].tiling_size == t[parent].tiling_size
        }),
{
    lemma_row_with(t, child, tile);
}

/// Where a tile and its new half have their container to themselves, closing
/// either hands the other the whole container, and no other container changes
/// its size.
#[verifier::rlimit(30)]
pub proof fn law_closing_one_of_a_pair_restores_the_other(
    t: Nodes,
    child: u128,
    tile: u128,
    direction: TilingDirection,
    gaps: InnerGaps,
    split: u128,
)
    requires
        attachable(t, child, tile, split),
        t[child].tiles(),
        attach_to_tile::placement(t, tile, direction) is Join
            || attach_to_tile::placement(t, tile, direction) is Wrap,
    ensures
        ({
            let u = attach_to_tile::attached_to_tile(
                t,
                child,
                tile,
                direction,
                gaps,
                split,
            );
            let closed = detach_tile::tile_detached(u, child);
            let swapped = detach_tile::tile_detached(u, tile);
            &&& detach_tile::closable(u, child)
            &&& detach_tile::closable(u, tile)
            &&& closed[tile].tiling_size == FULL_SIZE
            &&& swapped[child].tiling_size == FULL_SIZE
            &&& forall|k: u128|
                k != tile && k != child ==> (#[trigger] closed[k]).tiling_size
                    == u[k].tiling_size
            &&& forall|k: u128|
                k != tile && k != child ==> (#[trigger] swapped[k]).tiling_size
                    == u[k].tiling_size
        }),
{
    law_joining_and_wrapping_give_halves(t, child, tile, direction, gaps, split);
    let info = attach_to_tile::split_info(direction, gaps);
    let depth = choose|depth: Map<u128, nat>| #[trigger] tree::graded(t, depth);
    assert(t.contains_key(t[tile].parent->0));
    let (before, parent) = match attach_to_tile::placement(t, tile, direction) {
        Placement::Join { parent } => (t, parent),
        _ => (tree::wrapped(t, tile, split, info), split),
    };
    if attach_to_tile::placement(t, tile, direction) is Wrap {
        tree::lemma_wrapped(t, depth, tile, split, info);
        attach_to_tile::lemma_apart_from_wrap(t, child, tile, split, info);
        lemma_row_of_split(t, tile, split, info);
        assert(child != t[tile].parent->0) by {
            let below = tree::lemma_apart(t, child, t[tile].parent->0);
        }
    }
    let u = tree::attached(before, child, parent);
    row_laws::law_joining_fills_the_row(before, child, parent);
    let tiles = tree::row(u, parent);
    assert(tiles =~= seq![tile, child]);
    assert(tile != child);
    assert(tiles[0] == tile && tiles[1] == child);
    assert(tiles.index_of(tile) == 0);
    assert(tiles.index_of(child) == 1);
    assert(u[child].parent == Some(parent));
    assert(u[tile].parent == Some(parent)) by {
        assert(before[tile].parent == Some(parent));
    }
    assert(detach_tile::partner_of(u, child) == Some(tile));
    assert(detach_tile::partner_of(u, tile) == Some(child));
}

/// What the row of `tile` looks like once `child` has been put after it.
proof fn lemma_row_with(t: Nodes, child: u128, tile: u128)
    requires
        tree::linked(t),
        exists|depth: Map<u128, nat>| #[trigger] tree::graded(t, depth),
        t.contains_key(child),
        t.contains_key(tile),
        t[tile].tiles(),
        t[child].tiles(),
        t[child].parent is None,
        t[tile].parent is Some,
        child != t[tile].parent->0,
    ensures
        ({
            let parent = t[tile].parent->0;
            let u = attach_to_tile::halved(t, child, tile, parent);
            let before = tree::row(t, parent);
            let after = tree::row(u, parent);
            let at = before.index_of(tile);
            &&& 0 <= at < before.len()
            &&& before[at] == tile
            &&& before.no_duplicates()
            &&& !before.contains(child)
            &&& tile != parent
            &&& tile != child
            &&& after == before.insert(at + 1, child)
            &&& after.no_duplicates()
            &&& after.index_of(child) == at + 1
            &&& after.index_of(tile) == at
            &&& forall|k: u128| #[trigger] before.contains(k) ==> t.contains_key(k)
        }),
{
    let parent = t[tile].parent->0;
    let u = attach_to_tile::halved(t, child, tile, parent);
    let ids = t[parent].children;
    let place: int = ids.index_of(tile);
    assert(ids.contains(tile));
    tree::lemma_row_without(t, tile);
    let front = ids.take(place);
    let back = ids.skip(place + 1);
    let before = tree::row(t, parent);
    let after = tree::row(u, parent);
    assert(ids =~= front + seq![tile] + back);
    assert(tile != parent) by {
        if tile == parent {
            let depth = choose|depth: Map<u128, nat>| #[trigger] tree::graded(t, depth);
            assert(depth[t[tile].parent->0] < depth[tile]);
        }
    }
    assert(u[parent].children =~= front + seq![tile] + seq![child] + back);
    tree::lemma_tiling_add(t, front + seq![tile], back);
    tree::lemma_tiling_add(t, front, seq![tile]);
    tree::lemma_tiling_add(t, front + seq![tile] + seq![child], back);
    tree::lemma_tiling_add(t, front + seq![tile], seq![child]);
    tree::lemma_tiling_same(t, u, u[parent].children);
    reveal_with_fuel(tree::tiling_of, 2);
    assert(seq![tile].drop_last() =~= Seq::<u128>::empty());
    assert(seq![child].drop_last() =~= Seq::<u128>::empty());
    let tf = tree::tiling_of(t, front);
    let tb = tree::tiling_of(t, back);
    assert(before =~= tf + seq![tile] + tb);
    assert(after =~= tf + seq![tile] + seq![child] + tb);
    assert(before[tf.len() as int] == tile);
    assert(before.index_of(tile) == tf.len());
    assert(!before.contains(child)) by {
        if before.contains(child) {
            tree::lemma_tiling_members(t, ids);
            let j = ids.index_of(child);
            assert(t[t[parent].children[j]].parent == Some(parent));
        }
    }
    let at: int = tf.len() as int;
    assert(after =~= before.insert(at + 1, child));
    assert(after[at] == tile && after[at + 1] == child);
    assert forall|i: int, j: int|
        0 <= i < after.len() && 0 <= j < after.len() && i != j implies after[i] != after[j] by {
        let a: int = if i <= at {
            i
        } else {
            i - 1
        };
        let b: int = if j <= at {
            j
        } else {
            j - 1
        };
        if i == at + 1 {
            assert(before.contains(before[b]));
        } else if j == at + 1 {
            assert(before.contains(before[a]));
        } else {
            assert(before[a] != before[b]);
        }
    }
}

/// What sizes add up to where one of them is replaced by its two parts.
proof fn lemma_total_with(t: Nodes, u: Nodes, before: Seq<u128>, at: int, child: u128)
    requires
        0 <= at < before.len(),
        before.no_duplicates(),
        !before.contains(child),
        u[before[at]].tiling_size + u[child].tiling_size == t[before[at]].tiling_size,
        forall|k: u128|
            before.contains(k) && k != before[at] ==> (#[trigger] u[k]).tiling_size
                == t[k].tiling_size,
    ensures
        tree::size_total(u, before.insert(at + 1, child)) == tree::size_total(t, before),
{
    let tile = before[at];
    let front = before.take(at);
    let back = before.skip(at + 1);
    assert(before =~= front + seq![tile] + back);
    assert(before.insert(at + 1, child) =~= front + seq![tile, child] + back);
    tree::lemma_size_total_add(t, front + seq![tile], back);
    tree::lemma_size_total_add(t, front, seq![tile]);
    tree::lemma_size_total_add(u, front + seq![tile, child], back);
    tree::lemma_size_total_add(u, front, seq![tile, child]);
    assert forall|i: int| 0 <= i < front.len() implies t[#[trigger] front[i]].tiling_size
        == u[front[i]].tiling_size by {
        assert(before[i] == front[i] && before[i] != before[at]);
        assert(before.contains(before[i]));
        assert(u[before[i]].tiling_size == t[before[i]].tiling_size);
    }
    assert forall|i: int| 0 <= i < back.len() implies t[#[trigger] back[i]].tiling_size
        == u[back[i]].tiling_size by {
        assert(before[at + 1 + i] == back[i] && before[at + 1 + i] != before[at]);
        assert(before.contains(before[at + 1 + i]));
        assert(u[before[at + 1 + i]].tiling_size == t[before[at + 1 + i]].tiling_size);
    }
    tree::lemma_size_total_same(t, u, front);
    tree::lemma_size_total_same(t, u, back);
    reveal_with_fuel(tree::size_total, 3);
    assert(seq![tile].drop_last() =~= Seq::<u128>::empty());
    assert(seq![tile, child].drop_last() =~= seq![tile]);
}

/// Splitting a tile within its row leaves the row's sizes adding up to what
/// they did.
pub proof fn law_splitting_keeps_the_row_total(
    t: Nodes,
    child: u128,
    tile: u128,
    direction: TilingDirection,
    gaps: InnerGaps,
    split: u128,
)
    requires
        attachable(t, child, tile, split),
        t[child].tiles(),
        attach_to_tile::placement(t, tile, direction) is Beside,
    ensures
        ({
            let parent = t[tile].parent->0;
            let u = attach_to_tile::attached_to_tile(
                t,
                child,
                tile,
                direction,
                gaps,
                split,
            );
            tree::size_total(u, tree::row(u, parent)) == tree::size_total(t, tree::row(t, parent))
        }),
{
    let parent = t[tile].parent->0;
    let u = attach_to_tile::halved(t, child, tile, parent);
    lemma_row_with(t, child, tile);
    let before = tree::row(t, parent);
    lemma_total_with(t, u, before, before.index_of(tile), child);
}

/// Closing a tile's new half restores the tile: once `child` has been attached
/// beside `tile` it can be closed, and that leaves the tree as it was, apart from
/// the size that the detached child remembers.
///
/// This needs the tile after the pair, if there is one, not to have the
/// child's size too, in which case the space is shared out.
pub proof fn law_closing_the_new_half_restores_the_tile(
    t: Nodes,
    child: u128,
    tile: u128,
    direction: TilingDirection,
    gaps: InnerGaps,
    split: u128,
)
    requires
        attachable(t, child, tile, split),
        t[child].tiles(),
        attach_to_tile::placement(t, tile, direction) is Beside,
        ({
            let tiles = tree::row(t, t[tile].parent->0);
            let next = tiles.index_of(tile) + 1;
            next < tiles.len() ==> !detach_tile::matching(
                t[tiles[next]].tiling_size,
                (t[tile].tiling_size / 2) as u32,
            )
        }),
    ensures
        ({
            let u = attach_to_tile::attached_to_tile(
                t,
                child,
                tile,
                direction,
                gaps,
                split,
            );
            &&& detach_tile::partner_of(u, child) == Some(tile)
            &&& detach_tile::closable(u, child)
            &&& detach_tile::tile_detached(u, child) == tree::resized(
                t,
                child,
                (t[tile].tiling_size / 2) as u32,
            )
        }),
{
    let parent = t[tile].parent->0;
    let u = attach_to_tile::halved(t, child, tile, parent);
    let half = (t[tile].tiling_size / 2) as u32;
    lemma_row_with(t, child, tile);
    let before = tree::row(t, parent);
    let after = tree::row(u, parent);
    let at: int = before.index_of(tile);
    assert(u[child].parent == Some(parent));
    assert(after[at] == tile);
    if at + 2 < after.len() {
        assert(after[at + 2] == before[at + 1]);
        assert(before.contains(before[at + 1]));
        assert(before[at + 1] != before[at]);
        assert(u[before[at + 1]].tiling_size == t[before[at + 1]].tiling_size);
    }
    assert(detach_tile::partner_of(u, child) == Some(tile));
    let ids = t[parent].children;
    assert(ids.contains(tile));
    let place: int = ids.index_of(tile);
    let with = ids.insert(place + 1, child);
    assert(u[parent].children == with);
    assert(with[place + 1] == child);
    assert(with.index_of(child) == place + 1) by {
        let j = with.index_of(child);
        if j != place + 1 {
            let k: int = if j < place + 1 {
                j
            } else {
                j - 1
            };
            assert(ids[k] == child);
            assert(t[t[parent].children[k]].parent == Some(parent));
        }
    }
    assert(with.remove(place + 1) =~= ids);
    assert(detach_tile::tile_detached(u, child) =~= tree::resized(t, child, half));
}

/// Closing the tile itself hands its whole space to the new half, which takes
/// its place in the row.
///
/// This needs the tile before the pair, if there is one, not to have the
/// tile's size too, in which case the space is shared out.
pub proof fn law_closing_the_tile_restores_it_as_the_new_half(
    t: Nodes,
    child: u128,
    tile: u128,
    direction: TilingDirection,
    gaps: InnerGaps,
    split: u128,
)
    requires
        attachable(t, child, tile, split),
        t[child].tiles(),
        attach_to_tile::placement(t, tile, direction) is Beside,
        ({
            let tiles = tree::row(t, t[tile].parent->0);
            let previous = tiles.index_of(tile) - 1;
            previous >= 0 ==> !detach_tile::matching(
                t[tiles[previous]].tiling_size,
                (t[tile].tiling_size - t[tile].tiling_size / 2) as u32,
            )
        }),
    ensures
        ({
            let parent = t[tile].parent->0;
            let u = attach_to_tile::attached_to_tile(
                t,
                child,
                tile,
                direction,
                gaps,
                split,
            );
            let closed = detach_tile::tile_detached(u, tile);
            let before = tree::row(t, parent);
            &&& detach_tile::partner_of(u, tile) == Some(child)
            &&& detach_tile::closable(u, tile)
            &&& tree::row(closed, parent) == before.update(before.index_of(tile), child)
            &&& closed[child].tiling_size == t[tile].tiling_size
            &&& forall|k: u128|
                t.contains_key(k) && k != tile && k != child
                    ==> (#[trigger] closed[k]).tiling_size == t[k].tiling_size
        }),
{
    let parent = t[tile].parent->0;
    let u = attach_to_tile::halved(t, child, tile, parent);
    lemma_row_with(t, child, tile);
    let before = tree::row(t, parent);
    let after = tree::row(u, parent);
    let at: int = before.index_of(tile);
    assert(u[tile].parent == Some(parent));
    assert(after[at + 1] == child);
    if at >= 1 {
        assert(after[at - 1] == before[at - 1]);
        assert(before.contains(before[at - 1]));
        assert(before[at - 1] != before[at]);
        assert(u[before[at - 1]].tiling_size == t[before[at - 1]].tiling_size);
    }
    assert(detach_tile::partner_of(u, tile) == Some(child));
    let depth = choose|depth: Map<u128, nat>| #[trigger] tree::graded(t, depth);
    assert(tree::linked(u)) by {
        lemma_halved_linked(t, depth, child, tile);
    }
    tree::lemma_row_without(u, tile);
    let closed = detach_tile::tile_detached(u, tile);
    let left = tree::unlinked(u, tile);
    tree::lemma_tiling_same(left, closed, left[parent].children);
    assert(closed[parent].children == left[parent].children);
    assert(tree::row(closed, parent) == tree::row(left, parent));
    assert(after.remove(at) =~= before.update(at, child));
}

/// Splitting a tile within its row keeps the links of the tree.
proof fn lemma_halved_linked(t: Nodes, depth: Map<u128, nat>, child: u128, tile: u128)
    requires
        tree::linked(t),
        tree::graded(t, depth),
        t.contains_key(child),
        t.contains_key(tile),
        t[tile].parent is Some,
        t[child].parent is None,
        tree::apart(t, child, t[tile].parent->0),
    ensures
        tree::linked(attach_to_tile::halved(t, child, tile, t[tile].parent->0)),
{
    let parent = t[tile].parent->0;
    let ids = t[parent].children;
    assert(ids.contains(tile));
    let index: int = ids.index_of(tile) + 1;
    let below = tree::lemma_apart(t, child, parent);
    assert(ids.len() > 0);
    tree::lemma_inserted(t, depth, below, child, parent, index);
    let v = tree::inserted(t, child, parent, index);
    let u = attach_to_tile::halved(t, child, tile, parent);
    assert(v.dom() =~= u.dom());
    assert(tree::same_shape(v, u));
    tree::lemma_same_shape(v, u, tree::sunk(depth, below, child, parent));
}

} // verus!
