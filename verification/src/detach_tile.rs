//! Handing a closed tile's space back to the tile it was split from.

use vstd::prelude::*;

use crate::tree;
use crate::tree::{ContainerTree, Nodes, TreeError};

verus! {

/// How close two tiling sizes must be to count as the halves of one split: a
/// thousandth of their parent.
pub const PARTNER_TOLERANCE: u32 = 1_073_741;

/// Whether two tiling sizes count as the halves of one split.
pub open spec fn matching(a: u32, b: u32) -> bool {
    -PARTNER_TOLERANCE <= a - b <= PARTNER_TOLERANCE
}

/// Whether the tile at `i` is in the row and has the size of `id`.
pub open spec fn matches_at(t: Nodes, tiles: Seq<u128>, i: int, id: u128) -> bool {
    0 <= i < tiles.len() && matching(t[tiles[i]].tiling_size, t[id].tiling_size)
}

/// The one adjacent tile that shares the size of `id`, if there is exactly
/// one.
pub open spec fn partner_of(t: Nodes, id: u128) -> Option<u128> {
    if !t[id].tiles() || t[id].parent is None {
        None
    } else {
        let tiles = tree::row(t, t[id].parent->0);
        let at = tiles.index_of(id);
        let before = matches_at(t, tiles, at - 1, id);
        let after = matches_at(t, tiles, at + 1, id);
        if before && !after {
            Some(tiles[at - 1])
        } else if after && !before {
            Some(tiles[at + 1])
        } else {
            None
        }
    }
}

/// The tree once `id` has been detached, its space going to its partner if it
/// has one and otherwise shared out.
pub open spec fn tile_detached(t: Nodes, id: u128) -> Nodes {
    if t[id].parent is None {
        t
    } else {
        match partner_of(t, id) {
            Some(partner) => tree::resized(
                tree::unlinked(t, id),
                partner,
                (t[partner].tiling_size + t[id].tiling_size) as u32,
            ),
            None => tree::detached(t, id),
        }
    }
}

/// Whether the tiles that take over the space of `id` stay within the range of a
/// size.
pub open spec fn closable(t: Nodes, id: u128) -> bool {
    match partner_of(t, id) {
        Some(partner) => t[partner].tiling_size + t[id].tiling_size <= u32::MAX,
        None => tree::shares_fit(t, id),
    }
}

/// Whether two sizes match.
fn sizes_match(a: u32, b: u32) -> (same: bool)
    ensures
        same == matching(a, b),
{
    let difference: u32 = if a >= b {
        a - b
    } else {
        b - a
    };
    difference <= PARTNER_TOLERANCE
}

/// The one adjacent sibling that shares the tiling size of `id`, if there is
/// exactly one.
pub fn split_partner(tree: &ContainerTree, id: u128) -> (partner: Option<u128>)
    requires
        tree.wf(),
        tree@.contains_key(id),
    ensures
        partner == partner_of(tree@, id),
{
    let ghost t = tree@;
    if !tree.node(id).info.kind.is_tiling() {
        return None;
    }
    let parent: u128 = match tree.node(id).parent {
        Some(parent) => parent,
        None => return None,
    };
    assert(t[id].parent == Some(parent));
    assert(t.contains_key(parent));
    let size: u32 = tree.node(id).tiling_size;
    let tiles: Vec<u128> = tree.tiling_children(parent);
    proof {
        tree::lemma_row_without(t, id);
    }
    let index: usize = tree::position_of(&tiles, id);
    let before: bool = index >= 1 && {
        assert(tiles@.contains(tiles@[index - 1]));
        sizes_match(tree.node(tiles[index - 1]).tiling_size, size)
    };
    let after: bool = index < tiles.len() - 1 && {
        assert(tiles@.contains(tiles@[index + 1]));
        sizes_match(tree.node(tiles[index + 1]).tiling_size, size)
    };
    if before && !after {
        Some(tiles[index - 1])
    } else if after && !before {
        Some(tiles[index + 1])
    } else {
        None
    }
}

/// Detaches a container, handing its space back to the tile it was split from.
///
/// A tile that was split and its partner are the two halves of what was one
/// tile, so they are the adjacent pair of equal size. Closing either should
/// restore the other, which sharing the space out to every sibling in
/// proportion would not do. Where no single adjacent sibling matches, because
/// the tiles have been resized or because both neighbours match, the space is
/// shared out.
pub fn detach_tile(tree: &mut ContainerTree, container: u128) -> (result: Result<(), TreeError>)
    requires
        old(tree).wf(),
        old(tree)@.contains_key(container),
        closable(old(tree)@, container),
    ensures
        final(tree).wf(),
        final(tree)@ == tile_detached(old(tree)@, container),
        old(tree)@[container].parent is None ==> result == Err::<(), TreeError>(
            TreeError::NoParent,
        ),
        old(tree)@[container].parent is Some ==> result == Ok::<(), TreeError>(()),
{
    let ghost t = tree@;
    let partner: u128 = match split_partner(tree, container) {
        Some(partner) => partner,
        None => return tree.detach_container(container),
    };
    proof {
        tree::lemma_row_without(t, container);
        lemma_partner(t, container);
    }
    let freed: u32 = tree.node(container).tiling_size;
    tree.unlink_container(container);
    let kept: u32 = tree.node(partner).tiling_size;
    tree.set_tiling_size(partner, kept + freed);
    Ok(())
}

/// A partner is another tile of the same row, so their sizes fit together
/// where the row's do.
pub proof fn lemma_partner(t: Nodes, id: u128)
    requires
        tree::linked(t),
        t.contains_key(id),
        partner_of(t, id) is Some,
    ensures
        t[id].parent is Some,
        ({
            let tiles = tree::row(t, t[id].parent->0);
            let partner = partner_of(t, id)->0;
            &&& t.contains_key(partner)
            &&& partner != id
            &&& partner != t[id].parent->0 ==> tree::unlinked(t, id)[partner] == t[partner]
            &&& tree::unlinked(t, id)[partner].tiling_size == t[partner].tiling_size
            &&& t[partner].tiling_size + t[id].tiling_size <= tree::size_total(t, tiles)
        }),
{
    let tiles = tree::row(t, t[id].parent->0);
    tree::lemma_row_without(t, id);
    let at: int = tiles.index_of(id);
    let partner = partner_of(t, id)->0;
    assert(tiles[at] == id);
    if partner == tiles[at - 1] && at >= 1 {
        assert(tiles.contains(tiles[at - 1]));
        assert(tiles[at - 1] != tiles[at]);
        tree::lemma_two_sizes_within_total(t, tiles, at - 1, at);
    } else {
        assert(tiles.contains(tiles[at + 1]));
        assert(tiles[at + 1] != tiles[at]);
        tree::lemma_two_sizes_within_total(t, tiles, at, at + 1);
    }
}

} // verus!
