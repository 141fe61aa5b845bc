//! What attaching a child to a tile and closing a tile do to the containers they
//! are about, and that they leave the others alone.

use vstd::prelude::*;

use crate::attach_to_tile;
use crate::attach_to_tile::Placement;
use crate::detach_tile;
use crate::rect::Rect;
use crate::tile_laws;
use crate::tree;
use crate::tree::{InnerGaps, Nodes, TilingDirection};
use crate::tree_laws;

verus! {

/// How a tile makes room follows from its parent and its row: nowhere without a
/// parent that lays out children, in its parent where it is alone in the row,
/// beside itself where the parent runs the way of the split, and else in a
/// split of its own.
pub proof fn law_tiles_make_room_by_their_row(t: Nodes, tile: u128, direction: TilingDirection)
    ensures
        ({
            let place = attach_to_tile::placement(t, tile, direction);
            let parent = t[tile].parent->0;
            let is_laid_out = t[tile].parent is Some && (t[parent].info.kind is Workspace
                || t[parent].info.kind is Split);
            let is_alone = tree::row(t, parent) == seq![tile];
            let runs_along = t[parent].info.direction == direction;
            &&& !is_laid_out <==> place is Nowhere
            &&& is_laid_out && is_alone <==> place is Join
            &&& is_laid_out && !is_alone && runs_along <==> place is Beside
            &&& is_laid_out && !is_alone && !runs_along <==> place is Wrap
            &&& place matches Placement::Join { parent: of } ==> of == parent
            &&& place matches Placement::Beside { parent: of } ==> of == parent
            &&& place matches Placement::Wrap { parent: of } ==> of == parent
        }),
{
}

/// A tile that is wrapped is wrapped in a split that runs the way it was asked
/// to, with the gaps that it was asked for and no floors of its own. It stands
/// where the tile stood, as large as the tile was, and holds the tile and then
/// the child.
pub proof fn law_wrapping_splits_are_as_asked_for(
    t: Nodes,
    child: u128,
    tile: u128,
    direction: TilingDirection,
    gaps: InnerGaps,
    split: u128,
)
    requires
        tile_laws::attachable(t, child, tile, split),
        attach_to_tile::placement(t, tile, direction) is Wrap,
    ensures
        ({
            let u = attach_to_tile::attached_to_tile(
                t,
                child,
                tile,
                direction,
                gaps,
                split,
            );
            let info = u[split].info;
            &&& info.kind is Split
            &&& info.direction == direction
            &&& info.inner_gaps == gaps
            &&& info.min_width == 0
            &&& info.min_height == 0
            &&& info.area == (Rect { left: 0, top: 0, right: 0, bottom: 0 })
            &&& u[split].children == seq![tile, child]
            &&& u[split].parent == t[tile].parent
            &&& u[split].tiling_size == t[tile].tiling_size
        }),
{
    let depth = choose|depth: Map<u128, nat>| #[trigger] tree::graded(t, depth);
    let info = attach_to_tile::split_info(direction, gaps);
    let before = tree::wrapped(t, tile, split, info);
    assert(t.contains_key(t[tile].parent->0));
    tree::lemma_wrapped(t, depth, tile, split, info);
    attach_to_tile::lemma_apart_from_wrap(t, child, tile, split, info);
    tree_laws::law_wrapping_puts_a_split_in_place(t, depth, tile, split, info, child);
    assert(before[child].parent is None) by {
        let below = tree::lemma_apart(t, child, t[tile].parent->0);
    }
    tree_laws::law_joining_changes_one_row(
        before,
        tree::doubled(depth, tile, split),
        child,
        split,
        split,
    );
    assert(seq![tile].push(child) =~= seq![tile, child]);
}

/// Two gaps give splits that differ in their gaps exactly if the gaps do.
pub proof fn law_gaps_are_told_apart(
    t: Nodes,
    child: u128,
    tile: u128,
    direction: TilingDirection,
    a: InnerGaps,
    b: InnerGaps,
    split: u128,
)
    requires
        tile_laws::attachable(t, child, tile, split),
        attach_to_tile::placement(t, tile, direction) is Wrap,
    ensures
        ({
            let one = attach_to_tile::attached_to_tile(t, child, tile, direction, a, split);
            let other = attach_to_tile::attached_to_tile(t, child, tile, direction, b, split);
            one[split].info.inner_gaps == other[split].info.inner_gaps <==> a == b
        }),
{
    law_wrapping_splits_are_as_asked_for(t, child, tile, direction, a, split);
    law_wrapping_splits_are_as_asked_for(t, child, tile, direction, b, split);
}

/// Attaching a child leaves every container as it was apart from the child, the
/// tile and the tile's parent, and of these it changes only sizes and links:
/// the parent gains the child as its last, or after the tile, or has the split
/// in place of the tile. Where there is no room nothing changes.
pub proof fn law_attaching_leaves_others_alone(
    t: Nodes,
    child: u128,
    tile: u128,
    direction: TilingDirection,
    gaps: InnerGaps,
    split: u128,
    other: u128,
)
    requires
        tile_laws::attachable(t, child, tile, split),
    ensures
        ({
            let place = attach_to_tile::placement(t, tile, direction);
            let parent = t[tile].parent->0;
            let siblings = t[parent].children;
            let u = attach_to_tile::attached_to_tile(
                t,
                child,
                tile,
                direction,
                gaps,
                split,
            );
            &&& place is Nowhere ==> u == t
            &&& !(place is Nowhere) ==> {
                &&& t.contains_key(other) && other != child && other != tile && other != parent
                    ==> u[other] == t[other]
                &&& u.contains_key(child) && u[child].info == t[child].info && u[child].children
                    == t[child].children
                &&& u.contains_key(tile) && u[tile].info == t[tile].info && u[tile].children
                    == t[tile].children
                &&& u.contains_key(parent) && u[parent].info == t[parent].info && u[parent].parent
                    == t[parent].parent && u[parent].tiling_size == t[parent].tiling_size
            }
            &&& place is Join ==> {
                &&& u.dom() == t.dom()
                &&& u[parent].children == siblings.push(child)
                &&& u[child].parent == Some(parent)
                &&& u[tile].parent == Some(parent)
            }
            &&& place is Beside ==> {
                &&& u.dom() == t.dom()
                &&& u[parent].children == siblings.insert(siblings.index_of(tile) + 1, child)
                &&& u[child].parent == Some(parent)
                &&& u[tile].parent == Some(parent)
            }
            &&& place is Wrap ==> {
                &&& u.dom() == t.dom().insert(split)
                &&& u[parent].children == siblings.update(siblings.index_of(tile), split)
                &&& u[child].parent == Some(split)
                &&& u[tile].parent == Some(split)
            }
        }),
{
    let depth = choose|depth: Map<u128, nat>| #[trigger] tree::graded(t, depth);
    let u = attach_to_tile::attached_to_tile(t, child, tile, direction, gaps, split);
    let parent = t[tile].parent->0;
    if t[tile].parent is Some {
        let below = tree::lemma_apart(t, child, parent);
        assert(child != parent);
        assert(t.contains_key(parent));
        assert(t[parent].children.contains(tile));
        assert(depth[parent] < depth[tile]);
        assert(tile != parent);
        assert(child != tile);
    }
    match attach_to_tile::placement(t, tile, direction) {
        Placement::Nowhere => {},
        Placement::Join { .. } => {
            tree_laws::law_joining_changes_one_row(t, depth, child, parent, other);
            tree_laws::law_joining_changes_one_row(t, depth, child, parent, tile);
            if t.contains_key(other) && other != child && other != tile && other != parent {
                assert(!seq![tile].contains(other));
            }
        },
        Placement::Beside { .. } => {
            assert(u.dom() =~= t.dom());
        },
        Placement::Wrap { .. } => {
            let info = attach_to_tile::split_info(direction, gaps);
            let before = tree::wrapped(t, tile, split, info);
            let deeper = tree::doubled(depth, tile, split);
            tree::lemma_wrapped(t, depth, tile, split, info);
            attach_to_tile::lemma_apart_from_wrap(t, child, tile, split, info);
            assert(before[child] == t[child]);
            tree_laws::law_joining_changes_one_row(before, deeper, child, split, other);
            tree_laws::law_joining_changes_one_row(before, deeper, child, split, tile);
            tree_laws::law_joining_changes_one_row(before, deeper, child, split, parent);
            assert(before.dom() =~= t.dom().insert(split));
            if t.contains_key(other) && other != child && other != tile && other != parent {
                assert(before[other] == t[other]);
                assert(t[other].parent != Some(split)) by {
                    if t[other].parent == Some(split) {
                        assert(t.contains_key(t[other].parent->0));
                    }
                }
            }
            assert(t[parent].parent != Some(split)) by {
                if t[parent].parent == Some(split) {
                    assert(t.contains_key(t[parent].parent->0));
                }
            }
        },
    }
}

/// A child that does not tile keeps its size. It takes no space of a tile that
/// it joins; a tile that it is put beside still gives up half of its own, and
/// one that is wrapped for it fills its split.
pub proof fn law_windows_that_do_not_tile_keep_their_size(
    t: Nodes,
    child: u128,
    tile: u128,
    direction: TilingDirection,
    gaps: InnerGaps,
    split: u128,
)
    requires
        tile_laws::attachable(t, child, tile, split),
        t[child].info.kind is NonTilingWindow,
    ensures
        ({
            let place = attach_to_tile::placement(t, tile, direction);
            let u = attach_to_tile::attached_to_tile(
                t,
                child,
                tile,
                direction,
                gaps,
                split,
            );
            &&& u[child].tiling_size == t[child].tiling_size
            &&& place is Join ==> u[tile].tiling_size == t[tile].tiling_size
            &&& place is Beside ==> 0 <= 2 * u[tile].tiling_size - t[tile].tiling_size <= 1
            &&& place is Wrap ==> u[tile].tiling_size == 1_073_741_824
        }),
{
    if t[tile].parent is Some {
        let below = tree::lemma_apart(t, child, t[tile].parent->0);
        assert(t.contains_key(t[tile].parent->0));
        assert(child != tile);
    }
}

/// A tile is split across its longer side: one higher than wide from top to
/// bottom, one wider than high from side to side, and a square one as told.
pub proof fn law_tiles_are_split_across_their_longer_side(rect: Rect, fallback: TilingDirection)
    ensures
        ({
            let width = rect.right - rect.left;
            let height = rect.bottom - rect.top;
            let direction = attach_to_tile::split_across(rect, fallback);
            &&& height > width ==> direction is Vertical
            &&& height < width ==> direction is Horizontal
            &&& height == width ==> direction == fallback
        }),
{
}

/// Sizes match if they differ by no more than a thousandth of the full size.
pub proof fn law_sizes_match_within_a_thousandth(a: u32, b: u32)
    ensures
        detach_tile::matching(a, b) <==> 1000 * vstd::math::abs(a - b) <= 1_073_741_824,
        detach_tile::matching(a, b) == detach_tile::matching(b, a),
{
}

/// The partner of a tile is the neighbour in its row that has its size, before
/// or after it, unless both have. Without a row there is none.
pub proof fn law_the_one_matching_neighbour_is_the_partner(t: Nodes, id: u128, at: int)
    requires
        tree::linked(t),
        t.contains_key(id),
        t[id].parent is Some,
        t[id].tiles(),
        0 <= at < tree::row(t, t[id].parent->0).len(),
        tree::row(t, t[id].parent->0)[at] == id,
    ensures
        ({
            let tiles = tree::row(t, t[id].parent->0);
            let size = t[id].tiling_size;
            let before = at > 0 && 1000 * vstd::math::abs(t[tiles[at - 1]].tiling_size - size)
                <= 1_073_741_824;
            let after = at + 1 < tiles.len() && 1000 * vstd::math::abs(
                t[tiles[at + 1]].tiling_size - size,
            ) <= 1_073_741_824;
            let partner = detach_tile::partner_of(t, id);
            &&& before && !after ==> partner == Some(tiles[at - 1])
            &&& after && !before ==> partner == Some(tiles[at + 1])
            &&& before == after ==> partner is None
        }),
{
    let tiles = tree::row(t, t[id].parent->0);
    tree::lemma_row_without(t, id);
    assert(tiles.index_of(id) == at);
}

/// A container that does not tile, or has no parent, has no partner.
pub proof fn law_only_tiles_have_partners(t: Nodes, id: u128)
    ensures
        t[id].parent is None ==> detach_tile::partner_of(t, id) is None,
        t[id].info.kind is NonTilingWindow || t[id].info.kind is Workspace
            ==> detach_tile::partner_of(t, id) is None,
{
}

/// A closed tile hands exactly its size to its partner, if it has one, and no
/// other container changes its size. Whether it has one or not, it has no
/// parent afterwards and keeps its own size, its old parent keeps its other
/// children, and no container elsewhere changes at all.
pub proof fn law_closing_a_tile_changes_its_row_only(
    t: Nodes,
    depth: Map<u128, nat>,
    id: u128,
    other: u128,
)
    requires
        tree::linked(t),
        tree::graded(t, depth),
        t.contains_key(id),
        detach_tile::closable(t, id),
    ensures
        ({
            let parent = t[id].parent->0;
            let partner = detach_tile::partner_of(t, id);
            let u = detach_tile::tile_detached(t, id);
            &&& u.dom() == t.dom()
            &&& t[id].parent is None ==> u == t
            &&& t[id].parent is Some ==> {
                &&& u[id].parent is None
                &&& u[id].info == t[id].info
                &&& u[id].children == t[id].children
                &&& u[id].tiling_size == t[id].tiling_size
                &&& !u[parent].children.contains(id)
                &&& other != id ==> (u[parent].children.contains(other)
                    <==> t[parent].children.contains(other))
                &&& u[parent].info == t[parent].info
                &&& u[parent].parent == t[parent].parent
                &&& u[parent].tiling_size == t[parent].tiling_size
                &&& t.contains_key(other) && other != id && other != parent ==> {
                    &&& u[other].info == t[other].info
                    &&& u[other].parent == t[other].parent
                    &&& u[other].children == t[other].children
                    &&& t[other].parent != Some(parent) ==> u[other] == t[other]
                    &&& partner is Some && other != partner->0 ==> u[other] == t[other]
                    &&& partner == Some(other) ==> u[other].tiling_size == t[other].tiling_size
                        + t[id].tiling_size
                }
            }
        }),
{
    let u = detach_tile::tile_detached(t, id);
    if t[id].parent is Some {
        let parent = t[id].parent->0;
        assert(t.contains_key(parent));
        assert(depth[parent] < depth[id]);
        tree_laws::law_unlinking_changes_two_links(t, depth, id, other);
        match detach_tile::partner_of(t, id) {
            None => {
                tree_laws::law_leaving_changes_one_row(t, depth, id, other);
            },
            Some(partner) => {
                detach_tile::lemma_partner(t, id);
                tree::lemma_row_without(t, id);
                let tiles = tree::row(t, parent);
                let at: int = tiles.index_of(id);
                assert(tiles[at] == id);
                assert(tiles.contains(partner));
                tree::lemma_tiling_members(t, t[parent].children);
                assert(t[parent].children.contains(partner));
                let i = t[parent].children.index_of(partner);
                assert(t[t[parent].children[i]].parent == Some(parent));
                assert(depth[t[partner].parent->0] < depth[partner]);
                assert(u.dom() =~= t.dom());
            },
        }
    }
}

/// Where a closed tile has no partner its siblings in the row make up for it in
/// proportion to their sizes, or evenly where they have none, each to the unit
/// next below.
pub proof fn law_closing_without_a_partner_is_made_up_in_proportion(
    t: Nodes,
    depth: Map<u128, nat>,
    id: u128,
    other: u128,
)
    requires
        tree::linked(t),
        tree::graded(t, depth),
        t.contains_key(id),
        t[id].parent is Some,
        t[id].tiles(),
        detach_tile::closable(t, id),
        detach_tile::partner_of(t, id) is None,
        other != id,
        tree::row(t, t[id].parent->0).contains(other),
    ensures
        ({
            let tiles = tree::row(t, t[id].parent->0);
            let u = detach_tile::tile_detached(t, id);
            let freed = t[id].tiling_size;
            let total = tree::size_total(t, tiles) - freed;
            let n = tiles.len() - 1;
            let size = t[other].tiling_size;
            let grown = u[other].tiling_size - size;
            &&& total > 0 ==> total * grown <= freed * size < total * grown + total
            &&& total == 0 ==> n * grown <= freed < n * grown + n
        }),
{
    tree_laws::law_leaving_is_made_up_in_proportion(t, depth, id, other);
}

} // verus!
