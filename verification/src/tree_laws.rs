//! What each change of the tree does to the containers it is about, and that it
//! leaves the others alone.

use vstd::prelude::*;

use crate::row_laws;
use crate::tree;
use crate::tree::{ContainerKind, ContainerSpec, Nodes};

verus! {

/// Splits and tiling windows share space with their siblings, and workspaces
/// and splits lay out children.
pub proof fn law_kinds_tell_who_tiles_and_who_directs(kind: ContainerKind)
    ensures
        kind.tiles() <==> kind != ContainerKind::Workspace && kind
            != ContainerKind::NonTilingWindow,
        kind.directs() <==> kind != ContainerKind::TilingWindow && kind
            != ContainerKind::NonTilingWindow,
{
}

proof fn lemma_tiling_is_filter(t: Nodes, ids: Seq<u128>)
    ensures
        tree::tiling_of(t, ids) == ids.filter(
            |id: u128| t[id].info.kind is Split || t[id].info.kind is TilingWindow,
        ),
    decreases ids.len(),
{
    reveal(Seq::filter);
    if ids.len() > 0 {
        lemma_tiling_is_filter(t, ids.drop_last());
    }
}

/// A row holds the splits and tiling windows among the children of a
/// container, all of them and in their order.
pub proof fn law_rows_hold_the_tiling_children(t: Nodes, parent: u128)
    ensures
        tree::row(t, parent) == t[parent].children.filter(
            |id: u128| t[id].info.kind is Split || t[id].info.kind is TilingWindow,
        ),
{
    lemma_tiling_is_filter(t, t[parent].children);
}

/// The sizes of containers are added up one by one.
pub proof fn law_row_totals_are_sums(t: Nodes, ids: Seq<u128>)
    ensures
        tree::size_total(t, ids) == ids.fold_left(
            0int,
            |sum: int, id: u128| sum + t[id].tiling_size,
        ),
    decreases ids.len(),
{
    if ids.len() > 0 {
        law_row_totals_are_sums(t, ids.drop_last());
    }
}

/// A part is the whole number next below what is due by size, or by number
/// where there are no sizes to go by.
pub proof fn law_parts_are_in_proportion(left: nat, size: nat, total: nat, count: nat)
    requires
        count > 0,
    ensures
        ({
            let part = tree::part_of(left, size, total, count);
            &&& total > 0 ==> total * part <= left * size < total * part + total
            &&& total == 0 ==> count * part <= left < count * part + count
        }),
{
    if total > 0 {
        let exact: int = (left * size) as int;
        assert(exact >= 0) by (nonlinear_arith)
            requires
                exact == left * size,
        ;
        vstd::arithmetic::div_mod::lemma_fundamental_div_mod(exact, total as int);
        vstd::arithmetic::div_mod::lemma_mod_bound(exact, total as int);
    } else {
        vstd::arithmetic::div_mod::lemma_fundamental_div_mod(left as int, count as int);
        vstd::arithmetic::div_mod::lemma_mod_bound(left as int, count as int);
    }
}

/// Setting a size changes that size and nothing else.
pub proof fn law_resizing_changes_one_size(t: Nodes, id: u128, size: u32, other: u128)
    requires
        t.contains_key(id),
    ensures
        ({
            let u = tree::resized(t, id, size);
            &&& u.dom() == t.dom()
            &&& u[id].tiling_size == size
            &&& u[id].info == t[id].info
            &&& u[id].parent == t[id].parent
            &&& u[id].children == t[id].children
            &&& other != id ==> u[other] == t[other]
        }),
{
    assert(tree::resized(t, id, size).dom() =~= t.dom());
}

/// An inserted child is at its place among the children of its parent. The
/// others keep their order, and nothing else changes.
pub proof fn law_inserting_changes_two_links(
    t: Nodes,
    child: u128,
    parent: u128,
    index: int,
    other: u128,
)
    requires
        t.contains_key(child),
        t.contains_key(parent),
        child != parent,
        0 <= index <= t[parent].children.len(),
    ensures
        ({
            let u = tree::inserted(t, child, parent, index);
            let before = t[parent].children;
            let after = u[parent].children;
            &&& u.dom() == t.dom()
            &&& u[child].parent == Some(parent)
            &&& u[child].info == t[child].info
            &&& u[child].children == t[child].children
            &&& u[child].tiling_size == t[child].tiling_size
            &&& after.len() == before.len() + 1
            &&& after[index] == child
            &&& after.take(index) == before.take(index)
            &&& after.skip(index + 1) == before.skip(index)
            &&& u[parent].info == t[parent].info
            &&& u[parent].parent == t[parent].parent
            &&& u[parent].tiling_size == t[parent].tiling_size
            &&& other != child && other != parent ==> u[other] == t[other]
        }),
{
    let u = tree::inserted(t, child, parent, index);
    assert(u.dom() =~= t.dom());
    assert(u[parent].children.take(index) =~= t[parent].children.take(index));
    assert(u[parent].children.skip(index + 1) =~= t[parent].children.skip(index));
}

/// Taking a child out of its parent undoes inserting it, wherever it was.
pub proof fn law_unlinking_undoes_inserting(t: Nodes, child: u128, parent: u128, index: int)
    requires
        tree::linked(t),
        t.contains_key(child),
        t.contains_key(parent),
        t[child].parent is None,
        child != parent,
        0 <= index <= t[parent].children.len(),
    ensures
        tree::unlinked(tree::inserted(t, child, parent, index), child) == t,
{
    let before = t[parent].children;
    let u = tree::inserted(t, child, parent, index);
    let after = u[parent].children;
    assert(!before.contains(child)) by {
        if before.contains(child) {
            let i = before.index_of(child);
            assert(t[t[parent].children[i]].parent == Some(parent));
        }
    }
    assert(after[index] == child);
    assert(after.contains(child));
    let at: int = after.index_of(child);
    assert(at == index) by {
        if at < index {
            assert(before[at] == child);
            assert(before.contains(child));
        } else if at > index {
            assert(before[at - 1] == child);
            assert(before.contains(child));
        }
    }
    assert(after.remove(index) =~= before);
    let v = tree::unlinked(u, child);
    assert(v[parent] =~= t[parent]);
    assert(v[child] =~= t[child]);
    assert(v =~= t);
}

/// A child that is taken out has no parent any more, and its parent has its
/// other children, in their order. Nothing else changes.
pub proof fn law_unlinking_changes_two_links(
    t: Nodes,
    depth: Map<u128, nat>,
    child: u128,
    other: u128,
)
    requires
        tree::linked(t),
        tree::graded(t, depth),
        t.contains_key(child),
        t[child].parent is Some,
    ensures
        ({
            let parent = t[child].parent->0;
            let u = tree::unlinked(t, child);
            &&& u.dom() == t.dom()
            &&& u[child].parent is None
            &&& u[child].info == t[child].info
            &&& u[child].children == t[child].children
            &&& u[child].tiling_size == t[child].tiling_size
            &&& !u[parent].children.contains(child)
            &&& other != child ==> (u[parent].children.contains(other)
                <==> t[parent].children.contains(other))
            &&& exists|at: int|
                0 <= at < t[parent].children.len() && t[parent].children[at] == child
                    && u[parent].children == #[trigger] t[parent].children.remove(at)
            &&& u[parent].info == t[parent].info
            &&& u[parent].parent == t[parent].parent
            &&& u[parent].tiling_size == t[parent].tiling_size
            &&& other != child && other != parent ==> u[other] == t[other]
        }),
{
    let parent = t[child].parent->0;
    let u = tree::unlinked(t, child);
    let before = t[parent].children;
    let after = u[parent].children;
    assert(t.contains_key(parent));
    assert(depth[parent] < depth[child]);
    assert(before.contains(child));
    let at: int = before.index_of(child);
    assert(u.dom() =~= t.dom());
    assert(after == before.remove(at));
    assert(before.no_duplicates());
    if after.contains(child) {
        let i = after.index_of(child);
        let j: int = if i < at {
            i
        } else {
            i + 1
        };
        assert(before[j] == before[at]);
    }
    if other != child && before.contains(other) {
        let j = before.index_of(other);
        let i: int = if j < at {
            j
        } else {
            j - 1
        };
        assert(after[i] == other);
    }
    if after.contains(other) {
        let i = after.index_of(other);
        let j: int = if i < at {
            i
        } else {
            i + 1
        };
        assert(before[j] == other);
    }
}

/// A tile of a row is a known container other than its parent.
proof fn lemma_row_members(t: Nodes, depth: Map<u128, nat>, parent: u128, k: u128)
    requires
        tree::linked(t),
        tree::graded(t, depth),
        t.contains_key(parent),
        tree::row(t, parent).contains(k),
    ensures
        t.contains_key(k),
        t[k].parent == Some(parent),
        t[k].tiles(),
        k != parent,
{
    let ids = t[parent].children;
    tree::lemma_tiling_members(t, ids);
    let j = ids.index_of(k);
    assert(t[t[parent].children[j]].parent == Some(parent));
    assert(depth[t[k].parent->0] < depth[k]);
}

/// A container that joins another becomes its last child. No container changes
/// what it is, no other changes its links, and none changes its size but the
/// child and its new siblings in the row; not even those where the child does
/// not tile.
pub proof fn law_joining_changes_one_row(
    t: Nodes,
    depth: Map<u128, nat>,
    child: u128,
    parent: u128,
    other: u128,
)
    requires
        tree::linked(t),
        tree::graded(t, depth),
        t.contains_key(child),
        t.contains_key(parent),
        t[child].parent is None,
        tree::apart(t, child, parent),
    ensures
        ({
            let u = tree::attached(t, child, parent);
            &&& u.dom() == t.dom()
            &&& u[child].parent == Some(parent)
            &&& u[child].info == t[child].info
            &&& u[child].children == t[child].children
            &&& u[parent].children == t[parent].children.push(child)
            &&& u[parent].info == t[parent].info
            &&& u[parent].parent == t[parent].parent
            &&& u[parent].tiling_size == t[parent].tiling_size
            &&& t.contains_key(other) && other != child && other != parent ==> {
                &&& u[other].info == t[other].info
                &&& u[other].parent == t[other].parent
                &&& u[other].children == t[other].children
                &&& t[other].parent != Some(parent) ==> u[other] == t[other]
                &&& t[other].info.kind is NonTilingWindow ==> u[other] == t[other]
            }
            &&& t[child].info.kind is NonTilingWindow ==> {
                &&& u[child].tiling_size == t[child].tiling_size
                &&& t.contains_key(other) ==> u[other].tiling_size == t[other].tiling_size
            }
        }),
{
    let u = tree::attached(t, child, parent);
    let ids = t[parent].children;
    let tiles = tree::row(t, parent);
    let below = tree::lemma_apart(t, child, parent);
    assert(child != parent);
    let joined = tree::inserted(t, child, parent, ids.len() as int);
    assert(joined[parent].children =~= ids.push(child));
    assert(joined.dom() =~= t.dom());
    assert(u.dom() =~= t.dom());
    if tiles.contains(parent) {
        lemma_row_members(t, depth, parent, parent);
    }
    if tiles.contains(child) {
        lemma_row_members(t, depth, parent, child);
    }
    if tiles.contains(other) {
        lemma_row_members(t, depth, parent, other);
    }
}

/// A tile that joins `n` others takes one part in `n + 1` of the full size, and
/// the others divide the rest in proportion to their sizes, or evenly where
/// they have none, each to the unit next below.
pub proof fn law_joining_takes_an_even_share(
    t: Nodes,
    depth: Map<u128, nat>,
    child: u128,
    parent: u128,
    i: int,
)
    requires
        tree::linked(t),
        tree::graded(t, depth),
        t.contains_key(child),
        t.contains_key(parent),
        t[child].parent is None,
        t[child].tiles(),
        tree::apart(t, child, parent),
    ensures
        ({
            let u = tree::attached(t, child, parent);
            let tiles = tree::row(t, parent);
            let n = tiles.len();
            let share = u[child].tiling_size;
            let left = 1_073_741_824 - share;
            let total = tree::size_total(t, tiles);
            let size = t[tiles[i]].tiling_size;
            let now = u[tiles[i]].tiling_size;
            &&& share * (n + 1) <= 1_073_741_824 < share * (n + 1) + (n + 1)
            &&& 0 <= i < n && total > 0 ==> total * now <= left * size < total * now + total
            &&& 0 <= i < n && total == 0 ==> n * now <= left < n * now + n
        }),
{
    let u = tree::attached(t, child, parent);
    let tiles = tree::row(t, parent);
    let n: nat = tiles.len();
    let full: int = 1_073_741_824;
    let parts: int = n + 1int;
    row_laws::law_joining_fills_the_row(t, child, parent);
    let share: int = full / parts;
    vstd::arithmetic::div_mod::lemma_fundamental_div_mod(full, parts);
    vstd::arithmetic::div_mod::lemma_mod_bound(full, parts);
    assert(parts * share == share * parts) by (nonlinear_arith);
    assert(0 <= share <= full) by (nonlinear_arith)
        requires
            share == full / parts,
            parts > 0,
            full > 0,
    ;
    assert(u[child].tiling_size == share);
    if 0 <= i < n {
        let left: nat = (full - share) as nat;
        let total = tree::size_total(t, tiles);
        assert(tiles.contains(tiles[i]));
        lemma_row_members(t, depth, parent, tiles[i]);
        tree::lemma_size_within_total(t, tiles, i);
        tree::lemma_part_bound(left, t[tiles[i]].tiling_size as nat, total, n);
        law_parts_are_in_proportion(left, t[tiles[i]].tiling_size as nat, total, n);
        assert(u[tiles[i]].tiling_size == tree::part_of(
            left,
            t[tiles[i]].tiling_size as nat,
            total,
            n,
        ));
    }
}

/// A container that leaves its parent keeps its own size and children. No
/// container changes what it is, no other changes its links, and none changes
/// its size but the tiles that were its siblings; not even those where it does
/// not tile.
pub proof fn law_leaving_changes_one_row(
    t: Nodes,
    depth: Map<u128, nat>,
    child: u128,
    other: u128,
)
    requires
        tree::linked(t),
        tree::graded(t, depth),
        t.contains_key(child),
        t[child].parent is Some,
    ensures
        ({
            let parent = t[child].parent->0;
            let u = tree::detached(t, child);
            &&& u.dom() == t.dom()
            &&& u[child].parent is None
            &&& u[child].info == t[child].info
            &&& u[child].children == t[child].children
            &&& u[child].tiling_size == t[child].tiling_size
            &&& u[parent].children == tree::unlinked(t, child)[parent].children
            &&& u[parent].info == t[parent].info
            &&& u[parent].parent == t[parent].parent
            &&& u[parent].tiling_size == t[parent].tiling_size
            &&& t.contains_key(other) && other != child && other != parent ==> {
                &&& u[other].info == t[other].info
                &&& u[other].parent == t[other].parent
                &&& u[other].children == t[other].children
                &&& t[other].parent != Some(parent) ==> u[other] == t[other]
                &&& t[other].info.kind is NonTilingWindow ==> u[other] == t[other]
                &&& t[child].info.kind is NonTilingWindow ==> u[other] == t[other]
            }
        }),
{
    let parent = t[child].parent->0;
    let u = tree::detached(t, child);
    let left = tree::unlinked(t, child);
    let before = tree::row(t, parent);
    let tiles = tree::row(left, parent);
    assert(t.contains_key(parent));
    assert(depth[parent] < depth[child]);
    tree::lemma_row_without(t, child);
    assert(left.dom() =~= t.dom());
    assert(u.dom() =~= t.dom());
    assert(t[child].tiles() ==> forall|k: u128| #[trigger]
        tiles.contains(k) ==> before.contains(k)) by {
        if t[child].tiles() {
            assert forall|k: u128| #[trigger] tiles.contains(k) implies before.contains(k) by {
                let at = before.index_of(child);
                let i = tiles.index_of(k);
                let j: int = if i < at {
                    i
                } else {
                    i + 1
                };
                assert(before[j] == k);
            }
        }
    }
    if t[child].tiles() && tiles.contains(parent) {
        lemma_row_members(t, depth, parent, parent);
    }
    if t[child].tiles() && tiles.contains(other) {
        lemma_row_members(t, depth, parent, other);
    }
}

/// The tiles that one leaves behind grow by their parts of its size, in
/// proportion to their own sizes, or evenly where they have none, each to the
/// unit next below.
pub proof fn law_leaving_is_made_up_in_proportion(
    t: Nodes,
    depth: Map<u128, nat>,
    child: u128,
    other: u128,
)
    requires
        tree::linked(t),
        tree::graded(t, depth),
        t.contains_key(child),
        t[child].parent is Some,
        t[child].tiles(),
        tree::shares_fit(t, child),
        other != child,
        tree::row(t, t[child].parent->0).contains(other),
    ensures
        ({
            let tiles = tree::row(t, t[child].parent->0);
            let u = tree::detached(t, child);
            let freed = t[child].tiling_size;
            let total = tree::size_total(t, tiles) - freed;
            let n = tiles.len() - 1;
            let size = t[other].tiling_size;
            let grown = u[other].tiling_size - size;
            &&& total > 0 ==> total * grown <= freed * size < total * grown + total
            &&& total == 0 ==> n * grown <= freed < n * grown + n
        }),
{
    let parent = t[child].parent->0;
    let u = tree::detached(t, child);
    let left = tree::unlinked(t, child);
    let before = tree::row(t, parent);
    let tiles = tree::row(left, parent);
    let freed: nat = t[child].tiling_size as nat;
    let total = tree::size_total(t, tiles);
    assert(t.contains_key(parent));
    tree::lemma_row_without(t, child);
    lemma_row_members(t, depth, parent, other);
    let at: int = before.index_of(child);
    let j: int = before.index_of(other);
    let i: int = if j < at {
        j
    } else {
        j - 1
    };
    assert(before[at] == child);
    assert(before[j] == other);
    assert(tiles[i] == other);
    assert(tiles.contains(other));
    tree::lemma_size_within_total(t, tiles, i);
    law_parts_are_in_proportion(freed, t[other].tiling_size as nat, total, tiles.len());
    assert(left.contains_key(other));
    assert(left[other].tiling_size == t[other].tiling_size);
    assert(t[tiles[i]].tiling_size + tree::part_of(
        freed,
        t[tiles[i]].tiling_size as nat,
        total,
        tiles.len(),
    ) <= u32::MAX);
}

/// A split around a tile takes the tile's place among its siblings and the
/// tile's size, has the tile as its only child, and is what it was asked to be.
/// The tile fills it. Nothing else changes.
pub proof fn law_wrapping_puts_a_split_in_place(
    t: Nodes,
    depth: Map<u128, nat>,
    tile: u128,
    split: u128,
    info: ContainerSpec,
    other: u128,
)
    requires
        tree::linked(t),
        tree::graded(t, depth),
        t.contains_key(tile),
        t[tile].parent is Some,
        !t.contains_key(split),
    ensures
        ({
            let parent = t[tile].parent->0;
            let u = tree::wrapped(t, tile, split, info);
            let before = t[parent].children;
            let after = u[parent].children;
            &&& u.dom() == t.dom().insert(split)
            &&& u[split].info == info
            &&& u[split].parent == Some(parent)
            &&& u[split].children == seq![tile]
            &&& u[split].tiling_size == t[tile].tiling_size
            &&& u[tile].parent == Some(split)
            &&& u[tile].tiling_size == 1_073_741_824
            &&& u[tile].info == t[tile].info
            &&& u[tile].children == t[tile].children
            &&& after.len() == before.len()
            &&& forall|i: int|
                0 <= i < before.len() ==> #[trigger] after[i] == if before[i] == tile {
                    split
                } else {
                    before[i]
                }
            &&& u[parent].info == t[parent].info
            &&& u[parent].parent == t[parent].parent
            &&& u[parent].tiling_size == t[parent].tiling_size
            &&& other != tile && other != split && other != parent ==> u[other] == t[other]
        }),
{
    let parent = t[tile].parent->0;
    let u = tree::wrapped(t, tile, split, info);
    let before = t[parent].children;
    assert(t.contains_key(parent));
    assert(depth[parent] < depth[tile]);
    assert(before.contains(tile));
    assert(before.no_duplicates());
    assert(u.dom() =~= t.dom().insert(split));
}

} // verus!
