//! What the sizes of a row add up to when tiles come and go.

use vstd::prelude::*;

use crate::detach_tile;
use crate::tree;
use crate::tree::{Nodes, FULL_SIZE};

verus! {

/// What the parts of `left` that go to `ids` add up to.
pub open spec fn parts_total(
    t: Nodes,
    ids: Seq<u128>,
    left: nat,
    total: nat,
    count: nat,
) -> nat
    decreases ids.len(),
{
    if ids.len() == 0 {
        0
    } else {
        parts_total(t, ids.drop_last(), left, total, count) + tree::part_of(
            left,
            t[ids.last()].tiling_size as nat,
            total,
            count,
        )
    }
}

/// Each part falls short of its exact share by less than one unit.
proof fn lemma_parts(t: Nodes, ids: Seq<u128>, left: nat, total: nat, count: nat)
    requires
        count > 0,
    ensures
        ({
            let parts = parts_total(t, ids, left, total, count) as int;
            let sizes = tree::size_total(t, ids) as int;
            let n = ids.len() as int;
            &&& total > 0 ==> total * parts <= left * sizes <= total * parts + (total - 1) * n
            &&& total == 0 ==> parts == n * (left / count)
        }),
    decreases ids.len(),
{
    let parts = parts_total(t, ids, left, total, count) as int;
    let sizes = tree::size_total(t, ids) as int;
    let n: int = ids.len() as int;
    if n == 0 {
        assert(total * parts == 0 && left * sizes == 0 && (total - 1) * n == 0 && n * (left
            / count) == 0) by (nonlinear_arith)
            requires
                parts == 0,
                sizes == 0,
                n == 0,
        ;
    } else {
        let shorter = ids.drop_last();
        lemma_parts(t, shorter, left, total, count);
        let size: int = t[ids.last()].tiling_size as int;
        let part: int = tree::part_of(left, size as nat, total, count) as int;
        let before: int = parts_total(t, shorter, left, total, count) as int;
        let rest: int = tree::size_total(t, shorter) as int;
        if total > 0 {
            let exact: int = left * size;
            vstd::arithmetic::div_mod::lemma_fundamental_div_mod(exact, total as int);
            vstd::arithmetic::div_mod::lemma_mod_bound(exact, total as int);
            assert(exact >= 0) by (nonlinear_arith)
                requires
                    exact == left * size,
                    size >= 0,
            ;
            assert(part == exact / (total as int));
            assert(total * (before + part) == total * before + total * part) by (nonlinear_arith);
            assert(left * (rest + size) == left * rest + exact) by (nonlinear_arith)
                requires
                    exact == left * size,
            ;
            assert((total - 1) * n == (total - 1) * (n - 1) + (total - 1)) by (nonlinear_arith);
        } else {
            assert(n * (left / count) == (n - 1) * (left / count) + left / count)
                by (nonlinear_arith);
        }
    }
}

/// All parts together fall short of what is shared by less than one unit each.
proof fn lemma_all_parts(t: Nodes, ids: Seq<u128>, left: nat)
    requires
        ids.len() > 0,
    ensures
        ({
            let parts = parts_total(t, ids, left, tree::size_total(t, ids), ids.len());
            left - ids.len() < parts <= left
        }),
{
    let total = tree::size_total(t, ids);
    let parts = parts_total(t, ids, left, total, ids.len()) as int;
    let n: int = ids.len() as int;
    lemma_parts(t, ids, left, total, ids.len());
    if total > 0 {
        assert(parts <= left) by (nonlinear_arith)
            requires
                total > 0,
                total * parts <= left * total,
        ;
        assert(left - n < parts) by (nonlinear_arith)
            requires
                total > 0,
                n > 0,
                left * total <= total * parts + (total - 1) * n,
        ;
    } else {
        vstd::arithmetic::div_mod::lemma_fundamental_div_mod(left as int, n);
        vstd::arithmetic::div_mod::lemma_mod_bound(left as int, n);
    }
}

/// What sizes add up to where each has grown by its part.
proof fn lemma_grown(t: Nodes, u: Nodes, ids: Seq<u128>, left: nat, total: nat, count: nat)
    requires
        forall|i: int|
            0 <= i < ids.len() ==> u[#[trigger] ids[i]].tiling_size == t[ids[i]].tiling_size
                + tree::part_of(left, t[ids[i]].tiling_size as nat, total, count),
    ensures
        tree::size_total(u, ids) == tree::size_total(t, ids) + parts_total(
            t,
            ids,
            left,
            total,
            count,
        ),
    decreases ids.len(),
{
    if ids.len() > 0 {
        let shorter = ids.drop_last();
        assert forall|i: int| 0 <= i < shorter.len() implies u[#[trigger] shorter[i]].tiling_size
            == t[shorter[i]].tiling_size + tree::part_of(
            left,
            t[shorter[i]].tiling_size as nat,
            total,
            count,
        ) by {
            assert(ids[i] == shorter[i]);
        }
        lemma_grown(t, u, shorter, left, total, count);
        assert(ids[ids.len() - 1] == ids.last());
    }
}

/// What sizes add up to where each has become its part.
proof fn lemma_shrunk(t: Nodes, u: Nodes, ids: Seq<u128>, left: nat, total: nat, count: nat)
    requires
        forall|i: int|
            0 <= i < ids.len() ==> u[#[trigger] ids[i]].tiling_size == tree::part_of(
                left,
                t[ids[i]].tiling_size as nat,
                total,
                count,
            ),
    ensures
        tree::size_total(u, ids) == parts_total(t, ids, left, total, count),
    decreases ids.len(),
{
    if ids.len() > 0 {
        let shorter = ids.drop_last();
        assert forall|i: int| 0 <= i < shorter.len() implies u[#[trigger] shorter[i]].tiling_size
            == tree::part_of(left, t[shorter[i]].tiling_size as nat, total, count) by {
            assert(ids[i] == shorter[i]);
        }
        lemma_shrunk(t, u, shorter, left, total, count);
        assert(ids[ids.len() - 1] == ids.last());
    }
}

/// Where the space of a tile is shared out, the tiles left behind fill the row
/// as it was filled before, apart from less than one unit each; and none of
/// them gets smaller.
pub proof fn law_sharing_out_keeps_the_row_total(t: Nodes, child: u128)
    requires
        tree::linked(t),
        t.contains_key(child),
        t[child].tiles(),
        t[child].parent is Some,
        tree::shares_fit(t, child),
        tree::row(t, t[child].parent->0).len() > 1,
    ensures
        ({
            let parent = t[child].parent->0;
            let before = tree::row(t, parent);
            let u = tree::detached(t, child);
            let after = tree::row(u, parent);
            &&& after == before.remove(before.index_of(child))
            &&& tree::size_total(t, before) - after.len() < tree::size_total(u, after)
                <= tree::size_total(t, before)
            &&& forall|i: int|
                0 <= i < after.len() ==> u[#[trigger] after[i]].tiling_size
                    >= t[after[i]].tiling_size
        }),
{
    let parent = t[child].parent->0;
    let before = tree::row(t, parent);
    let left = tree::unlinked(t, child);
    let tiles = tree::row(left, parent);
    let freed: nat = t[child].tiling_size as nat;
    let total = tree::size_total(t, tiles);
    tree::lemma_row_without(t, child);
    let u = tree::detached(t, child);
    assert(left.dom() =~= u.dom());
    tree::lemma_tiling_same(left, u, left[parent].children);
    assert(tree::row(u, parent) == tiles);
    assert forall|i: int| 0 <= i < tiles.len() implies u[#[trigger] tiles[i]].tiling_size
        == t[tiles[i]].tiling_size + tree::part_of(
        freed,
        t[tiles[i]].tiling_size as nat,
        total,
        tiles.len(),
    ) by {
        assert(tiles.contains(tiles[i]));
        assert(t.contains_key(tiles[i]));
        assert(left.contains_key(tiles[i]));
        assert(tiles[i] != child);
    }
    lemma_grown(t, u, tiles, freed, total, tiles.len());
    lemma_all_parts(t, tiles, freed);
}

/// A tile that joins a row takes an even share of it, and the row is then full,
/// apart from less than one unit for each tile that was there before.
pub proof fn law_joining_fills_the_row(t: Nodes, child: u128, parent: u128)
    requires
        tree::linked(t),
        t.contains_key(child),
        t.contains_key(parent),
        t[child].tiles(),
        t[child].parent is None,
        tree::apart(t, child, parent),
    ensures
        ({
            let before = tree::row(t, parent);
            let u = tree::attached(t, child, parent);
            let after = tree::row(u, parent);
            &&& after == before.push(child)
            &&& u[child].tiling_size == FULL_SIZE as nat / after.len()
            &&& FULL_SIZE - before.len() <= tree::size_total(u, after) <= FULL_SIZE
        }),
{
    let before = tree::row(t, parent);
    let ids = t[parent].children;
    let joined = tree::inserted(t, child, parent, ids.len() as int);
    let u = tree::attached(t, child, parent);
    tree::lemma_tiling_members(t, ids);
    assert(joined[parent].children =~= ids.push(child));
    assert(ids.push(child).drop_last() =~= ids);
    assert(u[parent].children == joined[parent].children);
    assert forall|k: u128| t.contains_key(k) implies #[trigger] u[k].info == t[k].info by {}
    tree::lemma_tiling_same(t, u, ids.push(child));
    assert(tree::row(u, parent) == before.push(child));
    assert(!before.contains(child)) by {
        if before.contains(child) {
            let j = ids.index_of(child);
            assert(t[t[parent].children[j]].parent == Some(parent));
        }
    }
    let share: nat = FULL_SIZE as nat / (before.len() + 1);
    let after = before.push(child);
    assert(after.drop_last() =~= before);
    assert(after.last() == child);
    assert(share <= FULL_SIZE) by (nonlinear_arith)
        requires
            share == FULL_SIZE as nat / (before.len() + 1),
    ;
    if before.len() == 0 {
        assert(share == FULL_SIZE) by (nonlinear_arith)
            requires
                share == FULL_SIZE as nat / (before.len() + 1),
                before.len() == 0,
        ;
        assert(tree::size_total(u, before) == 0);
    } else {
        let left: nat = (FULL_SIZE - share) as nat;
        let total = tree::size_total(t, before);
        assert forall|i: int| 0 <= i < before.len() implies u[#[trigger] before[i]].tiling_size
            == tree::part_of(left, t[before[i]].tiling_size as nat, total, before.len()) by {
            assert(before.contains(before[i]));
            let j = ids.index_of(before[i]);
            assert(t.contains_key(t[parent].children[j]));
            tree::lemma_size_within_total(t, before, i);
            tree::lemma_part_bound(
                left,
                t[before[i]].tiling_size as nat,
                total,
                before.len(),
            );
        }
        lemma_shrunk(t, u, before, left, total, before.len());
        lemma_all_parts(t, before, left);
    }
}

/// Where a closed tile has a partner, its row keeps its total exactly.
pub proof fn law_handing_back_keeps_the_row_total(t: Nodes, id: u128)
    requires
        tree::linked(t),
        t.contains_key(id),
        detach_tile::partner_of(t, id) is Some,
        detach_tile::closable(t, id),
    ensures
        ({
            let parent = t[id].parent->0;
            let u = detach_tile::tile_detached(t, id);
            tree::size_total(u, tree::row(u, parent)) == tree::size_total(t, tree::row(t, parent))
        }),
{
    let parent = t[id].parent->0;
    let partner = detach_tile::partner_of(t, id)->0;
    let before = tree::row(t, parent);
    let left = tree::unlinked(t, id);
    let u = detach_tile::tile_detached(t, id);
    tree::lemma_row_without(t, id);
    detach_tile::lemma_partner(t, id);
    let tiles = tree::row(left, parent);
    assert(left.dom() =~= u.dom());
    tree::lemma_tiling_same(left, u, left[parent].children);
    assert(tree::row(u, parent) == tiles);
    let place: int = before.index_of(id);
    assert(before[place] == id);
    assert(tiles.contains(partner)) by {
        if place >= 1 && partner == before[place - 1] {
            assert(tiles[place - 1] == partner);
        } else {
            assert(tiles[place] == before[place + 1]);
        }
    }
    let at: int = tiles.index_of(partner);
    let front = tiles.take(at);
    let back = tiles.skip(at + 1);
    assert(tiles =~= front + seq![partner] + back);
    tree::lemma_size_total_add(t, front + seq![partner], back);
    tree::lemma_size_total_add(t, front, seq![partner]);
    tree::lemma_size_total_add(u, front + seq![partner], back);
    tree::lemma_size_total_add(u, front, seq![partner]);
    assert forall|i: int| 0 <= i < front.len() implies t[#[trigger] front[i]].tiling_size
        == u[front[i]].tiling_size by {
        assert(tiles[i] == front[i] && tiles[i] != tiles[at]);
        assert(tiles.contains(tiles[i]));
    }
    assert forall|i: int| 0 <= i < back.len() implies t[#[trigger] back[i]].tiling_size
        == u[back[i]].tiling_size by {
        assert(tiles[at + 1 + i] == back[i] && tiles[at + 1 + i] != tiles[at]);
        assert(tiles.contains(tiles[at + 1 + i]));
    }
    tree::lemma_size_total_same(t, u, front);
    tree::lemma_size_total_same(t, u, back);
    reveal_with_fuel(tree::size_total, 2);
    assert(seq![partner].drop_last() =~= Seq::<u128>::empty());
}

/// Any tile of a row whose sizes add up within range can be closed.
pub proof fn law_tiles_of_ordinary_rows_can_be_closed(t: Nodes, id: u128)
    requires
        tree::linked(t),
        t.contains_key(id),
        t[id].parent is Some,
        tree::size_total(t, tree::row(t, t[id].parent->0)) <= u32::MAX,
    ensures
        tree::shares_fit(t, id),
        detach_tile::closable(t, id),
{
    tree::lemma_row_without(t, id);
    if detach_tile::partner_of(t, id) is Some {
        detach_tile::lemma_partner(t, id);
    }
    if t[id].tiles() {
        let tiles = tree::row(tree::unlinked(t, id), t[id].parent->0);
        let freed: nat = t[id].tiling_size as nat;
        let total = tree::size_total(t, tiles);
        assert forall|i: int| 0 <= i < tiles.len() implies t[#[trigger] tiles[i]].tiling_size
            + tree::part_of(freed, t[tiles[i]].tiling_size as nat, total, tiles.len())
            <= u32::MAX by {
            tree::lemma_size_within_total(t, tiles, i);
            tree::lemma_part_bound(freed, t[tiles[i]].tiling_size as nat, total, tiles.len());
        }
    }
}

} // verus!
