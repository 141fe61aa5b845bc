//! The tree of containers on a workspace, and the space each has in its row.

use std::collections::HashMap;

use vstd::prelude::*;

use crate::rect::Rect;

verus! {

broadcast use vstd::std_specs::hash::group_hash_axioms;

/// The tiling size of a container that has its parent to itself.
///
/// Tiling sizes are fractions of the parent, counted in units of one part in
/// `FULL_SIZE`. A power of two this large holds every single-precision
/// fraction from one part in 128 upwards exactly.
pub const FULL_SIZE: u32 = 1_073_741_824;

#[derive(Clone, Copy, Debug, PartialEq, Eq, Structural)]
pub enum ContainerKind {
    Workspace,
    Split,
    TilingWindow,
    NonTilingWindow,
}

/// Which way the children of a container are laid out.
#[derive(Clone, Copy, Debug, PartialEq, Eq, Structural)]
pub enum TilingDirection {
    Vertical,
    Horizontal,
}

/// The space between tiles, in pixels.
#[derive(Clone, Copy, Debug, PartialEq, Eq, Structural)]
pub struct InnerGaps {
    pub horizontal: i32,
    pub vertical: i32,
}

/// Why a command on the tree was refused.
#[derive(Clone, Copy, Debug, PartialEq, Eq, Structural)]
pub enum TreeError {
    /// The tile is not the child of a container with a tiling direction.
    NoDirectionContainer,
    /// The container has no parent to be detached from.
    NoParent,
    /// The container is not a tiling container.
    NotTiling,
}

impl ContainerKind {
    /// Whether containers of this kind share space with their siblings.
    pub open spec fn tiles(self) -> bool {
        self is Split || self is TilingWindow
    }

    /// Whether containers of this kind lay out children in a direction.
    pub open spec fn directs(self) -> bool {
        self is Workspace || self is Split
    }

    pub fn is_tiling(&self) -> (tiles: bool)
        ensures
            tiles == self.tiles(),
    {
        matches!(*self, ContainerKind::Split | ContainerKind::TilingWindow)
    }

    pub fn is_direction_container(&self) -> (directs: bool)
        ensures
            directs == self.directs(),
    {
        matches!(*self, ContainerKind::Workspace | ContainerKind::Split)
    }
}

/// What a container is, apart from its place in the tree.
#[derive(Clone, Copy, Debug)]
pub struct ContainerSpec {
    pub kind: ContainerKind,
    /// The direction of its children, if it has any.
    pub direction: TilingDirection,
    pub inner_gaps: InnerGaps,
    /// The least width the container can be given.
    pub min_width: i32,
    /// The least height the container can be given.
    pub min_height: i32,
    /// The area of a workspace.
    pub area: Rect,
}

/// A container and its place in the tree.
pub struct Node {
    pub info: ContainerSpec,
    pub parent: Option<u128>,
    pub children: Vec<u128>,
    pub tiling_size: u32,
}

/// A container and its place in the tree, as a value.
#[verifier::ext_equal]
pub struct NodeView {
    pub info: ContainerSpec,
    pub parent: Option<u128>,
    pub children: Seq<u128>,
    pub tiling_size: u32,
}

impl View for Node {
    type V = NodeView;

    open spec fn view(&self) -> NodeView {
        NodeView {
            info: self.info,
            parent: self.parent,
            children: self.children@,
            tiling_size: self.tiling_size,
        }
    }
}

impl NodeView {
    pub open spec fn tiles(self) -> bool {
        self.info.kind.tiles()
    }

    pub open spec fn directs(self) -> bool {
        self.info.kind.directs()
    }
}

/// The containers of a tree by their IDs.
pub type Nodes = Map<u128, NodeView>;

/// Whether parents and children agree about each other: a child is listed by
/// its parent exactly once, and only a container with a direction has any.
pub open spec fn linked(t: Nodes) -> bool {
    &&& forall|p: u128, i: int|
        #![trigger t[p].children[i]]
        t.contains_key(p) && 0 <= i < t[p].children.len() ==> {
            let c = t[p].children[i];
            t.contains_key(c) && t[c].parent == Some(p)
        }
    &&& forall|c: u128|
        #![trigger t[c].parent]
        t.contains_key(c) && t[c].parent is Some ==> {
            let p = t[c].parent->0;
            t.contains_key(p) && t[p].children.contains(c)
        }
    &&& forall|p: u128| #[trigger] t.contains_key(p) ==> t[p].children.no_duplicates()
    &&& forall|p: u128| #[trigger]
        t.contains_key(p) && t[p].children.len() > 0 ==> t[p].directs()
}

/// Whether every container is at a greater depth than its parent, so that no
/// container is above itself.
pub open spec fn graded(t: Nodes, depth: Map<u128, nat>) -> bool {
    forall|c: u128|
        #![trigger t[c].parent]
        t.contains_key(c) && t[c].parent is Some ==> depth[t[c].parent->0] < depth[c]
}

/// Whether `other` is neither `id` nor anywhere below it: either nothing is
/// below `id`, or some set of containers holds `id` and, with any container,
/// its children, but not `other`.
pub open spec fn apart(t: Nodes, id: u128, other: u128) -> bool {
    ||| id != other && t[id].children.len() == 0
    ||| exists|below: Set<u128>| #[trigger] encloses(t, below, id) && !below.contains(other)
}

/// Whether `below` holds `id` and the children of whatever it holds.
pub open spec fn encloses(t: Nodes, below: Set<u128>, id: u128) -> bool {
    &&& below.contains(id)
    &&& forall|c: u128|
        #![trigger t[c].parent]
        t.contains_key(c) && t[c].parent is Some && below.contains(t[c].parent->0)
            ==> below.contains(c)
}

/// The tiling containers among `ids`, in order.
pub open spec fn tiling_of(t: Nodes, ids: Seq<u128>) -> Seq<u128>
    decreases ids.len(),
{
    if ids.len() == 0 {
        Seq::empty()
    } else {
        let rest = tiling_of(t, ids.drop_last());
        if t[ids.last()].tiles() {
            rest.push(ids.last())
        } else {
            rest
        }
    }
}

/// The tiling children of `parent`, in order.
pub open spec fn row(t: Nodes, parent: u128) -> Seq<u128> {
    tiling_of(t, t[parent].children)
}

/// What the tiling sizes of `ids` add up to.
pub open spec fn size_total(t: Nodes, ids: Seq<u128>) -> nat
    decreases ids.len(),
{
    if ids.len() == 0 {
        0
    } else {
        size_total(t, ids.drop_last()) + t[ids.last()].tiling_size as nat
    }
}

/// The tree with the tiling size of `id` set.
pub open spec fn resized(t: Nodes, id: u128, size: u32) -> Nodes {
    t.insert(id, NodeView { tiling_size: size, ..t[id] })
}

/// The tree with the tiling size of each of `ids` set by `size`.
pub open spec fn rescaled(t: Nodes, ids: Seq<u128>, size: spec_fn(u128) -> u32) -> Nodes {
    t.map_entries(
        |k: u128, v: NodeView|
            if ids.contains(k) {
                NodeView { tiling_size: size(k), ..v }
            } else {
                v
            },
    )
}

/// The tree with the detached `child` made child number `index` of `parent`.
pub open spec fn inserted(t: Nodes, child: u128, parent: u128, index: int) -> Nodes {
    let under = t.insert(
        parent,
        NodeView { children: t[parent].children.insert(index, child), ..t[parent] },
    );
    under.insert(child, NodeView { parent: Some(parent), ..under[child] })
}

/// The tree with `child` taken out of its parent's children.
pub open spec fn unlinked(t: Nodes, child: u128) -> Nodes {
    let parent = t[child].parent->0;
    let siblings = t[parent].children;
    let without = t.insert(
        parent,
        NodeView { children: siblings.remove(siblings.index_of(child)), ..t[parent] },
    );
    without.insert(child, NodeView { parent: None, ..without[child] })
}

/// A container's part of `left`, in proportion to its size among `count`
/// containers whose sizes add up to `total`. Containers without any size take
/// even parts.
pub open spec fn part_of(left: nat, size: nat, total: nat, count: nat) -> nat {
    if total == 0 {
        left / count
    } else {
        (left * size) / total
    }
}

/// The tree once `child` has joined `parent` as its last child.
///
/// A tiling child takes an even share of the row, which the tiles already
/// there give up in proportion to their sizes.
pub open spec fn attached(t: Nodes, child: u128, parent: u128) -> Nodes {
    let joined = inserted(t, child, parent, t[parent].children.len() as int);
    let tiles = row(t, parent);
    if !t[child].tiles() {
        joined
    } else if tiles.len() == 0 {
        resized(joined, child, FULL_SIZE)
    } else {
        let share = FULL_SIZE as nat / (tiles.len() + 1);
        let total = size_total(t, tiles);
        resized(
            rescaled(
                joined,
                tiles,
                |k: u128|
                    part_of(
                        (FULL_SIZE - share) as nat,
                        t[k].tiling_size as nat,
                        total,
                        tiles.len(),
                    ) as u32,
            ),
            child,
            share as u32,
        )
    }
}

/// The tree once `child` has left its parent. The tiles left behind share out
/// the space of a tiling child in proportion to their sizes.
pub open spec fn detached(t: Nodes, child: u128) -> Nodes {
    let left = unlinked(t, child);
    let tiles = row(left, t[child].parent->0);
    if !t[child].tiles() {
        left
    } else {
        let total = size_total(t, tiles);
        rescaled(
            left,
            tiles,
            |k: u128|
                (t[k].tiling_size + part_of(
                    t[child].tiling_size as nat,
                    t[k].tiling_size as nat,
                    total,
                    tiles.len(),
                )) as u32,
        )
    }
}

/// Whether the tiles that `child` leaves behind stay within the range of a size
/// when they share out its space.
pub open spec fn shares_fit(t: Nodes, child: u128) -> bool {
    t[child].parent is Some && t[child].tiles() ==> {
        let tiles = row(unlinked(t, child), t[child].parent->0);
        forall|i: int|
            0 <= i < tiles.len() ==> t[#[trigger] tiles[i]].tiling_size + part_of(
                t[child].tiling_size as nat,
                t[tiles[i]].tiling_size as nat,
                size_total(t, tiles),
                tiles.len(),
            ) <= u32::MAX
    }
}

/// The tree once `tile` has been wrapped in the new container `split`, which
/// takes the tile's place and size.
pub open spec fn wrapped(t: Nodes, tile: u128, split: u128, info: ContainerSpec) -> Nodes {
    let parent = t[tile].parent->0;
    let siblings = t[parent].children;
    t.insert(
        parent,
        NodeView { children: siblings.update(siblings.index_of(tile), split), ..t[parent] },
    ).insert(
        split,
        NodeView {
            info,
            parent: Some(parent),
            children: seq![tile],
            tiling_size: t[tile].tiling_size,
        },
    ).insert(tile, NodeView { parent: Some(split), tiling_size: FULL_SIZE, ..t[tile] })
}

/// The containers of a workspace.
pub struct ContainerTree {
    nodes: HashMap<u128, Node>,
    depth: Ghost<Map<u128, nat>>,
}

impl View for ContainerTree {
    type V = Nodes;

    closed spec fn view(&self) -> Nodes {
        self.nodes@.map_values(|n: Node| n@)
    }
}

impl ContainerTree {
    /// A depth for each container that grows from parent to child.
    pub closed spec fn depths(&self) -> Map<u128, nat> {
        self.depth@
    }

    pub open spec fn wf(&self) -> bool {
        linked(self@) && graded(self@, self.depths())
    }

    pub fn new() -> (tree: Self)
        ensures
            tree.wf(),
            tree@ == Map::<u128, NodeView>::empty(),
    {
        let tree = ContainerTree { nodes: HashMap::new(), depth: Ghost(Map::empty()) };
        assert(tree@ =~= Map::<u128, NodeView>::empty());
        tree
    }

    /// Adds a detached container without children.
    pub fn add_container(&mut self, id: u128, info: ContainerSpec)
        requires
            old(self).wf(),
            !old(self)@.contains_key(id),
        ensures
            final(self).wf(),
            final(self)@ == old(self)@.insert(
                id,
                (NodeView { info, parent: None, children: Seq::empty(), tiling_size: FULL_SIZE }),
            ),
    {
        let node = Node { info, parent: None, children: Vec::new(), tiling_size: FULL_SIZE };
        let ghost value = node@;
        assert(value.children =~= Seq::empty());
        self.nodes.insert(id, node);
        assert(self@ =~= old(self)@.insert(id, value));
        assert(linked(self@)) by {
            assert forall|c: u128| #[trigger] self@[c].parent is Some
                && self@.contains_key(c) implies self@.contains_key(self@[c].parent->0)
                && self@[self@[c].parent->0].children.contains(c) by {
                assert(old(self)@[c].parent is Some);
            }
        }
        assert(graded(self@, self.depths())) by {
            assert forall|c: u128| #[trigger] self@[c].parent is Some
                && self@.contains_key(c) implies self.depths()[self@[c].parent->0]
                < self.depths()[c] by {
                assert(old(self)@[c].parent is Some);
            }
        }
    }

    /// The container `id`.
    pub fn node(&self, id: u128) -> (node: &Node)
        requires
            self@.contains_key(id),
        ensures
            node@ == self@[id],
    {
        self.nodes.get(&id).unwrap()
    }

    /// Whether there is a container `id`.
    pub fn contains(&self, id: u128) -> (found: bool)
        ensures
            found == self@.contains_key(id),
    {
        self.nodes.contains_key(&id)
    }
}

/// A set of containers that shows that `other` is not below `id`.
pub proof fn lemma_apart(t: Nodes, id: u128, other: u128) -> (below: Set<u128>)
    requires
        linked(t),
        t.contains_key(id),
        apart(t, id, other),
    ensures
        encloses(t, below, id),
        !below.contains(other),
{
    if id != other && t[id].children.len() == 0 {
        let below = set![id];
        assert(encloses(t, below, id)) by {
            assert forall|c: u128|
                #![trigger t[c].parent]
                t.contains_key(c) && t[c].parent is Some && below.contains(
                    t[c].parent->0,
                ) implies below.contains(c) by {
                assert(t[id].children.contains(c));
            }
        }
        below
    } else {
        choose|below: Set<u128>| #[trigger] encloses(t, below, id) && !below.contains(other)
    }
}

/// Which containers of `ids` tile depends only on their kinds.
pub proof fn lemma_tiling_same(t: Nodes, u: Nodes, ids: Seq<u128>)
    requires
        forall|i: int|
            0 <= i < ids.len() ==> t[#[trigger] ids[i]].info.kind == u[ids[i]].info.kind,
    ensures
        tiling_of(t, ids) == tiling_of(u, ids),
    decreases ids.len(),
{
    if ids.len() > 0 {
        assert(t[ids[ids.len() - 1]].info.kind == u[ids[ids.len() - 1]].info.kind);
        assert forall|i: int| 0 <= i < ids.drop_last().len() implies t[#[trigger] ids.drop_last()[i]].info.kind
            == u[ids.drop_last()[i]].info.kind by {
            assert(t[ids[i]].info.kind == u[ids[i]].info.kind);
        }
        lemma_tiling_same(t, u, ids.drop_last());
    }
}

/// The tiling containers of `ids` are exactly those of `ids` that tile.
pub proof fn lemma_tiling_members(t: Nodes, ids: Seq<u128>)
    ensures
        tiling_of(t, ids).len() <= ids.len(),
        forall|c: u128| #[trigger]
            tiling_of(t, ids).contains(c) <==> ids.contains(c) && t[c].tiles(),
        ids.no_duplicates() ==> tiling_of(t, ids).no_duplicates(),
    decreases ids.len(),
{
    if ids.len() > 0 {
        let front = ids.drop_last();
        let rest = tiling_of(t, front);
        lemma_tiling_members(t, front);
        let all = tiling_of(t, ids);
        assert(ids =~= front.push(ids.last()));
        assert forall|c: u128| #[trigger] all.contains(c) <==> ids.contains(c) && t[c].tiles() by {
            if all.contains(c) {
                let k = all.index_of(c);
                if k < rest.len() {
                    assert(rest[k] == c);
                    assert(rest.contains(c));
                    let j = front.index_of(c);
                    assert(ids[j] == c);
                } else {
                    assert(c == ids.last());
                    assert(ids[ids.len() - 1] == c);
                }
            }
            if ids.contains(c) && t[c].tiles() {
                let j = ids.index_of(c);
                if j < ids.len() - 1 {
                    assert(front[j] == c);
                    assert(rest.contains(c));
                    let k = rest.index_of(c);
                    assert(all[k] == c);
                } else {
                    assert(all[all.len() - 1] == c);
                }
            }
        }
        if ids.no_duplicates() {
            assert(front.no_duplicates());
            if t[ids.last()].tiles() {
                assert(!rest.contains(ids.last())) by {
                    if front.contains(ids.last()) {
                        let j = front.index_of(ids.last());
                        assert(ids[j] == ids[ids.len() - 1]);
                    }
                }
                assert(all.no_duplicates());
            }
        }
    }
}

/// The tiling containers of a sequence are those of its front and then those
/// of its back.
pub proof fn lemma_tiling_add(t: Nodes, front: Seq<u128>, back: Seq<u128>)
    ensures
        tiling_of(t, front + back) == tiling_of(t, front) + tiling_of(t, back),
    decreases back.len(),
{
    if back.len() == 0 {
        assert(front + back =~= front);
        assert(tiling_of(t, front) + tiling_of(t, back) =~= tiling_of(t, front));
    } else {
        assert((front + back).drop_last() =~= front + back.drop_last());
        lemma_tiling_add(t, front, back.drop_last());
        assert(tiling_of(t, front + back) =~= tiling_of(t, front) + tiling_of(t, back));
    }
}

/// Sizes add up to the same where each is the same.
pub proof fn lemma_size_total_same(t: Nodes, u: Nodes, ids: Seq<u128>)
    requires
        forall|i: int|
            0 <= i < ids.len() ==> t[#[trigger] ids[i]].tiling_size == u[ids[i]].tiling_size,
    ensures
        size_total(t, ids) == size_total(u, ids),
    decreases ids.len(),
{
    if ids.len() > 0 {
        assert(t[ids[ids.len() - 1]].tiling_size == u[ids[ids.len() - 1]].tiling_size);
        assert forall|i: int| 0 <= i < ids.drop_last().len() implies t[#[trigger] ids.drop_last()[i]].tiling_size
            == u[ids.drop_last()[i]].tiling_size by {
            assert(t[ids[i]].tiling_size == u[ids[i]].tiling_size);
        }
        lemma_size_total_same(t, u, ids.drop_last());
    }
}

pub proof fn lemma_size_total_add(t: Nodes, front: Seq<u128>, back: Seq<u128>)
    ensures
        size_total(t, front + back) == size_total(t, front) + size_total(t, back),
    decreases back.len(),
{
    if back.len() == 0 {
        assert(front + back =~= front);
    } else {
        assert((front + back).drop_last() =~= front + back.drop_last());
        lemma_size_total_add(t, front, back.drop_last());
    }
}

/// A container's size is part of what its row adds up to.
pub proof fn lemma_size_within_total(t: Nodes, ids: Seq<u128>, i: int)
    requires
        0 <= i < ids.len(),
    ensures
        t[ids[i]].tiling_size <= size_total(t, ids),
    decreases ids.len(),
{
    if i < ids.len() - 1 {
        lemma_size_within_total(t, ids.drop_last(), i);
    }
}

/// Two sizes of a row together are part of what the row adds up to.
pub proof fn lemma_two_sizes_within_total(t: Nodes, ids: Seq<u128>, i: int, j: int)
    requires
        0 <= i < j < ids.len(),
    ensures
        t[ids[i]].tiling_size + t[ids[j]].tiling_size <= size_total(t, ids),
    decreases ids.len(),
{
    if j < ids.len() - 1 {
        lemma_two_sizes_within_total(t, ids.drop_last(), i, j);
    } else {
        lemma_size_within_total(t, ids.drop_last(), i);
    }
}

/// Whether two trees differ in nothing but tiling sizes.
pub open spec fn same_shape(t: Nodes, u: Nodes) -> bool {
    &&& t.dom() == u.dom()
    &&& forall|k: u128|
        #![trigger u[k]]
        t.contains_key(k) ==> t[k].info == u[k].info && t[k].parent == u[k].parent
            && t[k].children == u[k].children
}

pub proof fn lemma_same_shape(t: Nodes, u: Nodes, depth: Map<u128, nat>)
    requires
        same_shape(t, u),
        linked(t),
        graded(t, depth),
    ensures
        linked(u),
        graded(u, depth),
{
    assert forall|p: u128, i: int|
        #![trigger u[p].children[i]]
        u.contains_key(p) && 0 <= i < u[p].children.len() implies ({
        let c = u[p].children[i];
        u.contains_key(c) && u[c].parent == Some(p)
    }) by {
        assert(t.contains_key(p));
        assert(t[p].children[i] == u[p].children[i]);
    }
    assert forall|c: u128|
        #![trigger u[c].parent]
        u.contains_key(c) && u[c].parent is Some implies ({
        let p = u[c].parent->0;
        u.contains_key(p) && u[p].children.contains(c) && depth[p] < depth[c]
    }) by {
        assert(t.contains_key(c));
        assert(t[c].parent == u[c].parent);
    }
    assert forall|p: u128| #[trigger] u.contains_key(p) implies u[p].children.no_duplicates() && (
    u[p].children.len() > 0 ==> u[p].directs()) by {
        assert(t.contains_key(p));
        assert(u[p].info == t[p].info);
    }
}

/// A container that has no parent is nobody's child.
proof fn lemma_detached_is_no_child(t: Nodes, child: u128)
    requires
        linked(t),
        t.contains_key(child),
        t[child].parent is None,
    ensures
        forall|p: u128| #[trigger] t.contains_key(p) ==> !t[p].children.contains(child),
{
    assert forall|p: u128| #[trigger] t.contains_key(p) implies !t[p].children.contains(child) by {
        if t[p].children.contains(child) {
            let i = t[p].children.index_of(child);
            assert(t[t[p].children[i]].parent == Some(p));
        }
    }
}

/// The depths once `child` is under `parent`.
pub open spec fn sunk(
    depth: Map<u128, nat>,
    below: Set<u128>,
    child: u128,
    parent: u128,
) -> Map<u128, nat> {
    Map::new(
        |k: u128| true,
        |k: u128|
            if below.contains(k) {
                depth[k] + depth[parent] + 1
            } else {
                depth[k]
            },
    )
}

pub proof fn lemma_inserted(
    t: Nodes,
    depth: Map<u128, nat>,
    below: Set<u128>,
    child: u128,
    parent: u128,
    index: int,
)
    requires
        linked(t),
        graded(t, depth),
        t.contains_key(child),
        t.contains_key(parent),
        t[child].parent is None,
        t[parent].directs(),
        0 <= index <= t[parent].children.len(),
        encloses(t, below, child),
        !below.contains(parent),
    ensures
        linked(inserted(t, child, parent, index)),
        graded(inserted(t, child, parent, index), sunk(depth, below, child, parent)),
{
    let u = inserted(t, child, parent, index);
    let d = sunk(depth, below, child, parent);
    let old_children = t[parent].children;
    let new_children = u[parent].children;
    lemma_detached_is_no_child(t, child);
    assert(child != parent);
    assert(new_children =~= old_children.insert(index, child));
    assert(new_children[index] == child);
    assert forall|p: u128, i: int|
        #![trigger u[p].children[i]]
        u.contains_key(p) && 0 <= i < u[p].children.len() implies ({
        let c = u[p].children[i];
        u.contains_key(c) && u[c].parent == Some(p)
    }) by {
        if p == parent {
            if i < index {
                assert(new_children[i] == old_children[i]);
                assert(old_children.contains(old_children[i]));
            } else if i > index {
                assert(new_children[i] == old_children[i - 1]);
                assert(old_children.contains(old_children[i - 1]));
            }
        } else {
            let c = t[p].children[i];
            assert(t[p].children.contains(c));
            assert(c != child);
            assert(t[c].parent == Some(p));
        }
    }
    assert forall|c: u128|
        #![trigger u[c].parent]
        u.contains_key(c) && u[c].parent is Some implies ({
        let p = u[c].parent->0;
        u.contains_key(p) && u[p].children.contains(c) && d[p] < d[c]
    }) by {
        if c == child {
            assert(new_children.contains(child));
        } else {
            assert(t.contains_key(c) && t[c].parent == u[c].parent);
            let p = t[c].parent->0;
            assert(t[p].children.contains(c));
            if p == parent {
                let i = old_children.index_of(c);
                if i < index {
                    assert(new_children[i] == c);
                } else {
                    assert(new_children[i + 1] == c);
                }
            }
        }
    }
    assert forall|p: u128| #[trigger] u.contains_key(p) implies u[p].children.no_duplicates() && (
    u[p].children.len() > 0 ==> u[p].directs()) by {
        assert(t.contains_key(p));
        if p == parent {
            assert(!old_children.contains(child));
            assert forall|i: int, j: int|
                0 <= i < new_children.len() && 0 <= j < new_children.len() && i
                    != j implies new_children[i] != new_children[j] by {
                let a: int = if i < index {
                    i
                } else {
                    i - 1
                };
                let b: int = if j < index {
                    j
                } else {
                    j - 1
                };
                if i == index {
                    assert(old_children.contains(old_children[b]));
                } else if j == index {
                    assert(old_children.contains(old_children[a]));
                } else {
                    assert(old_children[a] != old_children[b]);
                }
            }
        }
    }
}

/// The tree with `split` put between `tile` and its parent keeps its links.
pub proof fn lemma_wrapped(
    t: Nodes,
    depth: Map<u128, nat>,
    tile: u128,
    split: u128,
    info: ContainerSpec,
)
    requires
        linked(t),
        graded(t, depth),
        t.contains_key(tile),
        t[tile].parent is Some,
        !t.contains_key(split),
        info.kind is Split,
    ensures
        linked(wrapped(t, tile, split, info)),
        graded(wrapped(t, tile, split, info), doubled(depth, tile, split)),
{
    let u = wrapped(t, tile, split, info);
    let d = doubled(depth, tile, split);
    let parent = t[tile].parent->0;
    let before = t[parent].children;
    let at: int = before.index_of(tile);
    assert(before.contains(tile));
    assert(depth[parent] < depth[tile]);
    let after = u[parent].children;
    assert(after =~= before.update(at, split));
    assert(!before.contains(split)) by {
        if before.contains(split) {
            let i = before.index_of(split);
            assert(t.contains_key(t[parent].children[i]));
        }
    }
    assert forall|p: u128, i: int|
        #![trigger u[p].children[i]]
        u.contains_key(p) && 0 <= i < u[p].children.len() implies ({
        let c = u[p].children[i];
        u.contains_key(c) && u[c].parent == Some(p)
    }) by {
        if p == split {
        } else {
            assert(t.contains_key(p));
            let c = t[p].children[i];
            assert(t.contains_key(c) && t[c].parent == Some(p));
            if p == parent {
                if i != at {
                    assert(before[i] != before[at]);
                }
            }
        }
    }
    assert forall|c: u128|
        #![trigger u[c].parent]
        u.contains_key(c) && u[c].parent is Some implies ({
        let p = u[c].parent->0;
        u.contains_key(p) && u[p].children.contains(c) && d[p] < d[c]
    }) by {
        if c == split {
            assert(after[at] == split);
        } else if c == tile {
            assert(u[split].children[0] == tile);
        } else {
            assert(t.contains_key(c) && t[c].parent is Some);
            let p = t[c].parent->0;
            assert(t.contains_key(p) && t[p].children.contains(c));
            if p == parent {
                let i = before.index_of(c);
                assert(after[i] == c);
            }
        }
    }
    assert forall|p: u128| #[trigger] u.contains_key(p) implies u[p].children.no_duplicates() && (
    u[p].children.len() > 0 ==> u[p].directs()) by {
        if p == split {
        } else {
            assert(t.contains_key(p));
            if p == parent {
                assert forall|i: int, j: int|
                    0 <= i < after.len() && 0 <= j < after.len() && i != j implies after[i]
                    != after[j] by {
                    assert(before[i] != before[j]);
                    assert(before.contains(before[i]) && before.contains(before[j]));
                }
            }
        }
    }
}

/// The depths once `split` is just above `tile`.
pub open spec fn doubled(depth: Map<u128, nat>, tile: u128, split: u128) -> Map<u128, nat> {
    Map::new(
        |k: u128| true,
        |k: u128|
            if k == split {
                (2 * depth[tile] - 1) as nat
            } else {
                2 * depth[k]
            },
    )
}

/// The tree with `child` taken out keeps its links.
proof fn lemma_unlinked(t: Nodes, depth: Map<u128, nat>, child: u128)
    requires
        linked(t),
        graded(t, depth),
        t.contains_key(child),
        t[child].parent is Some,
    ensures
        linked(unlinked(t, child)),
        graded(unlinked(t, child), depth),
{
    let u = unlinked(t, child);
    let parent = t[child].parent->0;
    let before = t[parent].children;
    let at: int = before.index_of(child);
    assert(before.contains(child));
    assert(depth[parent] < depth[child]);
    let after = u[parent].children;
    assert(after =~= before.remove(at));
    assert forall|p: u128, i: int|
        #![trigger u[p].children[i]]
        u.contains_key(p) && 0 <= i < u[p].children.len() implies ({
        let c = u[p].children[i];
        u.contains_key(c) && u[c].parent == Some(p)
    }) by {
        assert(t.contains_key(p));
        if p == parent {
            let k: int = if i < at {
                i
            } else {
                i + 1
            };
            assert(after[i] == before[k]);
            assert(before[k] != before[at]);
            assert(t[t[parent].children[k]].parent == Some(parent));
        } else {
            let c = t[p].children[i];
            assert(t[c].parent == Some(p));
        }
    }
    assert forall|c: u128|
        #![trigger u[c].parent]
        u.contains_key(c) && u[c].parent is Some implies ({
        let p = u[c].parent->0;
        u.contains_key(p) && u[p].children.contains(c) && depth[p] < depth[c]
    }) by {
        assert(t.contains_key(c) && t[c].parent is Some);
        let p = t[c].parent->0;
        assert(t[p].children.contains(c));
        if p == parent {
            let k = before.index_of(c);
            if k < at {
                assert(after[k] == c);
            } else {
                assert(after[k - 1] == c);
            }
        }
    }
    assert forall|p: u128| #[trigger] u.contains_key(p) implies u[p].children.no_duplicates() && (
    u[p].children.len() > 0 ==> u[p].directs()) by {
        assert(t.contains_key(p));
        if p == parent {
            assert forall|i: int, j: int|
                0 <= i < after.len() && 0 <= j < after.len() && i != j implies after[i]
                != after[j] by {
                let a: int = if i < at {
                    i
                } else {
                    i + 1
                };
                let b: int = if j < at {
                    j
                } else {
                    j + 1
                };
                assert(before[a] != before[b]);
            }
        }
    }
}

/// The position of `id` in `ids`, where it occurs.
pub(crate) fn position_of(ids: &Vec<u128>, id: u128) -> (index: usize)
    requires
        ids@.contains(id),
        ids@.no_duplicates(),
    ensures
        index < ids@.len(),
        ids@[index as int] == id,
        index == ids@.index_of(id),
{
    let mut i: usize = 0;
    while ids[i] != id
        invariant
            i < ids@.len(),
            ids@.contains(id),
            forall|j: int| 0 <= j < i ==> ids@[j] != id,
        decreases ids@.len() - i,
    {
        assert(i + 1 < ids.len()) by {
            let k = ids@.index_of(id);
            assert(ids@[k] == id);
        }
        i = i + 1;
    }
    i
}

impl ContainerTree {
    /// Puts a changed container back.
    fn put(&mut self, id: u128, node: Node)
        ensures
            final(self)@ == old(self)@.insert(id, node@),
            final(self).depths() == old(self).depths(),
    {
        self.nodes.insert(id, node);
        assert(self@ =~= old(self)@.insert(id, node@));
    }

    /// Takes a container out to be changed.
    fn take(&mut self, id: u128) -> (node: Node)
        requires
            old(self)@.contains_key(id),
        ensures
            node@ == old(self)@[id],
            final(self)@ == old(self)@.remove(id),
            final(self).depths() == old(self).depths(),
    {
        let node = self.nodes.remove(&id).unwrap();
        assert(self@ =~= old(self)@.remove(id));
        node
    }

    /// Sets the tiling size of a container.
    pub fn set_tiling_size(&mut self, id: u128, size: u32)
        requires
            old(self).wf(),
            old(self)@.contains_key(id),
        ensures
            final(self).wf(),
            final(self).depths() == old(self).depths(),
            final(self)@ == resized(old(self)@, id, size),
    {
        let mut node = self.take(id);
        node.tiling_size = size;
        self.put(id, node);
        assert(self@ =~= resized(old(self)@, id, size));
        proof {
            lemma_same_shape(old(self)@, self@, self.depths());
        }
    }

    /// The tiling children of `parent`, in order.
    pub fn tiling_children(&self, parent: u128) -> (tiles: Vec<u128>)
        requires
            self.wf(),
            self@.contains_key(parent),
        ensures
            tiles@ == row(self@, parent),
    {
        let mut tiles: Vec<u128> = Vec::new();
        let children = &self.node(parent).children;
        let n: usize = children.len();
        for i in 0..n
            invariant
                self.wf(),
                self@.contains_key(parent),
                children@ == self@[parent].children,
                n == children@.len(),
                tiles@ == tiling_of(self@, children@.take(i as int)),
        {
            assert(children@.take(i + 1).drop_last() =~= children@.take(i as int));
            let child: u128 = children[i];
            assert(self@.contains_key(self@[parent].children[i as int]));
            if self.node(child).info.kind.is_tiling() {
                tiles.push(child);
            }
        }
        assert(children@.take(n as int) =~= children@);
        tiles
    }

    /// The position of a container among its parent's children.
    pub fn child_index(&self, id: u128) -> (index: usize)
        requires
            self.wf(),
            self@.contains_key(id),
            self@[id].parent is Some,
        ensures
            index == self@[self@[id].parent->0].children.index_of(id),
            index < self@[self@[id].parent->0].children.len(),
            index < usize::MAX,
    {
        let parent: u128 = self.node(id).parent.unwrap();
        assert(self@[id].parent == Some(parent));
        let children = &self.node(parent).children;
        let index: usize = position_of(children, id);
        assert(index < children.len());
        index
    }

    /// What the tiling sizes of `ids` add up to.
    fn total_size(&self, ids: &Vec<u128>) -> (total: u128)
        requires
            forall|i: int| 0 <= i < ids@.len() ==> self@.contains_key(#[trigger] ids@[i]),
        ensures
            total == size_total(self@, ids@),
            total <= ids@.len() * 0xffff_ffff,
    {
        let mut total: u128 = 0;
        let n: usize = ids.len();
        for i in 0..n
            invariant
                n == ids@.len(),
                forall|k: int| 0 <= k < ids@.len() ==> self@.contains_key(#[trigger] ids@[k]),
                total == size_total(self@, ids@.take(i as int)),
                total <= i * 0xffff_ffff,
        {
            assert(ids@.take(i + 1).drop_last() =~= ids@.take(i as int));
            total = total + self.node(ids[i]).tiling_size as u128;
        }
        assert(ids@.take(n as int) =~= ids@);
        total
    }

    /// Makes the detached `child` child number `index` of `parent`, without
    /// giving it any of the row's space.
    pub fn insert_container(&mut self, child: u128, parent: u128, index: usize)
        requires
            old(self).wf(),
            old(self)@.contains_key(child),
            old(self)@.contains_key(parent),
            old(self)@[child].parent is None,
            old(self)@[parent].directs(),
            index <= old(self)@[parent].children.len(),
            apart(old(self)@, child, parent),
        ensures
            final(self).wf(),
            final(self)@ == inserted(old(self)@, child, parent, index as int),
    {
        let ghost t = self@;
        let ghost depth = self.depths();
        let ghost below = lemma_apart(t, child, parent);
        let mut above = self.take(parent);
        above.children.insert(index, child);
        self.put(parent, above);
        let mut node = self.take(child);
        node.parent = Some(parent);
        self.put(child, node);
        self.depth = Ghost(sunk(depth, below, child, parent));
        assert(self@ =~= inserted(t, child, parent, index as int));
        proof {
            lemma_inserted(t, depth, below, child, parent, index as int);
        }
    }

    /// Takes `child` out of its parent's children, leaving every size as it is.
    pub fn unlink_container(&mut self, child: u128)
        requires
            old(self).wf(),
            old(self)@.contains_key(child),
            old(self)@[child].parent is Some,
        ensures
            final(self).wf(),
            final(self)@ == unlinked(old(self)@, child),
    {
        let ghost t = self@;
        let parent: u128 = self.node(child).parent.unwrap();
        assert(t[child].parent == Some(parent));
        assert(t.contains_key(parent));
        let mut above = self.take(parent);
        let index: usize = position_of(&above.children, child);
        above.children.remove(index);
        self.put(parent, above);
        proof {
            lemma_unlinked(t, self.depths(), child);
        }
        let mut node = self.take(child);
        node.parent = None;
        self.put(child, node);
        assert(self@ =~= unlinked(t, child));
    }

    /// Puts the new container `split` in the place of `tile`, with the tile as
    /// its only child.
    pub fn wrap_in_split_container(&mut self, tile: u128, split: u128, info: ContainerSpec)
        requires
            old(self).wf(),
            old(self)@.contains_key(tile),
            old(self)@[tile].parent is Some,
            !old(self)@.contains_key(split),
            info.kind is Split,
        ensures
            final(self).wf(),
            final(self)@ == wrapped(old(self)@, tile, split, info),
    {
        let ghost t = self@;
        let ghost depth = self.depths();
        let parent: u128 = self.node(tile).parent.unwrap();
        assert(t[tile].parent == Some(parent));
        assert(t.contains_key(parent));
        assert(depth[parent] < depth[tile]);
        let mut above = self.take(parent);
        let index: usize = position_of(&above.children, tile);
        above.children.set(index, split);
        self.put(parent, above);
        let mut node = self.take(tile);
        let size: u32 = node.tiling_size;
        node.parent = Some(split);
        node.tiling_size = FULL_SIZE;
        let mut children: Vec<u128> = Vec::new();
        children.push(tile);
        let ghost between = NodeView {
            info,
            parent: Some(parent),
            children: seq![tile],
            tiling_size: size,
        };
        assert(children@ =~= seq![tile]);
        self.put(split, Node { info, parent: Some(parent), children, tiling_size: size });
        self.put(tile, node);
        self.depth = Ghost(doubled(depth, tile, split));
        assert(self@ =~= wrapped(t, tile, split, info));
        proof {
            lemma_wrapped(t, depth, tile, split, info);
        }
    }
}

/// A part of `left` is no more than all of it.
pub proof fn lemma_part_bound(left: nat, size: nat, total: nat, count: nat)
    requires
        size <= total,
        count > 0,
    ensures
        part_of(left, size, total, count) <= left,
{
    if total == 0 {
        assert(left / count <= left) by (nonlinear_arith)
            requires
                count > 0,
        ;
    } else {
        assert(left * size <= left * total) by (nonlinear_arith)
            requires
                size <= total,
        ;
        assert((left * size) / total <= left) by (nonlinear_arith)
            requires
                left * size <= left * total,
                total > 0,
        ;
    }
}

/// The part of `left` due to a container of `size`.
fn part(left: u32, size: u32, total: u128, count: usize) -> (amount: u32)
    requires
        size <= total,
        count > 0,
    ensures
        amount == part_of(left as nat, size as nat, total as nat, count as nat),
        amount <= left,
{
    proof {
        lemma_part_bound(left as nat, size as nat, total as nat, count as nat);
        assert(0 <= left * size <= 0xffff_ffff * 0xffff_ffff) by (nonlinear_arith)
            requires
                0 <= left <= 0xffff_ffff,
                0 <= size <= 0xffff_ffff,
        ;
    }
    if total == 0 {
        (left as u128 / count as u128) as u32
    } else {
        ((left as u128 * size as u128) / total) as u32
    }
}

/// Setting the sizes one container after another sets them all.
proof fn lemma_rescale_step(t: Nodes, ids: Seq<u128>, size: spec_fn(u128) -> u32, i: int)
    requires
        0 <= i < ids.len(),
        forall|k: int| 0 <= k < ids.len() ==> t.contains_key(#[trigger] ids[k]),
    ensures
        resized(rescaled(t, ids.take(i), size), ids[i], size(ids[i])) == rescaled(
            t,
            ids.take(i + 1),
            size,
        ),
{
    let a = resized(rescaled(t, ids.take(i), size), ids[i], size(ids[i]));
    let b = rescaled(t, ids.take(i + 1), size);
    assert(t.contains_key(ids[i]));
    assert(ids.take(i + 1)[i] == ids[i]);
    assert forall|k: u128| ids.take(i + 1).contains(k) <==> ids.take(i).contains(k) || k
        == ids[i] by {
        if ids.take(i + 1).contains(k) {
            let j = ids.take(i + 1).index_of(k);
            if j < i {
                assert(ids.take(i)[j] == k);
            }
        }
        if ids.take(i).contains(k) {
            let j = ids.take(i).index_of(k);
            assert(ids.take(i + 1)[j] == k);
        }
    }
    assert(a =~= b);
}

proof fn lemma_rescaled_nothing(t: Nodes, ids: Seq<u128>, size: spec_fn(u128) -> u32)
    ensures
        rescaled(t, ids.take(0), size) == t,
{
    assert(rescaled(t, ids.take(0), size) =~= t);
}

impl ContainerTree {
    /// Makes the detached `child` the last child of `parent`, with an even
    /// share of the row.
    pub fn attach_container(&mut self, child: u128, parent: u128)
        requires
            old(self).wf(),
            old(self)@.contains_key(child),
            old(self)@.contains_key(parent),
            old(self)@[child].parent is None,
            old(self)@[parent].directs(),
            apart(old(self)@, child, parent),
        ensures
            final(self).wf(),
            final(self)@ == attached(old(self)@, child, parent),
    {
        let ghost t = self@;
        let tiles: Vec<u128> = self.tiling_children(parent);
        proof {
            lemma_tiling_members(t, t[parent].children);
        }
        assert forall|i: int| 0 <= i < tiles@.len() implies t.contains_key(
            #[trigger] tiles@[i],
        ) by {
            assert(tiles@.contains(tiles@[i]));
            let j = t[parent].children.index_of(tiles@[i]);
            assert(t.contains_key(t[parent].children[j]));
        }
        let total: u128 = self.total_size(&tiles);
        let end: usize = self.node(parent).children.len();
        self.insert_container(child, parent, end);
        let ghost joined = self@;
        assert(joined == inserted(t, child, parent, t[parent].children.len() as int));
        if !self.node(child).info.kind.is_tiling() {
            return ;
        }
        let n: usize = tiles.len();
        if n == 0 {
            self.set_tiling_size(child, FULL_SIZE);
            return ;
        }
        let share: u32 = (FULL_SIZE as u128 / (n as u128 + 1)) as u32;
        let left: u32 = FULL_SIZE - share;
        let ghost size = |k: u128|
            part_of(
                left as nat,
                t[k].tiling_size as nat,
                total as nat,
                n as nat,
            ) as u32;
        proof {
            lemma_rescaled_nothing(joined, tiles@, size);
            lemma_detached_is_no_child(t, child);
        }
        for i in 0..n
            invariant
                self.wf(),
                t == old(self)@,
                n == tiles@.len() > 0,
                total == size_total(t, tiles@),
                tiles@.no_duplicates(),
                !tiles@.contains(child),
                size == (|k: u128|
                    part_of(
                        left as nat,
                        t[k].tiling_size as nat,
                        total as nat,
                        n as nat,
                    ) as u32),
                forall|k: u128|
                    joined.contains_key(k) == t.contains_key(k) && (#[trigger] joined[k]).tiling_size
                        == t[k].tiling_size,
                forall|k: int| 0 <= k < n ==> joined.contains_key(#[trigger] tiles@[k]),
                self@ == rescaled(joined, tiles@.take(i as int), size),
        {
            let tile: u128 = tiles[i];
            assert(joined.contains_key(tiles@[i as int]));
            assert(!tiles@.take(i as int).contains(tile));
            assert(joined[tile].tiling_size == t[tile].tiling_size);
            let before: u32 = self.node(tile).tiling_size;
            proof {
                lemma_size_within_total(t, tiles@, i as int);
                lemma_rescale_step(joined, tiles@, size, i as int);
            }
            self.set_tiling_size(tile, part(left, before, total, n));
        }
        assert(tiles@.take(n as int) =~= tiles@);
        self.set_tiling_size(child, share);
    }

    /// Takes `child` out of its parent, whose other tiles share out its space
    /// in proportion to their sizes.
    pub fn detach_container(&mut self, child: u128) -> (result: Result<(), TreeError>)
        requires
            old(self).wf(),
            old(self)@.contains_key(child),
            shares_fit(old(self)@, child),
        ensures
            final(self).wf(),
            old(self)@[child].parent is None ==> result == Err::<(), TreeError>(
                TreeError::NoParent,
            ),
            old(self)@[child].parent is None ==> final(self)@ == old(self)@,
            old(self)@[child].parent is Some ==> result == Ok::<(), TreeError>(()),
            old(self)@[child].parent is Some ==> final(self)@ == detached(old(self)@, child),
    {
        let ghost t = self@;
        let parent: u128 = match self.node(child).parent {
            Some(parent) => parent,
            None => return Err(TreeError::NoParent),
        };
        assert(t[child].parent == Some(parent));
        assert(t.contains_key(parent));
        self.unlink_container(child);
        let ghost left = self@;
        if !self.node(child).info.kind.is_tiling() {
            return Ok(());
        }
        let freed: u32 = self.node(child).tiling_size;
        let tiles: Vec<u128> = self.tiling_children(parent);
        let n: usize = tiles.len();
        proof {
            lemma_row_without(t, child);
        }
        assert forall|i: int| 0 <= i < tiles@.len() implies left.contains_key(
            #[trigger] tiles@[i],
        ) by {
            assert(tiles@.contains(tiles@[i]));
        }
        let total: u128 = self.total_size(&tiles);
        proof {
            lemma_size_total_same(t, left, tiles@);
        }
        let ghost size = |k: u128|
            (t[k].tiling_size + part_of(
                freed as nat,
                t[k].tiling_size as nat,
                total as nat,
                n as nat,
            )) as u32;
        proof {
            lemma_rescaled_nothing(left, tiles@, size);
        }
        for i in 0..n
            invariant
                self.wf(),
                n == tiles@.len(),
                total == size_total(t, tiles@),
                forall|k: int|
                    0 <= k < n ==> t[#[trigger] tiles@[k]].tiling_size + part_of(
                        freed as nat,
                        t[tiles@[k]].tiling_size as nat,
                        total as nat,
                        n as nat,
                    ) <= u32::MAX,
                tiles@.no_duplicates(),
                size == (|k: u128|
                    (t[k].tiling_size + part_of(
                        freed as nat,
                        t[k].tiling_size as nat,
                        total as nat,
                        n as nat,
                    )) as u32),
                forall|k: u128|
                    left.contains_key(k) == t.contains_key(k) && (#[trigger] left[k]).tiling_size
                        == t[k].tiling_size,
                forall|k: int| 0 <= k < n ==> left.contains_key(#[trigger] tiles@[k]),
                self@ == rescaled(left, tiles@.take(i as int), size),
        {
            let tile: u128 = tiles[i];
            assert(left.contains_key(tiles@[i as int]));
            assert(!tiles@.take(i as int).contains(tile));
            assert(left[tile].tiling_size == t[tile].tiling_size);
            let before: u32 = self.node(tile).tiling_size;
            proof {
                lemma_size_within_total(t, tiles@, i as int);
                lemma_rescale_step(left, tiles@, size, i as int);
            }
            self.set_tiling_size(tile, before + part(freed, before, total, n));
        }
        assert(tiles@.take(n as int) =~= tiles@);
        Ok(())
    }
}

/// The row that `child` leaves behind is the row without it.
pub proof fn lemma_row_without(t: Nodes, child: u128)
    requires
        linked(t),
        t.contains_key(child),
        t[child].parent is Some,
    ensures
        ({
            let parent = t[child].parent->0;
            let before = row(t, parent);
            let after = row(unlinked(t, child), parent);
            &&& before.no_duplicates()
            &&& after.no_duplicates()
            &&& !after.contains(child)
            &&& forall|k: u128| #[trigger] after.contains(k) ==> t.contains_key(k)
            &&& forall|k: u128| #[trigger] before.contains(k) ==> t.contains_key(k)
            &&& t[child].tiles() ==> before.contains(child) && after == before.remove(
                before.index_of(child),
            )
            &&& t[child].tiles() ==> size_total(t, before) == size_total(t, after)
                + t[child].tiling_size
        }),
{
    let parent = t[child].parent->0;
    let u = unlinked(t, child);
    let ids = t[parent].children;
    let at: int = ids.index_of(child);
    assert(ids.contains(child));
    let front = ids.take(at);
    let back = ids.skip(at + 1);
    let before = row(t, parent);
    let after = row(u, parent);
    lemma_tiling_members(t, ids);
    assert(ids =~= front + seq![child] + back);
    assert(u[parent].children =~= front + back);
    lemma_tiling_add(t, front + seq![child], back);
    lemma_tiling_add(t, front, seq![child]);
    lemma_tiling_add(t, front, back);
    lemma_tiling_same(t, u, front + back);
    let alone = tiling_of(t, seq![child]);
    reveal_with_fuel(tiling_of, 2);
    reveal_with_fuel(size_total, 2);
    assert(seq![child].drop_last() =~= Seq::<u128>::empty());
    let tf = tiling_of(t, front);
    let tb = tiling_of(t, back);
    assert(after == tf + tb);
    lemma_size_total_add(t, tf + alone, tb);
    lemma_size_total_add(t, tf, alone);
    lemma_size_total_add(t, tf, tb);
    assert forall|k: u128| #[trigger] before.contains(k) implies t.contains_key(k) by {
        let j = ids.index_of(k);
        assert(t.contains_key(t[parent].children[j]));
    }
    if t[child].tiles() {
        assert(alone =~= seq![child]);
        assert(before =~= tf + seq![child] + tb);
        assert(before[tf.len() as int] == child);
        assert(before.index_of(child) == tf.len());
        assert(after =~= before.remove(tf.len() as int));
        assert(seq![child].last() == child);
        assert(size_total(t, seq![child]) == t[child].tiling_size) by {
            assert(size_total(t, Seq::<u128>::empty()) == 0);
        }
        assert forall|i: int, j: int|
            0 <= i < after.len() && 0 <= j < after.len() && i != j implies after[i]
            != after[j] by {
            let a: int = if i < tf.len() {
                i
            } else {
                i + 1
            };
            let b: int = if j < tf.len() {
                j
            } else {
                j + 1
            };
            assert(before[a] != before[b]);
        }
        assert forall|k: u128| #[trigger] after.contains(k) implies t.contains_key(k) && k
            != child by {
            let i = after.index_of(k);
            let a: int = if i < tf.len() {
                i
            } else {
                i + 1
            };
            assert(before[a] == k);
            assert(before.contains(k));
            assert(before[a] != before[tf.len() as int]);
        }
    } else {
        assert(alone =~= Seq::<u128>::empty());
        assert(before =~= after);
        assert(!before.contains(child));
    }
}

} // verus!
