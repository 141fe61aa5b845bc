//! Where each tile of a tree is on screen.

use vstd::prelude::*;

use crate::attach_to_tile;
use crate::lengths;
use crate::lengths::resolve_lengths;
use crate::rect;
use crate::rect::Rect;
use crate::tree;
use crate::tree::{ContainerTree, NodeView, Nodes, TilingDirection, TreeError};

verus! {

/// A place on screen, by its corner and extent.
pub struct Place {
    pub x: int,
    pub y: int,
    pub width: int,
    pub height: int,
}

/// The place of a rectangle.
pub open spec fn place_of(rect: Rect) -> Place {
    Place {
        x: rect.left as int,
        y: rect.top as int,
        width: rect.spec_width(),
        height: rect.spec_height(),
    }
}

/// The space between a container and its neighbours along `direction`.
pub open spec fn gap_along(node: NodeView, direction: TilingDirection) -> int {
    match direction {
        TilingDirection::Vertical => node.info.inner_gaps.vertical as int,
        TilingDirection::Horizontal => node.info.inner_gaps.horizontal as int,
    }
}

/// The least length that a container accepts along `direction`.
pub open spec fn floor_along(node: NodeView, direction: TilingDirection) -> i32 {
    match direction {
        TilingDirection::Vertical => node.info.min_height,
        TilingDirection::Horizontal => node.info.min_width,
    }
}

/// The tiling sizes of a row.
pub open spec fn row_sizes(t: Nodes, tiles: Seq<u128>) -> Seq<u32> {
    Seq::new(tiles.len(), |i: int| t[tiles[i]].tiling_size)
}

/// The least lengths of a row.
pub open spec fn row_floors(t: Nodes, tiles: Seq<u128>, direction: TilingDirection) -> Seq<i32> {
    Seq::new(tiles.len(), |i: int| floor_along(t[tiles[i]], direction))
}

/// What tile `i` finds to divide in a row of length `extent`: all but the gaps
/// between the tiles.
pub open spec fn available(
    t: Nodes,
    tiles: Seq<u128>,
    direction: TilingDirection,
    extent: int,
    i: int,
) -> int {
    extent - gap_along(t[tiles[i]], direction) * (tiles.len() - 1)
}

/// The length of tile `i` of a row of length `extent`.
///
/// Siblings are resolved together rather than each from its own size, because
/// a tile pinned to its floor changes what is left for the others.
pub open spec fn tile_length(
    t: Nodes,
    tiles: Seq<u128>,
    direction: TilingDirection,
    extent: int,
    i: int,
) -> int {
    lengths::resolved_length(
        row_sizes(t, tiles),
        row_floors(t, tiles, direction),
        available(t, tiles, direction, extent, i),
        i,
    )
}

/// Where tile `i` begins in a row that begins at `origin`: a gap after the end
/// of the tile before it.
pub open spec fn tile_start(
    t: Nodes,
    tiles: Seq<u128>,
    direction: TilingDirection,
    origin: int,
    extent: int,
    i: int,
) -> int
    decreases i,
{
    if i <= 0 {
        origin
    } else {
        tile_start(t, tiles, direction, origin, extent, i - 1) + tile_length(
            t,
            tiles,
            direction,
            extent,
            i - 1,
        ) + gap_along(t[tiles[i]], direction)
    }
}

/// The place of tile `i` in the row of a container at `outer`.
pub open spec fn tile_place(
    t: Nodes,
    tiles: Seq<u128>,
    direction: TilingDirection,
    outer: Place,
    i: int,
) -> Place {
    match direction {
        TilingDirection::Vertical => Place {
            x: outer.x,
            y: tile_start(t, tiles, direction, outer.y, outer.height, i),
            width: outer.width,
            height: tile_length(t, tiles, direction, outer.height, i),
        },
        TilingDirection::Horizontal => Place {
            x: tile_start(t, tiles, direction, outer.x, outer.width, i),
            y: outer.y,
            width: tile_length(t, tiles, direction, outer.width, i),
            height: outer.height,
        },
    }
}

/// The place of a container on screen, if the containers above it lead up to a
/// workspace. `depth` grows from parent to child.
pub open spec fn place_in(t: Nodes, depth: Map<u128, nat>, id: u128) -> Option<Place>
    decreases depth[id],
{
    if t[id].info.kind is Workspace {
        Some(place_of(t[id].info.area))
    } else {
        match attach_to_tile::direction_parent(t, id) {
            Some(parent) => if depth[parent] < depth[id] {
                match place_in(t, depth, parent) {
                    Some(outer) => {
                        let tiles = tree::row(t, parent);
                        Some(
                            tile_place(
                                t,
                                tiles,
                                t[parent].info.direction,
                                outer,
                                tiles.index_of(id),
                            ),
                        )
                    },
                    None => None,
                }
            } else {
                None
            },
            None => None,
        }
    }
}

/// Whether the numbers that lead to tile `i` of a row all fit in an `i32`.
pub open spec fn row_fits(
    t: Nodes,
    tiles: Seq<u128>,
    direction: TilingDirection,
    origin: int,
    extent: int,
    i: int,
) -> bool {
    &&& tiles.len() <= i32::MAX
    &&& forall|j: int|
        #![trigger available(t, tiles, direction, extent, j)]
        0 <= j <= i ==> {
            &&& rect::fits(gap_along(t[tiles[j]], direction) * (tiles.len() - 1))
            &&& rect::fits(available(t, tiles, direction, extent, j))
            &&& rect::fits(tile_start(t, tiles, direction, origin, extent, j))
            &&& rect::fits(
                tile_start(t, tiles, direction, origin, extent, j) + tile_length(
                    t,
                    tiles,
                    direction,
                    extent,
                    j,
                ),
            )
        }
}

/// Whether the numbers that lead to the place of a container all fit in an
/// `i32`.
pub open spec fn layout_fits(t: Nodes, depth: Map<u128, nat>, id: u128) -> bool
    decreases depth[id],
{
    if t[id].info.kind is Workspace {
        t[id].info.area.measurable()
    } else {
        match attach_to_tile::direction_parent(t, id) {
            Some(parent) => depth[parent] < depth[id] ==> {
                &&& layout_fits(t, depth, parent)
                &&& match place_in(t, depth, parent) {
                    Some(outer) => {
                        let tiles = tree::row(t, parent);
                        let at = tiles.index_of(id);
                        match t[parent].info.direction {
                            TilingDirection::Vertical => row_fits(
                                t,
                                tiles,
                                TilingDirection::Vertical,
                                outer.y,
                                outer.height,
                                at,
                            ),
                            TilingDirection::Horizontal => row_fits(
                                t,
                                tiles,
                                TilingDirection::Horizontal,
                                outer.x,
                                outer.width,
                                at,
                            ),
                        }
                    },
                    None => true,
                }
            },
            None => true,
        }
    }
}

/// Containers that know where they are on screen.
pub trait PositionGetters {
    /// Whether the place can be told in pixels.
    spec fn placeable(&self) -> bool;

    /// The place, if there is one.
    spec fn place(&self) -> Option<Place>;

    /// The rectangle that the container takes up.
    fn to_rect(&self) -> (result: Result<Rect, TreeError>)
        requires
            self.placeable(),
        ensures
            self.place() is Some ==> result is Ok && place_of(result->Ok_0)
                == self.place()->0,
            self.place() is None ==> result == Err::<Rect, TreeError>(
                TreeError::NoDirectionContainer,
            ),
    ;
}

/// A tiling container of a tree.
pub struct TilingContainer<'a> {
    pub tree: &'a ContainerTree,
    pub id: u128,
}

impl<'a> PositionGetters for TilingContainer<'a> {
    open spec fn placeable(&self) -> bool {
        &&& self.tree.wf()
        &&& self.tree@.contains_key(self.id)
        &&& self.tree@[self.id].tiles()
        &&& layout_fits(self.tree@, self.tree.depths(), self.id)
    }

    open spec fn place(&self) -> Option<Place> {
        place_in(self.tree@, self.tree.depths(), self.id)
    }

    fn to_rect(&self) -> (result: Result<Rect, TreeError>) {
        rect_of(self.tree, self.id)
    }
}

/// The length of tile `i` of a row, and its gap.
fn length_of(
    tree: &ContainerTree,
    tiles: &Vec<u128>,
    direction: TilingDirection,
    extent: i32,
    i: usize,
) -> (length: i32)
    requires
        tree.wf(),
        i < tiles@.len() <= i32::MAX,
        forall|k: int| 0 <= k < tiles@.len() ==> tree@.contains_key(#[trigger] tiles@[k]),
        rect::fits(gap_along(tree@[tiles@[i as int]], direction) * (tiles@.len() - 1)),
        rect::fits(available(tree@, tiles@, direction, extent as int, i as int)),
    ensures
        length == tile_length(tree@, tiles@, direction, extent as int, i as int),
{
    let n: usize = tiles.len();
    let gap: i32 = gap_of(tree, tiles[i], direction);
    let mut sizes: Vec<u32> = Vec::new();
    let mut floors: Vec<i32> = Vec::new();
    for k in 0..n
        invariant
            n == tiles@.len(),
            sizes@.len() == k,
            floors@.len() == k,
            forall|j: int| 0 <= j < n ==> tree@.contains_key(#[trigger] tiles@[j]),
            forall|j: int| 0 <= j < k ==> (#[trigger] sizes@[j]) == tree@[tiles@[j]].tiling_size,
            forall|j: int|
                0 <= j < k ==> (#[trigger] floors@[j]) == floor_along(tree@[tiles@[j]], direction),
    {
        let node = tree.node(tiles[k]);
        sizes.push(node.tiling_size);
        match direction {
            TilingDirection::Vertical => floors.push(node.info.min_height),
            TilingDirection::Horizontal => floors.push(node.info.min_width),
        }
    }
    assert(sizes@ =~= row_sizes(tree@, tiles@));
    assert(floors@ =~= row_floors(tree@, tiles@, direction));
    let between: i32 = (n - 1) as i32;
    let resolved: Vec<i32> = resolve_lengths(
        sizes.as_slice(),
        floors.as_slice(),
        extent - gap * between,
    );
    resolved[i]
}

/// The space between a container and its neighbours.
fn gap_of(tree: &ContainerTree, id: u128, direction: TilingDirection) -> (gap: i32)
    requires
        tree@.contains_key(id),
    ensures
        gap == gap_along(tree@[id], direction),
{
    let gaps = tree.node(id).info.inner_gaps;
    match direction {
        TilingDirection::Vertical => gaps.vertical,
        TilingDirection::Horizontal => gaps.horizontal,
    }
}

/// Where tile `at` begins in its row, and its length.
fn span_of(
    tree: &ContainerTree,
    tiles: &Vec<u128>,
    direction: TilingDirection,
    origin: i32,
    extent: i32,
    at: usize,
) -> (span: (i32, i32))
    requires
        tree.wf(),
        at < tiles@.len(),
        forall|k: int| 0 <= k < tiles@.len() ==> tree@.contains_key(#[trigger] tiles@[k]),
        row_fits(tree@, tiles@, direction, origin as int, extent as int, at as int),
    ensures
        span.0 == tile_start(tree@, tiles@, direction, origin as int, extent as int, at as int),
        span.1 == tile_length(tree@, tiles@, direction, extent as int, at as int),
        rect::fits(span.0 + span.1),
{
    assert(rect::fits(available(tree@, tiles@, direction, extent as int, 0)));
    let mut start: i32 = origin;
    let mut length: i32 = length_of(tree, tiles, direction, extent, 0);
    for i in 0..at
        invariant
            tree.wf(),
            at < tiles@.len(),
            forall|k: int| 0 <= k < tiles@.len() ==> tree@.contains_key(#[trigger] tiles@[k]),
            row_fits(tree@, tiles@, direction, origin as int, extent as int, at as int),
            start == tile_start(tree@, tiles@, direction, origin as int, extent as int, i as int),
            length == tile_length(tree@, tiles@, direction, extent as int, i as int),
    {
        assert(rect::fits(available(tree@, tiles@, direction, extent as int, i as int)));
        assert(rect::fits(available(tree@, tiles@, direction, extent as int, i + 1)));
        start = start + length + gap_of(tree, tiles[i + 1], direction);
        length = length_of(tree, tiles, direction, extent, i + 1);
    }
    assert(rect::fits(available(tree@, tiles@, direction, extent as int, at as int)));
    (start, length)
}

/// The rectangle that a workspace or a tiling container takes up.
pub fn rect_of(tree: &ContainerTree, id: u128) -> (result: Result<Rect, TreeError>)
    requires
        tree.wf(),
        tree@.contains_key(id),
        tree@[id].tiles() || tree@[id].info.kind is Workspace,
        layout_fits(tree@, tree.depths(), id),
    ensures
        place_in(tree@, tree.depths(), id) is Some ==> result is Ok && place_of(result->Ok_0)
            == place_in(tree@, tree.depths(), id)->0,
        place_in(tree@, tree.depths(), id) is None ==> result == Err::<Rect, TreeError>(
            TreeError::NoDirectionContainer,
        ),
        result is Ok ==> result->Ok_0.measurable(),
        tree@[id].info.kind is Workspace ==> result == Ok::<Rect, TreeError>(tree@[id].info.area),
    decreases tree.depths()[id],
{
    let ghost t = tree@;
    let node = tree.node(id);
    if matches!(node.info.kind, tree::ContainerKind::Workspace) {
        return Ok(node.info.area);
    }
    let parent: u128 = match node.parent {
        Some(parent) => parent,
        None => return Err(TreeError::NoDirectionContainer),
    };
    assert(t[id].parent == Some(parent));
    assert(t.contains_key(parent) && t[parent].children.contains(id));
    assert(tree.depths()[parent] < tree.depths()[id]);
    if !tree.node(parent).info.kind.is_direction_container() {
        return Err(TreeError::NoDirectionContainer);
    }
    let outer: Rect = match rect_of(tree, parent) {
        Ok(outer) => outer,
        Err(error) => return Err(error),
    };
    let direction = tree.node(parent).info.direction;
    let tiles: Vec<u128> = tree.tiling_children(parent);
    proof {
        tree::lemma_row_without(t, id);
    }
    assert forall|k: int| 0 <= k < tiles@.len() implies t.contains_key(#[trigger] tiles@[k]) by {
        assert(tiles@.contains(tiles@[k]));
    }
    let at: usize = tree::position_of(&tiles, id);
    match direction {
        TilingDirection::Vertical => {
            let (y, height): (i32, i32) = span_of(
                tree,
                &tiles,
                direction,
                outer.y(),
                outer.height(),
                at,
            );
            Ok(Rect::from_xy(outer.x(), y, outer.width(), height))
        },
        TilingDirection::Horizontal => {
            let (x, width): (i32, i32) = span_of(
                tree,
                &tiles,
                direction,
                outer.x(),
                outer.width(),
                at,
            );
            Ok(Rect::from_xy(x, outer.y(), width, outer.height()))
        },
    }
}

/// The way a new tile splits `tile`, from its shape on screen.
pub fn tile_split_direction(tree: &ContainerTree, tile: u128) -> (result: Result<
    TilingDirection,
    TreeError,
>)
    requires
        tree.wf(),
        tree@.contains_key(tile),
        tree@[tile].tiles(),
        layout_fits(tree@, tree.depths(), tile),
    ensures
        match place_in(tree@, tree.depths(), tile) {
            None => result == Err::<TilingDirection, TreeError>(TreeError::NoDirectionContainer),
            Some(place) => result == Ok::<TilingDirection, TreeError>(
                if place.height > place.width {
                    TilingDirection::Vertical
                } else if place.height < place.width {
                    TilingDirection::Horizontal
                } else {
                    tree@[tree@[tile].parent->0].info.direction
                },
            ),
        },
{
    let ghost t = tree@;
    let parent: u128 = match tree.node(tile).parent {
        Some(parent) => parent,
        None => return Err(TreeError::NoDirectionContainer),
    };
    assert(t[tile].parent == Some(parent));
    assert(t.contains_key(parent));
    if !tree.node(parent).info.kind.is_direction_container() {
        return Err(TreeError::NoDirectionContainer);
    }
    match rect_of(tree, tile) {
        Ok(rect) => Ok(
            attach_to_tile::split_direction(&rect, tree.node(parent).info.direction),
        ),
        Err(error) => Err(error),
    }
}

/// Each tile begins exactly its gap after the end of the one before it.
pub proof fn law_tiles_follow_each_other(
    t: Nodes,
    tiles: Seq<u128>,
    direction: TilingDirection,
    outer: Place,
    i: int,
)
    requires
        0 <= i,
        i + 1 < tiles.len(),
    ensures
        ({
            let one = tile_place(t, tiles, direction, outer, i);
            let next = tile_place(t, tiles, direction, outer, i + 1);
            let gap = gap_along(t[tiles[i + 1]], direction);
            match direction {
                TilingDirection::Vertical => next.y == one.y + one.height + gap && next.x == one.x
                    && next.width == one.width,
                TilingDirection::Horizontal => next.x == one.x + one.width + gap && next.y
                    == one.y && next.height == one.height,
            }
        }),
{
}

/// No tile is narrower along its row than the least length it accepts.
pub proof fn law_tiles_keep_their_floors(
    t: Nodes,
    tiles: Seq<u128>,
    direction: TilingDirection,
    extent: int,
    i: int,
)
    requires
        0 <= i < tiles.len(),
    ensures
        tile_length(t, tiles, direction, extent, i) >= floor_along(t[tiles[i]], direction),
{
    lengths::law_floors_are_kept(
        row_sizes(t, tiles),
        row_floors(t, tiles, direction),
        available(t, tiles, direction, extent, i),
        i,
    );
}

proof fn lemma_start_from_lengths(
    t: Nodes,
    tiles: Seq<u128>,
    direction: TilingDirection,
    origin: int,
    extent: int,
    gap: int,
    i: int,
)
    requires
        0 <= i < tiles.len(),
        forall|k: int| 0 <= k < tiles.len() ==> gap_along(t[#[trigger] tiles[k]], direction) == gap,
    ensures
        tile_start(t, tiles, direction, origin, extent, i) == origin + lengths::length_total(
            row_sizes(t, tiles),
            row_floors(t, tiles, direction),
            extent - gap * (tiles.len() - 1),
            i as nat,
        ) + gap * i,
    decreases i,
{
    if i > 0 {
        lemma_start_from_lengths(t, tiles, direction, origin, extent, gap, i - 1);
        assert(gap_along(t[tiles[i]], direction) == gap);
        assert(gap_along(t[tiles[i - 1]], direction) == gap);
        assert(gap * i == gap * (i - 1) + gap) by (nonlinear_arith);
    } else {
        assert(gap * i == 0) by (nonlinear_arith)
            requires
                i == 0,
        ;
    }
}

/// Where the tiles of a row have one gap, their floors fit and some tile has a
/// size, the last ends where their container does, apart from half a pixel of
/// rounding for each tile that is not at its floor.
pub proof fn law_the_row_fills_its_container(
    t: Nodes,
    tiles: Seq<u128>,
    direction: TilingDirection,
    origin: int,
    extent: int,
    gap: int,
)
    requires
        tiles.len() > 0,
        forall|k: int| 0 <= k < tiles.len() ==> gap_along(t[#[trigger] tiles[k]], direction) == gap,
        lengths::is_dividable(
            row_sizes(t, tiles),
            row_floors(t, tiles, direction),
            extent - gap * (tiles.len() - 1),
        ),
    ensures
        ({
            let last = tiles.len() - 1;
            let end = tile_start(t, tiles, direction, origin, extent, last) + tile_length(
                t,
                tiles,
                direction,
                extent,
                last,
            );
            -tiles.len() <= 2 * (end - (origin + extent)) <= tiles.len()
        }),
{
    let sizes = row_sizes(t, tiles);
    let floors = row_floors(t, tiles, direction);
    let n: int = tiles.len() as int;
    let divided: int = extent - gap * (n - 1);
    lemma_start_from_lengths(t, tiles, direction, origin, extent, gap, n - 1);
    assert(gap_along(t[tiles[n - 1]], direction) == gap);
    lengths::law_the_total_is_split(sizes, floors, divided);
    lengths::lemma_free_count_of_final(sizes, floors, divided);
}

/// Across the direction of a row every tile, however many there are, has
/// exactly the position and extent of its container; along it the first begins
/// where the container does.
pub proof fn law_tiles_span_their_container(
    t: Nodes,
    tiles: Seq<u128>,
    direction: TilingDirection,
    outer: Place,
    i: int,
)
    ensures
        ({
            let place = tile_place(t, tiles, direction, outer, i);
            &&& direction is Horizontal ==> place.y == outer.y && place.height == outer.height
            &&& direction is Vertical ==> place.x == outer.x && place.width == outer.width
            &&& i == 0 ==> place.x == outer.x && place.y == outer.y
        }),
{
}

/// A tile has a place exactly if its parent lays out children and has one
/// itself. Across the direction of its parent the tile then takes up exactly
/// the space of its parent: the same rows of pixels in a horizontal container
/// and the same columns in a vertical one.
pub proof fn law_places_span_the_parents_place(t: Nodes, depth: Map<u128, nat>, id: u128)
    requires
        tree::linked(t),
        tree::graded(t, depth),
        t.contains_key(id),
        t[id].info.kind !is Workspace,
    ensures
        place_in(t, depth, id) is Some <==> {
            &&& t[id].parent is Some
            &&& t[t[id].parent->0].info.kind is Workspace || t[t[id].parent->0].info.kind is Split
            &&& place_in(t, depth, t[id].parent->0) is Some
        },
        place_in(t, depth, id) matches Some(place) ==> {
            let parent = t[id].parent->0;
            let outer = place_in(t, depth, parent)->0;
            match t[parent].info.direction {
                TilingDirection::Horizontal => place.y == outer.y && place.height == outer.height,
                TilingDirection::Vertical => place.x == outer.x && place.width == outer.width,
            }
        },
{
    if t[id].parent is Some {
        assert(depth[t[id].parent->0] < depth[id]);
    }
}

/// A workspace takes up its area, from corner to corner.
pub proof fn law_workspaces_take_up_their_area(t: Nodes, depth: Map<u128, nat>, id: u128)
    requires
        t[id].info.kind is Workspace,
    ensures
        place_in(t, depth, id) matches Some(place) && {
            let area = t[id].info.area;
            &&& place.x == area.left
            &&& place.y == area.top
            &&& place.x + place.width == area.right
            &&& place.y + place.height == area.bottom
        },
{
}

/// A rectangle reaches from its corner as far as its place is wide and high.
pub proof fn law_places_are_where_the_rectangles_are(rect: Rect)
    ensures
        place_of(rect).x == rect.left,
        place_of(rect).y == rect.top,
        place_of(rect).x + place_of(rect).width == rect.right,
        place_of(rect).y + place_of(rect).height == rect.bottom,
{
}

/// Of two neighbours in a container the second begins its own gap after the
/// end of the first; the first tile of all begins where the container does.
pub proof fn law_neighbours_are_a_gap_apart(
    t: Nodes,
    depth: Map<u128, nat>,
    parent: u128,
    i: int,
)
    requires
        tree::linked(t),
        tree::graded(t, depth),
        t.contains_key(parent),
        place_in(t, depth, parent) is Some,
        0 <= i < tree::row(t, parent).len(),
    ensures
        ({
            let tiles = tree::row(t, parent);
            let outer = place_in(t, depth, parent)->0;
            let one = place_in(t, depth, tiles[i])->0;
            let next = place_in(t, depth, tiles[i + 1])->0;
            &&& place_in(t, depth, tiles[i]) is Some
            &&& i == 0 ==> one.x == outer.x && one.y == outer.y
            &&& i + 1 < tiles.len() ==> {
                let gaps = t[tiles[i + 1]].info.inner_gaps;
                &&& place_in(t, depth, tiles[i + 1]) is Some
                &&& t[parent].info.direction is Horizontal ==> next.x == one.x + one.width
                    + gaps.horizontal
                &&& t[parent].info.direction is Vertical ==> next.y == one.y + one.height
                    + gaps.vertical
            }
        }),
{
    let tiles = tree::row(t, parent);
    tree::lemma_tiling_members(t, t[parent].children);
    assert forall|k: int| 0 <= k < tiles.len() implies {
        &&& t.contains_key(#[trigger] tiles[k])
        &&& t[tiles[k]].parent == Some(parent)
        &&& t[tiles[k]].tiles()
        &&& tiles.index_of(tiles[k]) == k
    } by {
        assert(tiles.contains(tiles[k]));
        assert(t[parent].children.contains(tiles[k]));
        let at = t[parent].children.index_of(tiles[k]);
        assert(t[parent].children[at] == tiles[k]);
    }
    assert(t[parent].children.len() > 0) by {
        assert(tiles.contains(tiles[i]));
        assert(t[parent].children.contains(tiles[i]));
    }
    assert(t[tiles[i]].tiles());
    assert(depth[parent] < depth[tiles[i]]) by {
        assert(t[tiles[i]].parent is Some);
    }
    if i + 1 < tiles.len() {
        assert(t[tiles[i + 1]].tiles());
        assert(depth[parent] < depth[tiles[i + 1]]) by {
            assert(t[tiles[i + 1]].parent is Some);
        }
    }
}

/// The space around a tile and its least length come from the fields for the
/// direction of its row: horizontal gaps and widths along a horizontal one,
/// vertical gaps and heights along a vertical one.
pub proof fn law_rows_go_by_their_direction(
    t: Nodes,
    tiles: Seq<u128>,
    direction: TilingDirection,
    extent: int,
    i: int,
)
    requires
        0 <= i < tiles.len(),
    ensures
        ({
            let info = t[tiles[i]].info;
            let gap = gap_along(t[tiles[i]], direction);
            let others = tiles.len() - 1;
            &&& direction is Horizontal ==> gap == info.inner_gaps.horizontal
            &&& direction is Vertical ==> gap == info.inner_gaps.vertical
            &&& direction is Horizontal ==> row_floors(t, tiles, direction)[i] == info.min_width
            &&& direction is Vertical ==> row_floors(t, tiles, direction)[i] == info.min_height
            &&& row_floors(t, tiles, direction).len() == tiles.len()
            &&& row_sizes(t, tiles).len() == tiles.len()
            &&& row_sizes(t, tiles)[i] == t[tiles[i]].tiling_size
            &&& available(t, tiles, direction, extent, i) + gap * others == extent
        }),
{
}

/// A tile alone in its container fills it, whatever its size and gap, unless
/// its floor is more.
pub proof fn law_a_tile_alone_fills_its_container(
    t: Nodes,
    tile: u128,
    direction: TilingDirection,
    outer: Place,
)
    requires
        t[tile].tiling_size > 0,
        0 <= outer.width <= i32::MAX,
        0 <= outer.height <= i32::MAX,
        0 <= t[tile].info.min_width <= outer.width,
        0 <= t[tile].info.min_height <= outer.height,
    ensures
        tile_place(t, seq![tile], direction, outer, 0) == outer,
{
    let tiles = seq![tile];
    let extent: int = match direction {
        TilingDirection::Vertical => outer.height,
        TilingDirection::Horizontal => outer.width,
    };
    let sizes = row_sizes(t, tiles);
    let floors = row_floors(t, tiles, direction);
    let gap: int = gap_along(t[tile], direction);
    assert(gap * (tiles.len() - 1) == 0) by (nonlinear_arith)
        requires
            tiles.len() == 1,
    ;
    assert(available(t, tiles, direction, extent, 0) == extent);
    assert(sizes[0] > 0);
    assert(floors[0] >= 0);
    lengths::law_totals_are_sums(sizes, floors);
    assert(floors.drop_last() =~= Seq::<i32>::empty());
    assert(lengths::floor_total(floors, 1) == floors[0]) by {
        reveal_with_fuel(lengths::floor_total, 2);
    }
    assert(lengths::is_dividable(sizes, floors, extent));
    lengths::law_the_total_is_split(sizes, floors, extent);
    lengths::lemma_free_count_of_final(sizes, floors, extent);
    assert(lengths::length_total(sizes, floors, extent, 1) == lengths::resolved_length(
        sizes,
        floors,
        extent,
        0,
    )) by {
        reveal_with_fuel(lengths::length_total, 2);
    }
}

/// Tiles without floors divide what the gaps leave of their container in
/// proportion to their sizes, each to the nearest pixel.
pub proof fn law_tiles_divide_what_the_gaps_leave(
    t: Nodes,
    tiles: Seq<u128>,
    direction: TilingDirection,
    extent: int,
    i: int,
)
    requires
        0 <= i < tiles.len(),
        forall|k: int|
            0 <= k < tiles.len() ==> t[#[trigger] tiles[k]].info.min_width == 0
                && t[tiles[k]].info.min_height == 0,
        exists|k: int| 0 <= k < tiles.len() && t[#[trigger] tiles[k]].tiling_size > 0,
        ({
            let gaps = t[tiles[i]].info.inner_gaps;
            let others = tiles.len() - 1;
            match direction {
                TilingDirection::Vertical => 0 <= extent - gaps.vertical * others <= i32::MAX,
                TilingDirection::Horizontal => 0 <= extent - gaps.horizontal * others <= i32::MAX,
            }
        }),
    ensures
        ({
            let gaps = t[tiles[i]].info.inner_gaps;
            let gap = match direction {
                TilingDirection::Vertical => gaps.vertical as int,
                TilingDirection::Horizontal => gaps.horizontal as int,
            };
            let space = extent - gap * (tiles.len() - 1);
            let all = tiles.map_values(|id: u128| t[id].tiling_size).fold_left(
                0int,
                |sum: int, size: u32| sum + size,
            );
            let size = t[tiles[i]].tiling_size;
            let length = tile_length(t, tiles, direction, extent, i);
            &&& 2 * (space * size) - all < 2 * (all * length)
            &&& 2 * (all * length) <= 2 * (space * size) + all
        }),
{
    let sizes = row_sizes(t, tiles);
    let floors = row_floors(t, tiles, direction);
    assert(sizes =~= tiles.map_values(|id: u128| t[id].tiling_size));
    let sized = choose|k: int| 0 <= k < tiles.len() && t[#[trigger] tiles[k]].tiling_size > 0;
    assert(0 < sizes[sized]);
    assert forall|j: int| 0 <= j < floors.len() implies #[trigger] floors[j] == 0 by {
        assert(t[tiles[j]].info.min_width == 0 && t[tiles[j]].info.min_height == 0);
    }
    lengths::law_children_without_floors_divide_the_total(
        sizes,
        floors,
        available(t, tiles, direction, extent, i),
        i,
    );
}

/// The tiles of a row are given the lengths that dividing what the gaps leave
/// between their sizes and floors comes to, floors along a horizontal row being
/// widths and along a vertical one heights.
pub proof fn law_rows_are_divided_by_size_and_floor(
    t: Nodes,
    tiles: Seq<u128>,
    extent: int,
    i: int,
)
    requires
        0 <= i < tiles.len(),
    ensures
        ({
            let sizes = tiles.map_values(|id: u128| t[id].tiling_size);
            let widths = tiles.map_values(|id: u128| t[id].info.min_width);
            let heights = tiles.map_values(|id: u128| t[id].info.min_height);
            let gaps = t[tiles[i]].info.inner_gaps;
            let others = tiles.len() - 1;
            &&& tile_length(t, tiles, TilingDirection::Horizontal, extent, i)
                == lengths::resolved_length(sizes, widths, extent - gaps.horizontal * others, i)
            &&& tile_length(t, tiles, TilingDirection::Vertical, extent, i)
                == lengths::resolved_length(sizes, heights, extent - gaps.vertical * others, i)
        }),
{
    assert(row_sizes(t, tiles) =~= tiles.map_values(|id: u128| t[id].tiling_size));
    assert(row_floors(t, tiles, TilingDirection::Horizontal) =~= tiles.map_values(
        |id: u128| t[id].info.min_width,
    ));
    assert(row_floors(t, tiles, TilingDirection::Vertical) =~= tiles.map_values(
        |id: u128| t[id].info.min_height,
    ));
}

/// Where the tiles of a row have one gap, a tile that is no smaller than
/// another and insists on no less is given no less, and tiles that are alike
/// are given the same.
pub proof fn law_larger_tiles_get_no_less(
    t: Nodes,
    tiles: Seq<u128>,
    direction: TilingDirection,
    extent: int,
    i: int,
    j: int,
)
    requires
        0 <= i < tiles.len(),
        0 <= j < tiles.len(),
        gap_along(t[tiles[i]], direction) == gap_along(t[tiles[j]], direction),
        lengths::is_dividable(
            row_sizes(t, tiles),
            row_floors(t, tiles, direction),
            available(t, tiles, direction, extent, i),
        ),
        t[tiles[i]].tiling_size <= t[tiles[j]].tiling_size,
        t[tiles[i]].info.min_width <= t[tiles[j]].info.min_width,
        t[tiles[i]].info.min_height <= t[tiles[j]].info.min_height,
    ensures
        tile_length(t, tiles, direction, extent, i) <= tile_length(t, tiles, direction, extent, j),
        t[tiles[i]].tiling_size == t[tiles[j]].tiling_size && t[tiles[i]].info.min_width
            == t[tiles[j]].info.min_width && t[tiles[i]].info.min_height
            == t[tiles[j]].info.min_height ==> tile_length(t, tiles, direction, extent, i)
            == tile_length(t, tiles, direction, extent, j),
{
    lengths::law_larger_children_get_no_less(
        row_sizes(t, tiles),
        row_floors(t, tiles, direction),
        available(t, tiles, direction, extent, i),
        i,
        j,
    );
}

/// A tiling container is where its tree has it.
pub proof fn law_tiling_containers_are_in_their_tree(container: TilingContainer)
    ensures
        container.place() == place_in(
            container.tree@,
            container.tree.depths(),
            container.id,
        ),
{
}

} // verus!
