//! An unbounded tile world seen through one wrapping background grid. The
//! grid is filled from a caller-supplied function of the logical tile
//! coordinate; a small move of the view fetches only the tiles at the leading
//! edge, a large one fills the grid anew.

use vstd::prelude::*;
use crate::arena_model::ArenaView;
use crate::cache_model::CacheView;
use crate::geometry::{Vector2D, ceil_div, div_ceil, div_floor, floor_div, wrap};
use crate::geometry::{lemma_ceil_div_bounds, lemma_floor_div_bounds};
use crate::hardware::{Store, HEIGHT, WIDTH};
use crate::regular_map::{GridState, RegularMap, accounted, backed_by, can_set_state, set_cell, shows};
use crate::regular_map::{
    lemma_clear_cell_accounted,
    lemma_set_cell_accounted,
    lemma_set_cell_keeps_showing,
    lemma_set_cell_shows,
};
use crate::regular_map::{cache_after_clearing, cache_after_setting, cell_after_setting};
use crate::tile::{TileSetReference, TileSetting, index_bits};
use crate::tiled::MapLoan;
use crate::vram::{VRamManager, tile_key};

verus! {

/// A move of more than this many pixels on either axis fills the grid anew.
pub const JUMP: i32 = 80;

/// Number of tiles fetched for a newly exposed column.
pub const COLUMN_TILES: i32 = 22;

/// Number of tiles fetched for a newly exposed row.
pub const ROW_TILES: i32 = 32;

/// How far right of the view's first column the column exposed by a move to
/// the right lies.
pub const RIGHT_EDGE: i32 = 30;

/// How far below the view's first row the row exposed by a move down lies.
pub const BOTTOM_EDGE: i32 = 20;

/// Logical coordinates that the grid arithmetic can take: tile coordinates
/// of any pixel position lie well within.
pub const TILE_LIMIT: i32 = 0x2000_0000;

/// The grid cell that stands for logical tile `(x, y)` when the grid's
/// first cell stands for logical tile `(ox, oy)`.
pub open spec fn grid_cell(x: int, y: int, ox: int, oy: int) -> int {
    wrap(y - oy, 32) * 32 + wrap(x - ox, 32)
}

/// The fetch function accepts every coordinate.
pub open spec fn fetch_total<F: Fn(Vector2D<i32>) -> (TileSetReference, TileSetting)>(
    fetch: F,
) -> bool {
    forall|p: Vector2D<i32>| #[trigger] fetch.requires((p,))
}

/// Whatever the fetch function returns can be resolved in `arena`: it is
/// the empty tile, or a tile within a tileset whose handle is live.
pub open spec fn fetches_resolvable<F: Fn(Vector2D<i32>) -> (TileSetReference, TileSetting)>(
    fetch: F,
    arena: ArenaView,
) -> bool {
    forall|p: Vector2D<i32>, r: (TileSetReference, TileSetting)| #[trigger]
        fetch.ensures((p,), r) ==> index_bits(r.1.raw()) == 0 || (arena.is_live(r.0) && (
        index_bits(r.1.raw()) + 1) * 8 <= arena.words(r.0).len())
}

/// A cell that holds `raw` shows something that the fetch function can
/// return for logical tile `(x, y)`.
pub open spec fn fetched<F: Fn(Vector2D<i32>) -> (TileSetReference, TileSetting)>(
    fetch: F,
    cache: CacheView,
    raw: u16,
    x: int,
    y: int,
) -> bool {
    exists|r: (TileSetReference, TileSetting)| #[trigger]
        fetch.ensures((Vector2D { x: x as i32, y: y as i32 },), r) && shows(cache, raw, r.0, r.1)
}

/// The `j`-th logical tile of a run that starts at `start` and goes along
/// its own axis if `along` holds, and stays on it otherwise.
pub open spec fn run_at(start: int, j: int, along: bool) -> int {
    if along {
        start + j
    } else {
        start
    }
}

/// Whether grid cell `cell` stands for one of the first `len` logical tiles
/// of the run from `(x, y)`, which goes right if `along_x` holds and down
/// otherwise, on a grid whose first cell stands for `(ox, oy)`.
pub open spec fn in_run(
    cell: int,
    x: int,
    y: int,
    len: int,
    along_x: bool,
    ox: int,
    oy: int,
) -> bool {
    if along_x {
        cell / 32 == wrap(y - oy, 32) && wrap(cell % 32 - (x - ox), 32) < len
    } else {
        cell % 32 == wrap(x - ox, 32) && wrap(cell / 32 - (y - oy), 32) < len
    }
}

/// A line lies `k` lines after `a` on the wrapping grid exactly if it is
/// the line that `a + k` wraps to.
proof fn lemma_wrap_shift(a: int, line: int, k: int)
    requires
        0 <= line < 32,
        0 <= k < 32,
    ensures
        (wrap(line - a, 32) == k) == (line == wrap(a + k, 32)),
        0 <= wrap(line - a, 32) < 32,
        0 <= wrap(a + k, 32) < 32,
{
}

/// A cell is known by its row and its column.
proof fn lemma_cell_parts(row: int, column: int, cell: int)
    requires
        0 <= row < 32,
        0 <= column < 32,
        0 <= cell < 1024,
    ensures
        (row * 32 + column) / 32 == row,
        (row * 32 + column) % 32 == column,
        0 <= row * 32 + column < 1024,
        (cell == row * 32 + column) == (cell / 32 == row && cell % 32 == column),
{
}

/// The cells of a run of at most 32 tiles are those of its tiles, each
/// another cell.
proof fn lemma_run_cells(x: int, y: int, along_x: bool, ox: int, oy: int, j: int, k: int, cell: int)
    requires
        0 <= j < 32,
        0 <= k < 32,
        0 <= cell < 1024,
    ensures
        0 <= grid_cell(run_at(x, j, along_x), run_at(y, j, !along_x), ox, oy) < 1024,
        in_run(
            grid_cell(run_at(x, j, along_x), run_at(y, j, !along_x), ox, oy),
            x,
            y,
            k,
            along_x,
            ox,
            oy,
        ) == (j < k),
        in_run(cell, x, y, k + 1, along_x, ox, oy) == (in_run(cell, x, y, k, along_x, ox, oy)
            || cell == grid_cell(run_at(x, k, along_x), run_at(y, k, !along_x), ox, oy)),
        !in_run(cell, x, y, 0, along_x, ox, oy),
{
    let a = x - ox;
    let b = y - oy;
    if along_x {
        let row = wrap(b, 32);
        let column_j = wrap(a + j, 32);
        let column_k = wrap(a + k, 32);
        lemma_cell_parts(row, column_j, cell);
        lemma_cell_parts(row, column_k, cell);
        lemma_wrap_shift(a, column_j, j);
        lemma_wrap_shift(a, cell % 32, k);
        assert(grid_cell(x + j, y, ox, oy) == row * 32 + column_j);
        assert(grid_cell(x + k, y, ox, oy) == row * 32 + column_k);
    } else {
        let column = wrap(a, 32);
        let row_j = wrap(b + j, 32);
        let row_k = wrap(b + k, 32);
        lemma_cell_parts(row_j, column, cell);
        lemma_cell_parts(row_k, column, cell);
        lemma_wrap_shift(b, row_j, j);
        lemma_wrap_shift(b, cell / 32, k);
        assert(grid_cell(x, y + j, ox, oy) == row_j * 32 + column);
        assert(grid_cell(x, y + k, ox, oy) == row_k * 32 + column);
    }
}

/// Number of grid columns that a full fill covers for a view whose left
/// edge is at pixel `x`: the columns under the screen and one more.
pub open spec fn fill_width(x: int) -> int {
    ceil_div(x + WIDTH, 8) + 1 - floor_div(x, 8)
}

/// Number of grid rows that a full fill covers for a view whose top edge is
/// at pixel `y`.
pub open spec fn fill_height(y: int) -> int {
    ceil_div(y + HEIGHT, 8) + 1 - floor_div(y, 8)
}

/// A full fill covers 31 or 32 columns and 21 or 22 rows.
pub proof fn lemma_fill_size(x: int, y: int)
    ensures
        31 <= fill_width(x) <= 32,
        21 <= fill_height(y) <= 22,
{
    lemma_ceil_div_bounds(x + WIDTH, 8);
    lemma_floor_div_bounds(x, 8);
    lemma_ceil_div_bounds(y + HEIGHT, 8);
    lemma_floor_div_bounds(y, 8);
}

/// Whether a move by `(dx, dy)` pixels is too far to follow edge by edge.
pub open spec fn is_jump(dx: int, dy: int) -> bool {
    dx > JUMP || dx < -JUMP || dy > JUMP || dy < -JUMP
}

/// The line of tiles that a move from pixel `old` to pixel `new` along one
/// axis exposes, if it crosses into another tile: the view's first line
/// when moving back, the line `far` tiles further when moving on.
pub open spec fn exposed(old: int, new: int, far: int) -> Option<int> {
    if floor_div(old, 8) != floor_div(new, 8) {
        Some(
            if new < old {
                floor_div(new, 8)
            } else {
                floor_div(new, 8) + far
            },
        )
    } else {
        None
    }
}

/// The number of tiles fetched by a move from `(old_x, old_y)` to
/// `(new_x, new_y)`.
pub open spec fn planned_fetches(old_x: int, old_y: int, new_x: int, new_y: int) -> int {
    if is_jump(new_x - old_x, new_y - old_y) {
        fill_width(new_x) * fill_height(new_y)
    } else {
        (if exposed(old_x, new_x, RIGHT_EDGE as int) is Some {
            COLUMN_TILES as int
        } else {
            0
        }) + (if exposed(old_y, new_y, BOTTOM_EDGE as int) is Some {
            ROW_TILES as int
        } else {
            0
        })
    }
}

/// A move by one pixel along one axis fetches at most one column, or at
/// most one row, and nothing on the other axis. A move by more than 80
/// pixels on either axis fetches the whole window anew.
pub proof fn lemma_fetches_of_a_move(old_x: int, old_y: int, new_x: int, new_y: int)
    ensures
        -1 <= new_x - old_x <= 1 && new_y == old_y ==> {
            &&& !is_jump(new_x - old_x, new_y - old_y)
            &&& exposed(old_y, new_y, BOTTOM_EDGE as int) is None
            &&& planned_fetches(old_x, old_y, new_x, new_y) <= COLUMN_TILES
        },
        -1 <= new_y - old_y <= 1 && new_x == old_x ==> {
            &&& !is_jump(new_x - old_x, new_y - old_y)
            &&& exposed(old_x, new_x, RIGHT_EDGE as int) is None
            &&& planned_fetches(old_x, old_y, new_x, new_y) <= ROW_TILES
        },
        new_x == old_x && new_y == old_y ==> planned_fetches(old_x, old_y, new_x, new_y) == 0,
        is_jump(new_x - old_x, new_y - old_y) ==> planned_fetches(old_x, old_y, new_x, new_y)
            == fill_width(new_x) * fill_height(new_y) && planned_fetches(
            old_x,
            old_y,
            new_x,
            new_y,
        ) >= 31 * 21,
{
    lemma_fill_size(new_x, new_y);
    let w = fill_width(new_x);
    let h = fill_height(new_y);
    assert(w * h >= 31 * 21) by (nonlinear_arith)
        requires
            w >= 31,
            h >= 21,
    ;
}

/// The line of tiles that a move from pixel `old` to pixel `new` along one
/// axis exposes, if any.
pub fn exposed_line(old: i32, new: i32, far: i32) -> (line: Option<i32>)
    requires
        0 <= far <= 32,
    ensures
        line == (match exposed(old as int, new as int, far as int) {
            Some(l) => Some(l as i32),
            None => None,
        }),
        line is Some ==> line->0 == exposed(old as int, new as int, far as int)->0,
{
    let new_tile = div_floor(new, 8);
    proof {
        lemma_floor_div_bounds(new as int, 8);
    }
    if div_floor(old, 8) != new_tile {
        if new < old {
            Some(new_tile)
        } else {
            Some(new_tile + far)
        }
    } else {
        None
    }
}

/// The state after the cells `cells` are set, one after the other, each to
/// what `fetched` holds for it.
#[verifier::opaque]
pub open spec fn set_cells(
    state: GridState,
    arena: ArenaView,
    cells: Seq<int>,
    fetched: Seq<(TileSetReference, TileSetting)>,
) -> GridState
    decreases cells.len(),
{
    if cells.len() == 0 {
        state
    } else {
        let before = set_cells(state, arena, cells.drop_last(), fetched.drop_last());
        set_cell(before, arena, cells.last(), fetched.last().0, fetched.last().1)
    }
}

/// Setting cells in two batches is setting them all in turn.
pub proof fn lemma_set_cells_append(
    state: GridState,
    arena: ArenaView,
    first_cells: Seq<int>,
    first_fetched: Seq<(TileSetReference, TileSetting)>,
    more_cells: Seq<int>,
    more_fetched: Seq<(TileSetReference, TileSetting)>,
)
    requires
        first_cells.len() == first_fetched.len(),
        more_cells.len() == more_fetched.len(),
    ensures
        set_cells(state, arena, first_cells + more_cells, first_fetched + more_fetched)
            == set_cells(
            set_cells(state, arena, first_cells, first_fetched),
            arena,
            more_cells,
            more_fetched,
        ),
    decreases more_cells.len(),
{
    reveal_with_fuel(set_cells, 2);
    if more_cells.len() == 0 {
        assert(first_cells + more_cells =~= first_cells);
        assert(first_fetched + more_fetched =~= first_fetched);
    } else {
        lemma_set_cells_append(
            state,
            arena,
            first_cells,
            first_fetched,
            more_cells.drop_last(),
            more_fetched.drop_last(),
        );
        assert((first_cells + more_cells).drop_last() =~= first_cells + more_cells.drop_last());
        assert((first_fetched + more_fetched).drop_last() =~= first_fetched
            + more_fetched.drop_last());
    }
}

/// The logical tiles of the run of `len` tiles from `(x, y)`, in the order
/// in which they are fetched.
pub open spec fn run_coords(x: int, y: int, len: int, along_x: bool) -> Seq<(int, int)> {
    Seq::new(len as nat, |j: int| (run_at(x, j, along_x), run_at(y, j, !along_x)))
}

/// The logical tiles that a full fill for a view at pixel `(x, y)` fetches,
/// in the order in which it fetches them: row after row of the window.
pub open spec fn fill_coords(x: int, y: int) -> Seq<(int, int)> {
    Seq::new(
        (fill_width(x) * fill_height(y)) as nat,
        |k: int| (floor_div(x, 8) + k % fill_width(x), floor_div(y, 8) + k / fill_width(x)),
    )
}

/// The logical tiles that a move from pixel `(old_x, old_y)` to pixel
/// `(new_x, new_y)` fetches when it is followed edge by edge, in the order
/// in which it fetches them: the exposed column from its top, then the
/// exposed row from its left.
pub open spec fn move_coords(old_x: int, old_y: int, new_x: int, new_y: int) -> Seq<(int, int)> {
    let column = exposed(old_x, new_x, RIGHT_EDGE as int);
    let row = exposed(old_y, new_y, BOTTOM_EDGE as int);
    (if column is Some {
        run_coords(column->0, floor_div(new_y, 8) - 1, COLUMN_TILES as int, false)
    } else {
        Seq::empty()
    }) + (if row is Some {
        run_coords(floor_div(new_x, 8) - 1, row->0, ROW_TILES as int, true)
    } else {
        Seq::empty()
    })
}

/// The grid cells that stand for the logical tiles `coords`.
pub open spec fn cells_of(coords: Seq<(int, int)>, ox: int, oy: int) -> Seq<int> {
    Seq::new(coords.len(), |k: int| grid_cell(coords[k].0, coords[k].1, ox, oy))
}

/// Whether `fetched` holds, for each of the logical tiles `coords`,
/// something that the fetch function can return for it.
#[verifier::opaque]
pub open spec fn fetched_for<F: Fn(Vector2D<i32>) -> (TileSetReference, TileSetting)>(
    fetch: F,
    coords: Seq<(int, int)>,
    fetched: Seq<(TileSetReference, TileSetting)>,
) -> bool {
    &&& fetched.len() == coords.len()
    &&& forall|k: int|
        0 <= k < coords.len() ==> #[trigger] fetch.ensures(
            (Vector2D { x: coords[k].0 as i32, y: coords[k].1 as i32 },),
            fetched[k],
        )
}

/// Whether the cells `cells` can be set, one after the other, each to what
/// `fetched` holds for it: each finds, when its turn comes, the slot it lets
/// go of in use and the tile it is to show resolvable.
#[verifier::opaque]
pub open spec fn can_set_cells(
    state: GridState,
    arena: ArenaView,
    cells: Seq<int>,
    fetched: Seq<(TileSetReference, TileSetting)>,
) -> bool
    decreases cells.len(),
{
    if cells.len() == 0 {
        true
    } else {
        &&& can_set_cells(state, arena, cells.drop_last(), fetched.drop_last())
        &&& can_set_state(
            set_cells(state, arena, cells.drop_last(), fetched.drop_last()),
            arena,
            cells.last(),
            fetched.last().0,
            fetched.last().1,
        )
    }
}

/// Whether the logical tiles `coords` can be fetched and set in turn,
/// whatever the fetch function returns: however far the fetching has come,
/// the tiles fetched so far can be set. For a fetch function that returns
/// something for every tile, that is to say that every sequence of results
/// for all of `coords` can be set.
pub open spec fn settable<F: Fn(Vector2D<i32>) -> (TileSetReference, TileSetting)>(
    fetch: F,
    state: GridState,
    arena: ArenaView,
    coords: Seq<(int, int)>,
    ox: int,
    oy: int,
) -> bool {
    forall|got: Seq<(TileSetReference, TileSetting)>|
        got.len() <= coords.len() && #[trigger] fetched_for(
            fetch,
            coords.take(got.len() as int),
            got,
        ) ==> can_set_cells(state, arena, cells_of(coords.take(got.len() as int), ox, oy), got)
}

/// Cells can be set in two batches exactly if they can all be set in turn.
pub proof fn lemma_can_set_cells_append(
    state: GridState,
    arena: ArenaView,
    first_cells: Seq<int>,
    first_fetched: Seq<(TileSetReference, TileSetting)>,
    more_cells: Seq<int>,
    more_fetched: Seq<(TileSetReference, TileSetting)>,
)
    requires
        first_cells.len() == first_fetched.len(),
        more_cells.len() == more_fetched.len(),
    ensures
        can_set_cells(state, arena, first_cells + more_cells, first_fetched + more_fetched) == (
        can_set_cells(state, arena, first_cells, first_fetched) && can_set_cells(
            set_cells(state, arena, first_cells, first_fetched),
            arena,
            more_cells,
            more_fetched,
        )),
    decreases more_cells.len(),
{
    reveal_with_fuel(can_set_cells, 2);
    reveal_with_fuel(set_cells, 2);
    if more_cells.len() == 0 {
        assert(first_cells + more_cells =~= first_cells);
        assert(first_fetched + more_fetched =~= first_fetched);
    } else {
        lemma_can_set_cells_append(
            state,
            arena,
            first_cells,
            first_fetched,
            more_cells.drop_last(),
            more_fetched.drop_last(),
        );
        lemma_set_cells_append(
            state,
            arena,
            first_cells,
            first_fetched,
            more_cells.drop_last(),
            more_fetched.drop_last(),
        );
        assert((first_cells + more_cells).drop_last() =~= first_cells + more_cells.drop_last());
        assert((first_fetched + more_fetched).drop_last() =~= first_fetched
            + more_fetched.drop_last());
    }
}

/// Where tiles can be fetched and set in turn, the first of them can be
/// set to whatever was fetched for them, and the rest can be fetched and set
/// in turn after that.
pub proof fn lemma_settable_after<F: Fn(Vector2D<i32>) -> (TileSetReference, TileSetting)>(
    fetch: F,
    state: GridState,
    arena: ArenaView,
    first: Seq<(int, int)>,
    more: Seq<(int, int)>,
    ox: int,
    oy: int,
    got: Seq<(TileSetReference, TileSetting)>,
)
    requires
        settable(fetch, state, arena, first + more, ox, oy),
        fetched_for(fetch, first, got),
    ensures
        can_set_cells(state, arena, cells_of(first, ox, oy), got),
        settable(
            fetch,
            set_cells(state, arena, cells_of(first, ox, oy), got),
            arena,
            more,
            ox,
            oy,
        ),
{
    reveal(fetched_for);
    let all = first + more;
    assert(all.take(got.len() as int) =~= first);
    assert(fetched_for(fetch, all.take(got.len() as int), got));
    assert forall|rest: Seq<(TileSetReference, TileSetting)>|
        rest.len() <= more.len() && #[trigger] fetched_for(
            fetch,
            more.take(rest.len() as int),
            rest,
        ) implies can_set_cells(
        set_cells(state, arena, cells_of(first, ox, oy), got),
        arena,
        cells_of(more.take(rest.len() as int), ox, oy),
        rest,
    ) by {
        let both = got + rest;
        let part = more.take(rest.len() as int);
        assert(all.take(both.len() as int) =~= first + part);
        assert forall|k: int| 0 <= k < (first + part).len() implies #[trigger] fetch.ensures(
            (Vector2D { x: (first + part)[k].0 as i32, y: (first + part)[k].1 as i32 },),
            both[k],
        ) by {
            if k < first.len() {
                assert((first + part)[k] == first[k]);
                assert(both[k] == got[k]);
            } else {
                assert((first + part)[k] == part[k - first.len()]);
                assert(both[k] == rest[k - first.len()]);
            }
        }
        assert(fetched_for(fetch, all.take(both.len() as int), both));
        assert(cells_of(first + part, ox, oy) =~= cells_of(first, ox, oy) + cells_of(
            part,
            ox,
            oy,
        ));
        lemma_can_set_cells_append(
            state,
            arena,
            cells_of(first, ox, oy),
            got,
            cells_of(part, ox, oy),
            rest,
        );
    }
}

/// Whether whatever the fetch function returns for one of the logical
/// tiles `coords` can be resolved in `arena`: it is the empty tile, or a
/// tile within a tileset whose handle is live.
pub open spec fn resolvable_at<F: Fn(Vector2D<i32>) -> (TileSetReference, TileSetting)>(
    fetch: F,
    arena: ArenaView,
    coords: Seq<(int, int)>,
) -> bool {
    forall|k: int, r: (TileSetReference, TileSetting)|
        0 <= k < coords.len() && #[trigger] fetch.ensures(
            (Vector2D { x: coords[k].0 as i32, y: coords[k].1 as i32 },),
            r,
        ) ==> index_bits(r.1.raw()) == 0 || (arena.is_live(r.0) && (index_bits(r.1.raw()) + 1)
            * 8 <= arena.words(r.0).len())
}

/// On a backed grid, with headroom for as many requests as there are cells
/// to set, the cells can be set to any tiles that can be resolved; the grid
/// stays backed, and the headroom that was not needed is left.
pub proof fn lemma_headroom_sets(
    state: GridState,
    arena: ArenaView,
    cells: Seq<int>,
    got: Seq<(TileSetReference, TileSetting)>,
    n: int,
)
    requires
        state.cache.wf(),
        state.cells.len() == 1024,
        backed_by(state.cells, state.cache),
        state.cache.headroom(n),
        n >= cells.len(),
        cells.len() == got.len(),
        forall|k: int|
            0 <= k < cells.len() ==> 0 <= #[trigger] cells[k] < 1024 && (index_bits(
                got[k].1.raw(),
            ) == 0 || (arena.is_live(got[k].0) && (index_bits(got[k].1.raw()) + 1) * 8
                <= arena.words(got[k].0).len())),
    ensures
        can_set_cells(state, arena, cells, got),
        set_cells(state, arena, cells, got).cache.wf(),
        set_cells(state, arena, cells, got).cells.len() == 1024,
        backed_by(
            set_cells(state, arena, cells, got).cells,
            set_cells(state, arena, cells, got).cache,
        ),
        set_cells(state, arena, cells, got).cache.headroom(n - cells.len()),
    decreases cells.len(),
{
    reveal_with_fuel(can_set_cells, 2);
    reveal_with_fuel(set_cells, 2);
    if cells.len() > 0 {
        let fewer = cells.drop_last();
        let fewer_got = got.drop_last();
        assert forall|k: int| 0 <= k < fewer.len() implies 0 <= #[trigger] fewer[k] < 1024 && (
        index_bits(fewer_got[k].1.raw()) == 0 || (arena.is_live(fewer_got[k].0) && (index_bits(
            fewer_got[k].1.raw(),
        ) + 1) * 8 <= arena.words(fewer_got[k].0).len())) by {
            assert(fewer[k] == cells[k]);
            assert(fewer_got[k] == got[k]);
        }
        lemma_headroom_sets(state, arena, fewer, fewer_got, n);
        let before = set_cells(state, arena, fewer, fewer_got);
        let cell = cells.last();
        let handle = got.last().0;
        let setting = got.last().1;
        assert(cell == cells[cells.len() - 1]);
        assert(got.last() == got[cells.len() - 1]);
        let left = n - fewer.len();
        let others = |slot: int| 0nat;
        lemma_clear_cell_accounted(before.cells, before.cache, cell, others);
        let mid = cache_after_clearing(before.cache, before.cells[cell]);
        assert(before.cache.headroom(left) ==> mid.headroom(left));
        let tile = index_bits(setting.raw());
        if tile != 0 {
            mid.lemma_add_headroom(tile_key(handle, tile), handle.issued(), left);
        } else {
            assert forall|slot: int| #[trigger] mid.count(slot) + (left - 1) <= 0xFFFF by {
                assert(mid.count(slot) + left <= 0xFFFF);
            }
        }
        lemma_set_cell_accounted(before.cells, before.cache, cell, handle, setting, others);
    }
}

/// Tiles can be fetched and set in turn, whatever is fetched, where the
/// grid is backed, the cache has headroom for as many requests as there are
/// tiles, and whatever is fetched for them can be resolved.
pub proof fn lemma_headroom_suffices<F: Fn(Vector2D<i32>) -> (TileSetReference, TileSetting)>(
    fetch: F,
    state: GridState,
    arena: ArenaView,
    coords: Seq<(int, int)>,
    ox: int,
    oy: int,
)
    requires
        state.cache.wf(),
        state.cells.len() == 1024,
        backed_by(state.cells, state.cache),
        state.cache.headroom(coords.len() as int),
        resolvable_at(fetch, arena, coords),
    ensures
        settable(fetch, state, arena, coords, ox, oy),
{
    reveal(fetched_for);
    assert forall|got: Seq<(TileSetReference, TileSetting)>|
        got.len() <= coords.len() && #[trigger] fetched_for(
            fetch,
            coords.take(got.len() as int),
            got,
        ) implies can_set_cells(
        state,
        arena,
        cells_of(coords.take(got.len() as int), ox, oy),
        got,
    ) by {
        let part = coords.take(got.len() as int);
        let cells = cells_of(part, ox, oy);
        assert forall|k: int| 0 <= k < cells.len() implies 0 <= #[trigger] cells[k] < 1024 && (
        index_bits(got[k].1.raw()) == 0 || (arena.is_live(got[k].0) && (index_bits(
            got[k].1.raw(),
        ) + 1) * 8 <= arena.words(got[k].0).len())) by {
            assert(part[k] == coords[k]);
            assert(fetch.ensures(
                (Vector2D { x: part[k].0 as i32, y: part[k].1 as i32 },),
                got[k],
            ));
        }
        lemma_headroom_sets(state, arena, cells, got, coords.len() as int);
    }
}

/// A fetch function whose every result can be resolved has its results
/// for any tiles resolvable.
pub proof fn lemma_resolvable_everywhere<F: Fn(Vector2D<i32>) -> (TileSetReference, TileSetting)>(
    fetch: F,
    arena: ArenaView,
    coords: Seq<(int, int)>,
)
    requires
        fetches_resolvable(fetch, arena),
    ensures
        resolvable_at(fetch, arena, coords),
{
}

/// Whether the fetch function can return something for the logical tile
/// `tile`.
pub open spec fn returns_for<F: Fn(Vector2D<i32>) -> (TileSetReference, TileSetting)>(
    fetch: F,
    tile: (int, int),
) -> bool {
    exists|r: (TileSetReference, TileSetting)| #[trigger]
        fetch.ensures((Vector2D { x: tile.0 as i32, y: tile.1 as i32 },), r)
}

/// Where the fetch function can return something for each of the tiles
/// `coords`, the tiles can be fetched and set in turn exactly if every
/// sequence of results for all of them can be set.
pub proof fn lemma_settable_of_whole<F: Fn(Vector2D<i32>) -> (TileSetReference, TileSetting)>(
    fetch: F,
    state: GridState,
    arena: ArenaView,
    coords: Seq<(int, int)>,
    ox: int,
    oy: int,
)
    requires
        forall|k: int| 0 <= k < coords.len() ==> returns_for(fetch, #[trigger] coords[k]),
    ensures
        settable(fetch, state, arena, coords, ox, oy) == (forall|
            got: Seq<(TileSetReference, TileSetting)>,
        | #[trigger]
            fetched_for(fetch, coords, got) ==> can_set_cells(
                state,
                arena,
                cells_of(coords, ox, oy),
                got,
            )),
{
    reveal(fetched_for);
    if settable(fetch, state, arena, coords, ox, oy) {
        assert forall|got: Seq<(TileSetReference, TileSetting)>| #[trigger]
            fetched_for(fetch, coords, got) implies can_set_cells(
            state,
            arena,
            cells_of(coords, ox, oy),
            got,
        ) by {
            assert(coords.take(got.len() as int) =~= coords);
        }
    }
    if forall|got: Seq<(TileSetReference, TileSetting)>| #[trigger]
        fetched_for(fetch, coords, got) ==> can_set_cells(
            state,
            arena,
            cells_of(coords, ox, oy),
            got,
        ) {
        assert forall|got: Seq<(TileSetReference, TileSetting)>|
            got.len() <= coords.len() && #[trigger] fetched_for(
                fetch,
                coords.take(got.len() as int),
                got,
            ) implies can_set_cells(
            state,
            arena,
            cells_of(coords.take(got.len() as int), ox, oy),
            got,
        ) by {
            let n = got.len() as int;
            let whole = Seq::new(
                coords.len(),
                |k: int|
                    if k < n {
                        got[k]
                    } else {
                        choose|r: (TileSetReference, TileSetting)| #[trigger]
                            fetch.ensures(
                                (Vector2D { x: coords[k].0 as i32, y: coords[k].1 as i32 },),
                                r,
                            )
                    },
            );
            assert forall|k: int| 0 <= k < coords.len() implies #[trigger] fetch.ensures(
                (Vector2D { x: coords[k].0 as i32, y: coords[k].1 as i32 },),
                whole[k],
            ) by {
                if k < n {
                    assert(coords.take(n)[k] == coords[k]);
                } else {
                    assert(returns_for(fetch, coords[k]));
                }
            }
            assert(fetched_for(fetch, coords, whole));
            let rest = whole.skip(n);
            assert(whole =~= got + rest);
            assert(cells_of(coords, ox, oy) =~= cells_of(coords.take(n), ox, oy) + cells_of(
                coords.skip(n),
                ox,
                oy,
            ));
            lemma_can_set_cells_append(
                state,
                arena,
                cells_of(coords.take(n), ox, oy),
                got,
                cells_of(coords.skip(n), ox, oy),
                rest,
            );
        }
    }
}

/// Where tiles can be fetched and set in turn, the first can be set to
/// whatever is fetched for it, and the others can be fetched and set in turn
/// after that.
proof fn lemma_settable_step<F: Fn(Vector2D<i32>) -> (TileSetReference, TileSetting)>(
    fetch: F,
    state: GridState,
    arena: ArenaView,
    coords: Seq<(int, int)>,
    ox: int,
    oy: int,
    one: (TileSetReference, TileSetting),
)
    requires
        coords.len() > 0,
        settable(fetch, state, arena, coords, ox, oy),
        fetch.ensures((Vector2D { x: coords[0].0 as i32, y: coords[0].1 as i32 },), one),
    ensures
        can_set_state(state, arena, grid_cell(coords[0].0, coords[0].1, ox, oy), one.0, one.1),
        settable(
            fetch,
            set_cell(state, arena, grid_cell(coords[0].0, coords[0].1, ox, oy), one.0, one.1),
            arena,
            coords.drop_first(),
            ox,
            oy,
        ),
{
    reveal(fetched_for);
    reveal_with_fuel(can_set_cells, 2);
    reveal_with_fuel(set_cells, 2);
    let first = seq![coords[0]];
    let got = seq![one];
    assert(first + coords.drop_first() =~= coords);
    assert(fetched_for(fetch, first, got));
    lemma_settable_after(fetch, state, arena, first, coords.drop_first(), ox, oy, got);
    let cells = cells_of(first, ox, oy);
    assert(cells.drop_last() =~= Seq::<int>::empty());
    assert(got.drop_last() =~= Seq::<(TileSetReference, TileSetting)>::empty());
    assert(cells.last() == grid_cell(coords[0].0, coords[0].1, ox, oy));
}

/// Where tiles can be fetched and set in turn, so can the first of them.
proof fn lemma_settable_prefix<F: Fn(Vector2D<i32>) -> (TileSetReference, TileSetting)>(
    fetch: F,
    state: GridState,
    arena: ArenaView,
    first: Seq<(int, int)>,
    more: Seq<(int, int)>,
    ox: int,
    oy: int,
)
    requires
        settable(fetch, state, arena, first + more, ox, oy),
    ensures
        settable(fetch, state, arena, first, ox, oy),
{
    assert forall|got: Seq<(TileSetReference, TileSetting)>|
        got.len() <= first.len() && #[trigger] fetched_for(
            fetch,
            first.take(got.len() as int),
            got,
        ) implies can_set_cells(
        state,
        arena,
        cells_of(first.take(got.len() as int), ox, oy),
        got,
    ) by {
        assert((first + more).take(got.len() as int) =~= first.take(got.len() as int));
    }
}

/// The logical tiles of a block that is `w` tiles wide and whose first
/// tile is `(x0, y0)`, row after row, as far as the first `n` of them.
pub open spec fn block_coords(x0: int, y0: int, w: int, n: int) -> Seq<(int, int)> {
    Seq::new(n as nat, |k: int| (x0 + k % w, y0 + k / w))
}

/// Whether `state` is what fetching and setting the tiles `coords` in turn
/// makes of `start`.
pub open spec fn set_all<F: Fn(Vector2D<i32>) -> (TileSetReference, TileSetting)>(
    fetch: F,
    start: GridState,
    arena: ArenaView,
    coords: Seq<(int, int)>,
    ox: int,
    oy: int,
    state: GridState,
) -> bool {
    exists|got: Seq<(TileSetReference, TileSetting)>| #[trigger]
        fetched_for(fetch, coords, got) && state == set_cells(
            start,
            arena,
            cells_of(coords, ox, oy),
            got,
        )
}

/// Whether `got` holds what was fetched for the first `k + 1` of the tiles
/// `coords`, `state` is what setting the first `k` of them makes of
/// `start`, and the last one fetched cannot be set in `state`.
pub open spec fn stopped_with<F: Fn(Vector2D<i32>) -> (TileSetReference, TileSetting)>(
    fetch: F,
    start: GridState,
    arena: ArenaView,
    coords: Seq<(int, int)>,
    ox: int,
    oy: int,
    k: int,
    state: GridState,
    got: Seq<(TileSetReference, TileSetting)>,
) -> bool {
    &&& 0 <= k < coords.len()
    &&& fetched_for(fetch, coords.take(k + 1), got)
    &&& state == set_cells(start, arena, cells_of(coords.take(k), ox, oy), got.drop_last())
    &&& !can_set_state(
        state,
        arena,
        grid_cell(coords[k].0, coords[k].1, ox, oy),
        got.last().0,
        got.last().1,
    )
}

/// Whether fetching and setting the tiles `coords` in turn stopped at the
/// `k`-th of them: the tiles before it were fetched and set, which made
/// `state` of `start`, and what was fetched for the `k`-th cannot be set.
pub open spec fn stopped_at<F: Fn(Vector2D<i32>) -> (TileSetReference, TileSetting)>(
    fetch: F,
    start: GridState,
    arena: ArenaView,
    coords: Seq<(int, int)>,
    ox: int,
    oy: int,
    k: int,
    state: GridState,
) -> bool {
    exists|got: Seq<(TileSetReference, TileSetting)>| #[trigger]
        stopped_with(fetch, start, arena, coords, ox, oy, k, state, got)
}

/// What was fetched for the first tiles, with what is fetched for the next,
/// is what was fetched for one tile more.
proof fn lemma_fetched_grows<F: Fn(Vector2D<i32>) -> (TileSetReference, TileSetting)>(
    fetch: F,
    coords: Seq<(int, int)>,
    k: int,
    got: Seq<(TileSetReference, TileSetting)>,
    one: (TileSetReference, TileSetting),
)
    requires
        0 <= k < coords.len(),
        fetched_for(fetch, coords.take(k), got),
        fetch.ensures((Vector2D { x: coords[k].0 as i32, y: coords[k].1 as i32 },), one),
    ensures
        fetched_for(fetch, coords.take(k + 1), got.push(one)),
        got.push(one).drop_last() == got,
        got.push(one).last() == one,
{
    reveal(fetched_for);
    let more = coords.take(k + 1);
    let longer = got.push(one);
    assert(longer.drop_last() =~= got);
    assert forall|i: int| 0 <= i < more.len() implies #[trigger] fetch.ensures(
        (Vector2D { x: more[i].0 as i32, y: more[i].1 as i32 },),
        longer[i],
    ) by {
        if i < k {
            assert(more[i] == coords.take(k)[i]);
            assert(longer[i] == got[i]);
        }
    }
}

/// Setting one more tile extends what was set so far.
proof fn lemma_fold_grows(
    start: GridState,
    arena: ArenaView,
    coords: Seq<(int, int)>,
    k: int,
    ox: int,
    oy: int,
    got: Seq<(TileSetReference, TileSetting)>,
    one: (TileSetReference, TileSetting),
    before: GridState,
    after: GridState,
)
    requires
        0 <= k < coords.len(),
        before == set_cells(start, arena, cells_of(coords.take(k), ox, oy), got),
        after == set_cell(
            before,
            arena,
            grid_cell(coords[k].0, coords[k].1, ox, oy),
            one.0,
            one.1,
        ),
    ensures
        after == set_cells(start, arena, cells_of(coords.take(k + 1), ox, oy), got.push(one)),
{
    reveal_with_fuel(set_cells, 2);
    let more = coords.take(k + 1);
    assert(cells_of(more, ox, oy).drop_last() =~= cells_of(coords.take(k), ox, oy));
    assert(got.push(one).drop_last() =~= got);
}

/// What was fetched for some tiles, with what was fetched for more, is
/// what was fetched for them all.
proof fn lemma_fetched_append<F: Fn(Vector2D<i32>) -> (TileSetReference, TileSetting)>(
    fetch: F,
    first: Seq<(int, int)>,
    first_got: Seq<(TileSetReference, TileSetting)>,
    more: Seq<(int, int)>,
    more_got: Seq<(TileSetReference, TileSetting)>,
)
    requires
        fetched_for(fetch, first, first_got),
        fetched_for(fetch, more, more_got),
    ensures
        fetched_for(fetch, first + more, first_got + more_got),
{
    reveal(fetched_for);
    assert forall|k: int| 0 <= k < (first + more).len() implies #[trigger] fetch.ensures(
        (Vector2D { x: (first + more)[k].0 as i32, y: (first + more)[k].1 as i32 },),
        (first_got + more_got)[k],
    ) by {
        if k < first.len() {
            assert((first + more)[k] == first[k]);
            assert((first_got + more_got)[k] == first_got[k]);
        } else {
            assert((first + more)[k] == more[k - first.len()]);
            assert((first_got + more_got)[k] == more_got[k - first.len()]);
        }
    }
}

/// Fetching and setting one more tile of a run extends what was fetched and
/// set for the run so far.
proof fn lemma_run_grows<F: Fn(Vector2D<i32>) -> (TileSetReference, TileSetting)>(
    fetch: F,
    start: GridState,
    arena: ArenaView,
    x: int,
    y: int,
    k: int,
    along_x: bool,
    ox: int,
    oy: int,
    got: Seq<(TileSetReference, TileSetting)>,
    one: (TileSetReference, TileSetting),
    before: GridState,
    after: GridState,
)
    requires
        0 <= k,
        fetched_for(fetch, run_coords(x, y, k, along_x), got),
        before == set_cells(start, arena, cells_of(run_coords(x, y, k, along_x), ox, oy), got),
        fetch.ensures(
            (Vector2D { x: run_at(x, k, along_x) as i32, y: run_at(y, k, !along_x) as i32 },),
            one,
        ),
        after == set_cell(
            before,
            arena,
            grid_cell(run_at(x, k, along_x), run_at(y, k, !along_x), ox, oy),
            one.0,
            one.1,
        ),
    ensures
        fetched_for(fetch, run_coords(x, y, k + 1, along_x), got.push(one)),
        after == set_cells(
            start,
            arena,
            cells_of(run_coords(x, y, k + 1, along_x), ox, oy),
            got.push(one),
        ),
{
    reveal(fetched_for);
    reveal_with_fuel(set_cells, 2);
    let coords = run_coords(x, y, k, along_x);
    let more = run_coords(x, y, k + 1, along_x);
    let longer = got.push(one);
    assert(more.drop_last() =~= coords);
    assert(cells_of(more, ox, oy).drop_last() =~= cells_of(coords, ox, oy));
    assert(longer.drop_last() =~= got);
    assert forall|i: int| 0 <= i < more.len() implies #[trigger] fetch.ensures(
        (Vector2D { x: more[i].0 as i32, y: more[i].1 as i32 },),
        longer[i],
    ) by {
        if i < k {
            assert(more[i] == coords[i]);
            assert(longer[i] == got[i]);
        }
    }
}

/// Fetching and setting one more tile of a run keeps what holds of the run
/// so far: the cells outside it are as they were and show what they
/// showed, and the cells within it show what was fetched for them.
proof fn lemma_run_keeps<F: Fn(Vector2D<i32>) -> (TileSetReference, TileSetting)>(
    fetch: F,
    x: int,
    y: int,
    k: int,
    along_x: bool,
    ox: int,
    oy: int,
    cells: Seq<u16>,
    cache: CacheView,
    cells_before: Seq<u16>,
    cache_before: CacheView,
    cells_after: Seq<u16>,
    cache_after: CacheView,
)
    requires
        0 <= k < 32,
        forall|i: int|
            0 <= i < 1024 && !in_run(i, x, y, k, along_x, ox, oy) ==> cells_before[i] == cells[i],
        forall|j: int|
            0 <= j < k ==> fetched(
                fetch,
                cache_before,
                cells_before[grid_cell(run_at(x, j, along_x), run_at(y, j, !along_x), ox, oy)],
                run_at(x, j, along_x),
                run_at(y, j, !along_x),
            ),
        forall|i: int, h: TileSetReference, s: TileSetting|
            0 <= i < 1024 && !in_run(i, x, y, k, along_x, ox, oy) && #[trigger] shows(
                cache,
                cells[i],
                h,
                s,
            ) ==> shows(cache_before, cells[i], h, s),
        forall|i: int|
            0 <= i < 1024 && i != grid_cell(
                run_at(x, k, along_x),
                run_at(y, k, !along_x),
                ox,
                oy,
            ) ==> cells_after[i] == cells_before[i],
        fetched(
            fetch,
            cache_after,
            cells_after[grid_cell(run_at(x, k, along_x), run_at(y, k, !along_x), ox, oy)],
            run_at(x, k, along_x),
            run_at(y, k, !along_x),
        ),
        forall|i: int, h: TileSetReference, s: TileSetting|
            0 <= i < 1024 && i != grid_cell(
                run_at(x, k, along_x),
                run_at(y, k, !along_x),
                ox,
                oy,
            ) && #[trigger] shows(cache_before, cells_before[i], h, s) ==> shows(
                cache_after,
                cells_before[i],
                h,
                s,
            ),
    ensures
        forall|i: int|
            0 <= i < 1024 && !in_run(i, x, y, k + 1, along_x, ox, oy) ==> cells_after[i]
                == cells[i],
        forall|j: int|
            0 <= j < k + 1 ==> fetched(
                fetch,
                cache_after,
                cells_after[grid_cell(run_at(x, j, along_x), run_at(y, j, !along_x), ox, oy)],
                run_at(x, j, along_x),
                run_at(y, j, !along_x),
            ),
        forall|i: int, h: TileSetReference, s: TileSetting|
            0 <= i < 1024 && !in_run(i, x, y, k + 1, along_x, ox, oy) && #[trigger] shows(
                cache,
                cells[i],
                h,
                s,
            ) ==> shows(cache_after, cells[i], h, s),
{
    let cell = grid_cell(run_at(x, k, along_x), run_at(y, k, !along_x), ox, oy);
    assert forall|i: int|
        0 <= i < 1024 && !in_run(i, x, y, k + 1, along_x, ox, oy) implies cells_after[i]
        == cells[i] by {
        lemma_run_cells(x, y, along_x, ox, oy, k, k, i);
    }
    assert forall|j: int| 0 <= j < k + 1 implies fetched(
        fetch,
        cache_after,
        cells_after[grid_cell(run_at(x, j, along_x), run_at(y, j, !along_x), ox, oy)],
        run_at(x, j, along_x),
        run_at(y, j, !along_x),
    ) by {
        if j < k {
            let jx = run_at(x, j, along_x);
            let jy = run_at(y, j, !along_x);
            let c = grid_cell(jx, jy, ox, oy);
            lemma_run_cells(x, y, along_x, ox, oy, j, k, cell);
            lemma_run_cells(x, y, along_x, ox, oy, j, j, cell);
            assert(c != cell);
            let r = choose|r: (TileSetReference, TileSetting)| #[trigger]
                fetch.ensures((Vector2D { x: jx as i32, y: jy as i32 },), r) && shows(
                    cache_before,
                    cells_before[c],
                    r.0,
                    r.1,
                );
            assert(shows(cache_after, cells_before[c], r.0, r.1));
        }
    }
    assert forall|i: int, h: TileSetReference, s: TileSetting|
        0 <= i < 1024 && !in_run(i, x, y, k + 1, along_x, ox, oy) && #[trigger] shows(
            cache,
            cells[i],
            h,
            s,
        ) implies shows(cache_after, cells[i], h, s) by {
        lemma_run_cells(x, y, along_x, ox, oy, k, k, i);
        assert(shows(cache_before, cells[i], h, s));
        assert(cells_before[i] == cells[i]);
    }
}

/// Fetching and setting a second batch of tiles after a first is fetching
/// and setting the tiles of both, in turn.
proof fn lemma_batch_grows<F: Fn(Vector2D<i32>) -> (TileSetReference, TileSetting)>(
    fetch: F,
    start: GridState,
    arena: ArenaView,
    ox: int,
    oy: int,
    first: Seq<(int, int)>,
    first_got: Seq<(TileSetReference, TileSetting)>,
    more: Seq<(int, int)>,
    more_got: Seq<(TileSetReference, TileSetting)>,
    between: GridState,
    after: GridState,
)
    requires
        fetched_for(fetch, first, first_got),
        between == set_cells(start, arena, cells_of(first, ox, oy), first_got),
        fetched_for(fetch, more, more_got),
        after == set_cells(between, arena, cells_of(more, ox, oy), more_got),
    ensures
        fetched_for(fetch, first + more, first_got + more_got),
        after == set_cells(start, arena, cells_of(first + more, ox, oy), first_got + more_got),
{
    reveal(fetched_for);
    lemma_set_cells_append(
        start,
        arena,
        cells_of(first, ox, oy),
        first_got,
        cells_of(more, ox, oy),
        more_got,
    );
    assert(cells_of(first + more, ox, oy) =~= cells_of(first, ox, oy) + cells_of(more, ox, oy));
    assert forall|k: int| 0 <= k < (first + more).len() implies #[trigger] fetch.ensures(
        (Vector2D { x: (first + more)[k].0 as i32, y: (first + more)[k].1 as i32 },),
        (first_got + more_got)[k],
    ) by {
        if k < first.len() {
            assert((first + more)[k] == first[k]);
            assert((first_got + more_got)[k] == first_got[k]);
        } else {
            assert((first + more)[k] == more[k - first.len()]);
            assert((first_got + more_got)[k] == more_got[k - first.len()]);
        }
    }
}

/// The tiles of a full fill are those of its rows, one row after the
/// other.
proof fn lemma_fill_row(x: int, y: int, row: int)
    requires
        0 <= row < fill_height(y),
    ensures
        0 <= row * fill_width(x),
        (row + 1) * fill_width(x) == row * fill_width(x) + fill_width(x),
        (row + 1) * fill_width(x) <= fill_coords(x, y).len(),
        fill_coords(x, y).take((row + 1) * fill_width(x)) == fill_coords(x, y).take(
            row * fill_width(x),
        ) + run_coords(floor_div(x, 8), floor_div(y, 8) + row, fill_width(x), true),
        fill_coords(x, y).skip(row * fill_width(x)) == run_coords(
            floor_div(x, 8),
            floor_div(y, 8) + row,
            fill_width(x),
            true,
        ) + fill_coords(x, y).skip((row + 1) * fill_width(x)),
{
    lemma_fill_size(x, y);
    let w = fill_width(x);
    let h = fill_height(y);
    let all = fill_coords(x, y);
    let line = run_coords(floor_div(x, 8), floor_div(y, 8) + row, w, true);
    assert(0 <= row * w && (row + 1) * w == row * w + w && (row + 1) * w <= w * h)
        by (nonlinear_arith)
        requires
            0 <= row < h,
            w > 0,
    ;
    assert forall|k: int| row * w <= k < (row + 1) * w implies all[k] == line[k - row * w] by {
        vstd::arithmetic::div_mod::lemma_fundamental_div_mod_converse(k, w, row, k - row * w);
    }
    assert(all.take((row + 1) * w) =~= all.take(row * w) + line);
    assert(all.skip(row * w) =~= line + all.skip((row + 1) * w));
}

/// A move fetches as many tiles as `planned_fetches` says: whatever
/// `set_pos` has fetched for a move has that length.
pub proof fn lemma_planned_fetches(old_x: int, old_y: int, new_x: int, new_y: int)
    ensures
        planned_fetches(old_x, old_y, new_x, new_y) == (if is_jump(new_x - old_x, new_y - old_y) {
            fill_coords(new_x, new_y).len()
        } else {
            move_coords(old_x, old_y, new_x, new_y).len()
        }),
        planned_fetches(old_x, old_y, new_x, new_y) >= 0,
{
    lemma_fill_size(new_x, new_y);
    let w = fill_width(new_x);
    let h = fill_height(new_y);
    assert(w * h >= 0) by (nonlinear_arith)
        requires
            w >= 0,
            h >= 0,
    ;
}

/// The remainder of `a` in `0..m`.
fn wrap_to(a: i32, m: i32) -> (r: u16)
    requires
        0 < m <= 0x1_0000,
    ensures
        r == wrap(a as int, m as int),
{
    a.checked_rem_euclid(m).unwrap() as u16
}

/// A view of 240 by 160 pixels onto an unbounded world of tiles, drawn
/// through one background layer.
pub struct InfiniteScrolledMap<F> {
    map: MapLoan<RegularMap>,
    get_tile: F,
    current_pos: Vector2D<i32>,
    offset: Vector2D<i32>,
}

impl<F: Fn(Vector2D<i32>) -> (TileSetReference, TileSetting)> InfiniteScrolledMap<F> {
    /// The layer on loan to the window.
    pub closed spec fn loan(&self) -> MapLoan<RegularMap> {
        self.map
    }

    /// The wrapping grid behind the window.
    pub open spec fn grid(&self) -> RegularMap {
        self.loan().inner()
    }

    /// The function that says what each logical tile shows.
    pub closed spec fn fetch(&self) -> F {
        self.get_tile
    }

    /// The logical pixel position of the view's top left corner.
    pub closed spec fn position(&self) -> Vector2D<i32> {
        self.current_pos
    }

    /// The logical tile that the grid's first cell stands for.
    pub closed spec fn origin(&self) -> Vector2D<i32> {
        self.offset
    }

    /// The layer is a layer of the hardware, and the grid's origin lies
    /// within the coordinates that the grid arithmetic can take.
    pub open spec fn wf(&self) -> bool {
        &&& self.loan().wf()
        &&& self.grid().wf()
        &&& -TILE_LIMIT <= self.origin().x <= TILE_LIMIT
        &&& -TILE_LIMIT <= self.origin().y <= TILE_LIMIT
    }

    /// The grid cell that stands for logical tile `(x, y)`.
    pub open spec fn cell_of(&self, x: int, y: int) -> int {
        grid_cell(x, y, self.origin().x as int, self.origin().y as int)
    }

    /// The grid shows at logical tile `(x, y)` something that the fetch
    /// function can return for it.
    pub open spec fn reflects(&self, cache: CacheView, x: int, y: int) -> bool {
        fetched(self.fetch(), cache, self.grid().cells()[self.cell_of(x, y)], x, y)
    }

    /// A window through the layer `map`, at position 0, whose tiles
    /// `get_tile` names. The grid is as `map` has it until `init` fills it.
    pub fn new(map: MapLoan<RegularMap>, get_tile: F) -> (window: Self)
        requires
            map.wf(),
            map.inner().wf(),
        ensures
            window.wf(),
            window.loan() == map,
            window.fetch() == get_tile,
            window.position() == (Vector2D { x: 0i32, y: 0i32 }),
            window.origin() == (Vector2D { x: 0i32, y: 0i32 }),
    {
        Self {
            map,
            get_tile,
            current_pos: Vector2D::new(0, 0),
            offset: Vector2D::new(0, 0),
        }
    }

    /// Asks the fetch function what logical tile `(x, y)` shows.
    fn fetch_at(&self, x: i32, y: i32) -> (got: (TileSetReference, TileSetting))
        requires
            fetch_total(self.fetch()),
        ensures
            self.fetch().ensures((Vector2D { x, y },), got),
    {
        let p = Vector2D::new(x, y);
        assert(self.fetch().requires((p,)));
        assert(self.get_tile == self.fetch());
        (self.get_tile)(p)
    }

    /// Whether the grid cell of logical tile `(x, y)` can be set to show
    /// what `tile_setting` asks for of the tileset behind `tile_set_ref`.
    fn can_place(
        &self,
        vram: &VRamManager<'_>,
        x: i32,
        y: i32,
        tile_set_ref: TileSetReference,
        tile_setting: TileSetting,
    ) -> (can: bool)
        requires
            self.wf(),
            vram.wf(),
            -TILE_LIMIT <= x <= TILE_LIMIT,
            -TILE_LIMIT <= y <= TILE_LIMIT,
        ensures
            can == can_set_state(
                self.grid().state(vram),
                vram.arena(),
                self.cell_of(x as int, y as int),
                tile_set_ref,
                tile_setting,
            ),
    {
        let gx = wrap_to(x - self.offset.x, 32);
        let gy = wrap_to(y - self.offset.y, 32);
        proof {
            self.grid().lemma_cells_len();
        }
        self.map.map().can_set_tile(vram, Vector2D::new(gx, gy), tile_set_ref, tile_setting)
    }

    /// Sets the grid cell of logical tile `(x, y)` to what was fetched for
    /// it.
    fn place(
        &mut self,
        vram: &mut VRamManager<'_>,
        x: i32,
        y: i32,
        tile_set_ref: TileSetReference,
        tile_setting: TileSetting,
    )
        requires
            old(self).wf(),
            old(vram).wf(),
            old(self).fetch().ensures((Vector2D { x, y },), (tile_set_ref, tile_setting)),
            can_set_state(
                old(self).grid().state(old(vram)),
                old(vram).arena(),
                old(self).cell_of(x as int, y as int),
                tile_set_ref,
                tile_setting,
            ),
            -TILE_LIMIT <= x <= TILE_LIMIT,
            -TILE_LIMIT <= y <= TILE_LIMIT,
        ensures
            final(self).wf(),
            final(vram).wf(),
            final(self).fetch() == old(self).fetch(),
            final(self).position() == old(self).position(),
            final(self).origin() == old(self).origin(),
            final(self).loan().layer() == old(self).loan().layer(),
            final(self).grid().same_registers(&old(self).grid()),
            old(self).grid().is_dirty() ==> final(self).grid().is_dirty(),
            final(vram).arena() == old(vram).arena(),
            forall|others: spec_fn(int) -> nat| #[trigger]
                accounted(old(self).grid().cells(), old(vram).cache(), others) ==> accounted(
                    final(self).grid().cells(),
                    final(vram).cache(),
                    others,
                ),
            forall|n: int| #[trigger]
                old(vram).cache().headroom(n) && n >= 1 ==> final(vram).cache().headroom(n - 1),
            forall|i: int|
                0 <= i < 1024 && i != old(self).cell_of(x as int, y as int) ==> final(self).grid().cells()[i] == old(self).grid().cells()[i],
            backed_by(old(self).grid().cells(), old(vram).cache()) ==> {
                &&& backed_by(final(self).grid().cells(), final(vram).cache())
                &&& final(self).reflects(final(vram).cache(), x as int, y as int)
                &&& forall|i: int, h: TileSetReference, s: TileSetting|
                    0 <= i < 1024 && i != old(self).cell_of(x as int, y as int)
                        && #[trigger] shows(
                        old(vram).cache(),
                        old(self).grid().cells()[i],
                        h,
                        s,
                    ) ==> shows(final(vram).cache(), old(self).grid().cells()[i], h, s)
            },
            final(self).grid().state(final(vram)) == set_cell(
                old(self).grid().state(old(vram)),
                old(vram).arena(),
                old(self).cell_of(x as int, y as int),
                tile_set_ref,
                tile_setting,
            ),
    {
        let ghost fetch = self.fetch();
        let ghost cells = self.grid().cells();
        let ghost cache = vram.cache();
        let ghost cell = self.cell_of(x as int, y as int);
        let gx = wrap_to(x - self.offset.x, 32);
        let gy = wrap_to(y - self.offset.y, 32);
        proof {
            vram.lemma_wf_views();
            self.grid().lemma_cells_len();
            let raw = cells[cell];
            let mid = cache_after_clearing(cache, raw);
            let tile = index_bits(tile_setting.raw());
            if raw != 0 {
                cache.lemma_release_wf(index_bits(raw) as int);
            }
            assert forall|others: spec_fn(int) -> nat| #[trigger]
                accounted(cells, cache, others) implies accounted(
                cells.update(cell, cell_after_setting(cache, cells[cell], tile_set_ref, tile_setting)),
                cache_after_setting(cache, cells[cell], tile_set_ref, tile_setting),
                others,
            ) by {
                lemma_set_cell_accounted(cells, cache, cell, tile_set_ref, tile_setting, others);
            }
            assert forall|n: int| #[trigger] cache.headroom(n) && n >= 1 implies cache_after_setting(
                cache,
                cells[cell],
                tile_set_ref,
                tile_setting,
            ).headroom(n - 1) by {
                if raw != 0 {
                    cache.lemma_release_headroom(index_bits(raw) as int, n);
                }
                if tile != 0 {
                    mid.lemma_add_headroom(tile_key(tile_set_ref, tile), tile_set_ref.issued(), n);
                } else {
                    assert forall|slot: int| #[trigger] mid.count(slot) + (n - 1) <= 0xFFFF by {
                        assert(mid.count(slot) + n <= 0xFFFF);
                    }
                }
            }
            if backed_by(cells, cache) {
                lemma_set_cell_shows(cells, cache, cell, tile_set_ref, tile_setting);
                assert forall|i: int, h: TileSetReference, s: TileSetting|
                    0 <= i < 1024 && i != cell && #[trigger] shows(
                        cache,
                        cells[i],
                        h,
                        s,
                    ) implies shows(
                    cache_after_setting(cache, cells[cell], tile_set_ref, tile_setting),
                    cells[i],
                    h,
                    s,
                ) by {
                    lemma_set_cell_keeps_showing(
                        cells,
                        cache,
                        cell,
                        tile_set_ref,
                        tile_setting,
                        i,
                        h,
                        s,
                    );
                }
            }
        }
        let map = self.map.map_mut();
        map.set_tile(vram, Vector2D::new(gx, gy), tile_set_ref, tile_setting);
        proof {
            let r = (tile_set_ref, tile_setting);
            assert(fetch.ensures((Vector2D { x: (x as int) as i32, y: (y as int) as i32 },), r));
            if backed_by(cells, cache) {
                assert(shows(vram.cache(), self.grid().cells()[cell], r.0, r.1));
            }
        }
    }

    /// Fetches the first `n` logical tiles of the block that is `w` tiles
    /// wide and begins at `(x0, y0)`, row after row, and sets their grid
    /// cells, as long as what is fetched can be set. Hands back the number
    /// of tiles set; if that is less than `n`, the tile fetched next could
    /// not be set.
    fn try_block(&mut self, vram: &mut VRamManager<'_>, x0: i32, y0: i32, w: i32, n: i32) -> (out: (
        i32,
        Ghost<Seq<(TileSetReference, TileSetting)>>,
    ))
        requires
            old(self).wf(),
            old(vram).wf(),
            fetch_total(old(self).fetch()),
            1 <= w <= 32,
            0 <= n <= 1024,
            -TILE_LIMIT <= x0 <= TILE_LIMIT - 32,
            -TILE_LIMIT <= y0 <= TILE_LIMIT - 1024,
        ensures
            final(self).wf(),
            final(vram).wf(),
            final(self).fetch() == old(self).fetch(),
            final(self).position() == old(self).position(),
            final(self).origin() == old(self).origin(),
            final(self).loan().layer() == old(self).loan().layer(),
            final(self).grid().same_registers(&old(self).grid()),
            old(self).grid().is_dirty() ==> final(self).grid().is_dirty(),
            final(vram).arena() == old(vram).arena(),
            0 <= out.0 <= n,
            out.0 == n ==> {
                &&& fetched_for(
                    old(self).fetch(),
                    block_coords(x0 as int, y0 as int, w as int, n as int),
                    out.1@,
                )
                &&& final(self).grid().state(final(vram)) == set_cells(
                    old(self).grid().state(old(vram)),
                    old(vram).arena(),
                    cells_of(
                        block_coords(x0 as int, y0 as int, w as int, n as int),
                        old(self).origin().x as int,
                        old(self).origin().y as int,
                    ),
                    out.1@,
                )
            },
            out.0 < n ==> stopped_with(
                old(self).fetch(),
                old(self).grid().state(old(vram)),
                old(vram).arena(),
                block_coords(x0 as int, y0 as int, w as int, n as int),
                old(self).origin().x as int,
                old(self).origin().y as int,
                out.0 as int,
                final(self).grid().state(final(vram)),
                out.1@,
            ),
    {
        let ghost fetch = self.fetch();
        let ghost ox = self.origin().x as int;
        let ghost oy = self.origin().y as int;
        let ghost start = self.grid().state(vram);
        let ghost arena = vram.arena();
        let ghost coords = block_coords(x0 as int, y0 as int, w as int, n as int);
        let ghost mut got: Seq<(TileSetReference, TileSetting)> = Seq::empty();
        proof {
            reveal(fetched_for);
            reveal_with_fuel(set_cells, 1);
            assert(coords.take(0) =~= Seq::empty());
            assert(cells_of(coords.take(0), ox, oy) =~= Seq::empty());
            assert(fetched_for(fetch, coords.take(0), got));
            assert(start == set_cells(start, arena, cells_of(coords.take(0), ox, oy), got));
        }
        let mut k: i32 = 0;
        let mut going = true;
        while k < n && going
            invariant
                0 <= k <= n <= 1024,
                1 <= w <= 32,
                -TILE_LIMIT <= x0 <= TILE_LIMIT - 32,
                -TILE_LIMIT <= y0 <= TILE_LIMIT - 1024,
                self.wf(),
                vram.wf(),
                fetch == old(self).fetch(),
                self.fetch() == fetch,
                fetch_total(fetch),
                self.position() == old(self).position(),
                self.origin() == old(self).origin(),
                ox == old(self).origin().x,
                oy == old(self).origin().y,
                self.loan().layer() == old(self).loan().layer(),
                self.grid().same_registers(&old(self).grid()),
                old(self).grid().is_dirty() ==> self.grid().is_dirty(),
                vram.arena() == old(vram).arena(),
                start == old(self).grid().state(old(vram)),
                arena == old(vram).arena(),
                coords == block_coords(x0 as int, y0 as int, w as int, n as int),
                going ==> fetched_for(fetch, coords.take(k as int), got),
                going ==> self.grid().state(vram) == set_cells(
                    start,
                    arena,
                    cells_of(coords.take(k as int), ox, oy),
                    got,
                ),
                !going ==> k < n && stopped_with(
                    fetch,
                    start,
                    arena,
                    coords,
                    ox,
                    oy,
                    k as int,
                    self.grid().state(vram),
                    got,
                ),
            decreases n - k + (if going { 1int } else { 0int }),
        {
            let tile_x = x0 + k % w;
            let tile_y = y0 + k / w;
            let ghost state_before = self.grid().state(vram);
            let (tile_set_ref, tile_setting) = self.fetch_at(tile_x, tile_y);
            let ghost one = (tile_set_ref, tile_setting);
            proof {
                assert(coords[k as int] == (tile_x as int, tile_y as int));
                lemma_fetched_grows(fetch, coords, k as int, got, one);
            }
            if self.can_place(vram, tile_x, tile_y, tile_set_ref, tile_setting) {
                self.place(vram, tile_x, tile_y, tile_set_ref, tile_setting);
                proof {
                    lemma_fold_grows(
                        start,
                        arena,
                        coords,
                        k as int,
                        ox,
                        oy,
                        got,
                        one,
                        state_before,
                        self.grid().state(vram),
                    );
                    got = got.push(one);
                }
                k += 1;
            } else {
                proof {
                    got = got.push(one);
                }
                going = false;
            }
        }
        proof {
            if going {
                assert(coords.take(n as int) =~= coords);
            }
        }
        (k, Ghost(got))
    }

    /// Whether grid cell `cell` stands for one of the first `len` logical
    /// tiles of the run from `(x, y)`.
    pub open spec fn covers(&self, cell: int, x: int, y: int, len: int, along_x: bool) -> bool {
        in_run(cell, x, y, len, along_x, self.origin().x as int, self.origin().y as int)
    }

    /// Fetches the `len` logical tiles from `(x, y)` on, to the right if
    /// `along_x` holds and downwards otherwise, and sets their grid cells.
    fn refresh_run(
        &mut self,
        vram: &mut VRamManager<'_>,
        x: i32,
        y: i32,
        len: i32,
        along_x: bool,
    ) -> (got: Ghost<Seq<(TileSetReference, TileSetting)>>)
        requires
            old(self).wf(),
            old(vram).wf(),
            fetch_total(old(self).fetch()),
            0 <= len <= 32,
            settable(
                old(self).fetch(),
                old(self).grid().state(old(vram)),
                old(vram).arena(),
                run_coords(x as int, y as int, len as int, along_x),
                old(self).origin().x as int,
                old(self).origin().y as int,
            ),
            -TILE_LIMIT <= x <= TILE_LIMIT - 32,
            -TILE_LIMIT <= y <= TILE_LIMIT - 32,
        ensures
            final(self).wf(),
            final(vram).wf(),
            final(self).fetch() == old(self).fetch(),
            final(self).position() == old(self).position(),
            final(self).origin() == old(self).origin(),
            final(self).loan().layer() == old(self).loan().layer(),
            final(self).grid().same_registers(&old(self).grid()),
            old(self).grid().is_dirty() ==> final(self).grid().is_dirty(),
            final(vram).arena() == old(vram).arena(),
            forall|others: spec_fn(int) -> nat| #[trigger]
                accounted(old(self).grid().cells(), old(vram).cache(), others) ==> accounted(
                    final(self).grid().cells(),
                    final(vram).cache(),
                    others,
                ),
            forall|n: int| #[trigger]
                old(vram).cache().headroom(n) && n >= len ==> final(vram).cache().headroom(
                    n - len,
                ),
            forall|i: int|
                0 <= i < 1024 && !old(self).covers(i, x as int, y as int, len as int, along_x)
                    ==> final(self).grid().cells()[i] == old(self).grid().cells()[i],
            backed_by(old(self).grid().cells(), old(vram).cache()) ==> {
                &&& backed_by(final(self).grid().cells(), final(vram).cache())
                &&& forall|j: int|
                    0 <= j < len ==> final(self).reflects(
                        final(vram).cache(),
                        run_at(x as int, j, along_x),
                        run_at(y as int, j, !along_x),
                    )
                &&& forall|i: int, h: TileSetReference, s: TileSetting|
                    0 <= i < 1024 && !old(self).covers(
                        i,
                        x as int,
                        y as int,
                        len as int,
                        along_x,
                    ) && #[trigger] shows(old(vram).cache(), old(self).grid().cells()[i], h, s)
                        ==> shows(final(vram).cache(), old(self).grid().cells()[i], h, s)
            },
            fetched_for(
                old(self).fetch(),
                run_coords(x as int, y as int, len as int, along_x),
                got@,
            ),
            final(self).grid().state(final(vram)) == set_cells(
                old(self).grid().state(old(vram)),
                old(vram).arena(),
                cells_of(
                    run_coords(x as int, y as int, len as int, along_x),
                    old(self).origin().x as int,
                    old(self).origin().y as int,
                ),
                got@,
            ),
    {
        let ghost fetch = self.fetch();
        let ghost cells = self.grid().cells();
        let ghost cache = vram.cache();
        let ghost ox = self.origin().x as int;
        let ghost oy = self.origin().y as int;
        let ghost start = self.grid().state(vram);
        let ghost arena = vram.arena();
        let ghost mut got: Seq<(TileSetReference, TileSetting)> = Seq::empty();
        let ghost all = run_coords(x as int, y as int, len as int, along_x);
        let ghost backed = backed_by(cells, cache);
        proof {
            assert(all.skip(0) =~= all);
            reveal(fetched_for);
            reveal_with_fuel(set_cells, 1);
            assert(run_coords(x as int, y as int, 0, along_x) =~= Seq::empty());
            assert(cells_of(run_coords(x as int, y as int, 0, along_x), ox, oy) =~= Seq::empty());
            assert(fetched_for(fetch, run_coords(x as int, y as int, 0, along_x), got));
            assert(start == set_cells(
                start,
                arena,
                cells_of(run_coords(x as int, y as int, 0, along_x), ox, oy),
                got,
            ));
        }
        proof {
            assert forall|i: int| 0 <= i < 1024 implies !in_run(
                i,
                x as int,
                y as int,
                0,
                along_x,
                ox,
                oy,
            ) by {
                lemma_run_cells(x as int, y as int, along_x, ox, oy, 0, 0, i);
            }
        }
        let mut k: i32 = 0;
        while k < len
            invariant
                0 <= k <= len <= 32,
                -TILE_LIMIT <= x <= TILE_LIMIT - 32,
                -TILE_LIMIT <= y <= TILE_LIMIT - 32,
                self.wf(),
                vram.wf(),
                fetch == old(self).fetch(),
                cells == old(self).grid().cells(),
                cache == old(vram).cache(),
                ox == old(self).origin().x,
                oy == old(self).origin().y,
                self.fetch() == fetch,
                self.position() == old(self).position(),
                self.origin() == old(self).origin(),
                self.loan().layer() == old(self).loan().layer(),
                self.grid().same_registers(&old(self).grid()),
                old(self).grid().is_dirty() ==> self.grid().is_dirty(),
                vram.arena() == old(vram).arena(),
                fetch_total(fetch),
                all == run_coords(x as int, y as int, len as int, along_x),
                backed == backed_by(cells, cache),
                settable(fetch, self.grid().state(vram), arena, all.skip(k as int), ox, oy),
                backed ==> backed_by(self.grid().cells(), vram.cache()),
                forall|others: spec_fn(int) -> nat| #[trigger]
                    accounted(cells, cache, others) ==> accounted(
                        self.grid().cells(),
                        vram.cache(),
                        others,
                    ),
                forall|n: int| #[trigger]
                    cache.headroom(n) && n >= k ==> vram.cache().headroom(n - k),
                forall|i: int|
                    0 <= i < 1024 && !in_run(i, x as int, y as int, k as int, along_x, ox, oy)
                        ==> self.grid().cells()[i] == cells[i],
                backed ==> forall|j: int|
                    0 <= j < k ==> self.reflects(
                        vram.cache(),
                        run_at(x as int, j, along_x),
                        run_at(y as int, j, !along_x),
                    ),
                backed ==> forall|i: int, h: TileSetReference, s: TileSetting|
                    0 <= i < 1024 && !in_run(i, x as int, y as int, k as int, along_x, ox, oy)
                        && #[trigger] shows(cache, cells[i], h, s) ==> shows(
                        vram.cache(),
                        cells[i],
                        h,
                        s,
                    ),
                start == old(self).grid().state(old(vram)),
                arena == old(vram).arena(),
                fetched_for(fetch, run_coords(x as int, y as int, k as int, along_x), got),
                self.grid().state(vram) == set_cells(
                    start,
                    arena,
                    cells_of(run_coords(x as int, y as int, k as int, along_x), ox, oy),
                    got,
                ),
            decreases len - k,
        {
            let tile_x = if along_x {
                x + k
            } else {
                x
            };
            let tile_y = if along_x {
                y
            } else {
                y + k
            };
            let ghost before = *self;
            let ghost cache_before = vram.cache();
            let ghost cells_before = self.grid().cells();
            let ghost cell = self.cell_of(tile_x as int, tile_y as int);
            let ghost state_before = self.grid().state(vram);
            let (tile_set_ref, tile_setting) = self.fetch_at(tile_x, tile_y);
            let ghost one = (tile_set_ref, tile_setting);
            proof {
                let rest = all.skip(k as int);
                assert(rest[0] == (tile_x as int, tile_y as int));
                assert(rest.drop_first() =~= all.skip(k + 1));
                lemma_settable_step(fetch, state_before, arena, rest, ox, oy, one);
            }
            self.place(vram, tile_x, tile_y, tile_set_ref, tile_setting);
            proof {
                lemma_run_grows(
                    fetch,
                    start,
                    arena,
                    x as int,
                    y as int,
                    k as int,
                    along_x,
                    ox,
                    oy,
                    got,
                    one,
                    state_before,
                    self.grid().state(vram),
                );
                got = got.push(one);
            }
            proof {
                assert forall|n: int| #[trigger] cache.headroom(n) && n >= k + 1 implies vram.cache().headroom(
                    n - (k + 1),
                ) by {
                    assert(cache_before.headroom(n - k));
                }
                self.grid().lemma_cells_len();
                if backed {
                    lemma_run_keeps(
                        fetch,
                        x as int,
                        y as int,
                        k as int,
                        along_x,
                        ox,
                        oy,
                        cells,
                        cache,
                        cells_before,
                        cache_before,
                        self.grid().cells(),
                        vram.cache(),
                    );
                } else {
                    assert forall|i: int|
                        0 <= i < 1024 && !in_run(
                            i,
                            x as int,
                            y as int,
                            k + 1,
                            along_x,
                            ox,
                            oy,
                        ) implies self.grid().cells()[i] == cells[i] by {
                        lemma_run_cells(x as int, y as int, along_x, ox, oy, k as int, k as int, i);
                    }
                }
            }
            k += 1;
        }
        Ghost(got)
    }

    /// Where a full fill at `pos` leaves the window, given the window and
    /// the cache as they were before: the view is at `pos`, the grid's first
    /// cell stands for the tile under the view's corner, the grid is
    /// scrolled by the rest, every cell outside the filled window is as it
    /// was, and of the headroom that there was, all but one request for each
    /// tile of the window is left.
    pub open spec fn filled_from(
        &self,
        before: &Self,
        cache_before: CacheView,
        cache: CacheView,
        pos: Vector2D<i32>,
    ) -> bool {
        let w = fill_width(pos.x as int);
        let h = fill_height(pos.y as int);
        &&& self.position() == pos
        &&& self.origin().x == floor_div(pos.x as int, 8)
        &&& self.origin().y == floor_div(pos.y as int, 8)
        &&& self.grid().scroll_x() == wrap(pos.x as int, 8)
        &&& self.grid().scroll_y() == wrap(pos.y as int, 8)
        &&& forall|i: int|
            0 <= i < 1024 && !(i % 32 < w && i / 32 < h) ==> self.grid().cells()[i]
                == before.grid().cells()[i]
        &&& forall|n: int| #[trigger]
            cache_before.headroom(n) && n >= w * h ==> cache.headroom(n - w * h)
    }

    /// What a full fill at `pos` leaves to be seen: every cell of the filled
    /// window shows what was fetched for it, and every other cell shows what
    /// it showed.
    pub open spec fn fill_shown(
        &self,
        before: &Self,
        cache_before: CacheView,
        cache: CacheView,
        pos: Vector2D<i32>,
    ) -> bool {
        let w = fill_width(pos.x as int);
        let h = fill_height(pos.y as int);
        &&& forall|cx: int, cy: int|
            0 <= cx < w && 0 <= cy < h ==> #[trigger] self.reflects(
                cache,
                self.origin().x + cx,
                self.origin().y + cy,
            )
        &&& forall|i: int, t: TileSetReference, s: TileSetting|
            0 <= i < 1024 && !(i % 32 < w && i / 32 < h) && #[trigger] shows(
                cache_before,
                before.grid().cells()[i],
                t,
                s,
            ) ==> shows(cache, before.grid().cells()[i], t, s)
    }

    /// Where a move to `pos` that is followed edge by edge leaves the
    /// window: the view is at `pos`, the grid still stands for the same
    /// tiles and is scrolled on by the move, and every cell outside the
    /// exposed column and row is as it was.
    pub open spec fn scrolled_from(
        &self,
        before: &Self,
        cache_before: CacheView,
        cache: CacheView,
        pos: Vector2D<i32>,
    ) -> bool {
        let column = exposed(before.position().x as int, pos.x as int, RIGHT_EDGE as int);
        let row = exposed(before.position().y as int, pos.y as int, BOTTOM_EDGE as int);
        let top = floor_div(pos.y as int, 8) - 1;
        let left = floor_div(pos.x as int, 8) - 1;
        let in_column = |i: int| column is Some && self.covers(i, column->0, top, 22, false);
        let in_row = |i: int| row is Some && self.covers(i, left, row->0, 32, true);
        &&& self.position() == pos
        &&& self.origin() == before.origin()
        &&& self.grid().scroll_x() == wrap(
            before.grid().scroll_x() + (pos.x - before.position().x),
            256,
        )
        &&& self.grid().scroll_y() == wrap(
            before.grid().scroll_y() + (pos.y - before.position().y),
            256,
        )
        &&& forall|i: int|
            0 <= i < 1024 && !in_column(i) && !in_row(i) ==> self.grid().cells()[i]
                == before.grid().cells()[i]
    }

    /// What a move to `pos` that is followed edge by edge leaves to be
    /// seen: the cells of the exposed column and row show what was fetched
    /// for them, and every other cell shows what it showed.
    pub open spec fn scroll_shown(
        &self,
        before: &Self,
        cache_before: CacheView,
        cache: CacheView,
        pos: Vector2D<i32>,
    ) -> bool {
        let column = exposed(before.position().x as int, pos.x as int, RIGHT_EDGE as int);
        let row = exposed(before.position().y as int, pos.y as int, BOTTOM_EDGE as int);
        let top = floor_div(pos.y as int, 8) - 1;
        let left = floor_div(pos.x as int, 8) - 1;
        let in_column = |i: int| column is Some && self.covers(i, column->0, top, 22, false);
        let in_row = |i: int| row is Some && self.covers(i, left, row->0, 32, true);
        &&& column is Some ==> forall|j: int|
            0 <= j < 22 ==> #[trigger] self.reflects(cache, column->0, top + j)
        &&& row is Some ==> forall|j: int|
            0 <= j < 32 ==> #[trigger] self.reflects(cache, left + j, row->0)
        &&& forall|i: int, t: TileSetReference, s: TileSetting|
            0 <= i < 1024 && !in_column(i) && !in_row(i) && #[trigger] shows(
                cache_before,
                before.grid().cells()[i],
                t,
                s,
            ) ==> shows(cache, before.grid().cells()[i], t, s)
    }

    /// Fills the whole window anew for a view at `pos`: every logical tile
    /// under the screen, and one more column and row, is fetched and set,
    /// row after row. The grid's first cell then stands for the tile under
    /// the view's corner, and the grid is scrolled by the pixels that are
    /// left.
    ///
    /// Whatever is fetched has to be settable when its turn comes;
    /// `lemma_headroom_suffices` gives a condition under which it is, and
    /// `try_init` tests it tile by tile.
    pub fn init(&mut self, vram: &mut VRamManager<'_>, pos: Vector2D<i32>)
        requires
            old(self).wf(),
            old(vram).wf(),
            fetch_total(old(self).fetch()),
            pos.x <= i32::MAX - WIDTH,
            pos.y <= i32::MAX - HEIGHT,
            settable(
                old(self).fetch(),
                old(self).grid().state(old(vram)),
                old(vram).arena(),
                fill_coords(pos.x as int, pos.y as int),
                floor_div(pos.x as int, 8),
                floor_div(pos.y as int, 8),
            ),
        ensures
            final(self).wf(),
            final(vram).wf(),
            final(self).fetch() == old(self).fetch(),
            final(self).loan().layer() == old(self).loan().layer(),
            final(self).grid().layer() == old(self).grid().layer(),
            final(self).grid().block() == old(self).grid().block(),
            final(self).grid().drawn_at() == old(self).grid().drawn_at(),
            old(self).grid().is_dirty() ==> final(self).grid().is_dirty(),
            final(vram).arena() == old(vram).arena(),
            forall|others: spec_fn(int) -> nat| #[trigger]
                accounted(old(self).grid().cells(), old(vram).cache(), others) ==> accounted(
                    final(self).grid().cells(),
                    final(vram).cache(),
                    others,
                ),
            final(self).filled_from(old(self), old(vram).cache(), final(vram).cache(), pos),
            backed_by(old(self).grid().cells(), old(vram).cache()) ==> {
                &&& backed_by(final(self).grid().cells(), final(vram).cache())
                &&& final(self).fill_shown(old(self), old(vram).cache(), final(vram).cache(), pos)
            },
            exists|got: Seq<(TileSetReference, TileSetting)>| #[trigger]
                fetched_for(old(self).fetch(), fill_coords(pos.x as int, pos.y as int), got)
                    && final(self).grid().state(final(vram)) == set_cells(
                    old(self).grid().state(old(vram)),
                    old(vram).arena(),
                    cells_of(
                        fill_coords(pos.x as int, pos.y as int),
                        floor_div(pos.x as int, 8),
                        floor_div(pos.y as int, 8),
                    ),
                    got,
                ),
    {
        let ghost fetch = self.fetch();
        let ghost cells = self.grid().cells();
        let ghost cache = vram.cache();
        let ghost w = fill_width(pos.x as int);
        let ghost h = fill_height(pos.y as int);
        let ghost start = self.grid().state(vram);
        let ghost arena = vram.arena();
        let ghost fill = fill_coords(pos.x as int, pos.y as int);
        let ghost backed = backed_by(cells, cache);
        let ghost mut got: Seq<(TileSetReference, TileSetting)> = Seq::empty();
        proof {
            lemma_fill_size(pos.x as int, pos.y as int);
            lemma_floor_div_bounds(pos.x as int, 8);
            lemma_floor_div_bounds(pos.y as int, 8);
            lemma_ceil_div_bounds(pos.x + WIDTH, 8);
            lemma_ceil_div_bounds(pos.y + HEIGHT, 8);
        }
        self.current_pos = pos;
        let x_start = div_floor(pos.x, 8);
        let y_start = div_floor(pos.y, 8);
        let x_end = div_ceil(pos.x + WIDTH, 8) + 1;
        let y_end = div_ceil(pos.y + HEIGHT, 8) + 1;
        self.offset = Vector2D::new(x_start, y_start);
        let width = x_end - x_start;
        let mut y = y_start;
        let ghost mut used: int = 0;
        proof {
            reveal(fetched_for);
            reveal_with_fuel(set_cells, 1);
            assert(fill.take(0) =~= Seq::empty());
            assert(fill.skip(0) =~= fill);
            assert(cells_of(fill.take(0), x_start as int, y_start as int) =~= Seq::empty());
            assert(fetched_for(fetch, fill.take(0), got));
            assert(start == set_cells(
                start,
                arena,
                cells_of(fill.take(0), x_start as int, y_start as int),
                got,
            ));
        }
        while y < y_end
            invariant
                start == old(self).grid().state(old(vram)),
                arena == old(vram).arena(),
                fill == fill_coords(pos.x as int, pos.y as int),
                w == fill_width(pos.x as int),
                h == fill_height(pos.y as int),
                fetched_for(fetch, fill.take(used), got),
                self.grid().state(vram) == set_cells(
                    start,
                    arena,
                    cells_of(fill.take(used), x_start as int, y_start as int),
                    got,
                ),
                y_start <= y <= y_end,
                y_end - y_start == h,
                width == w,
                31 <= w <= 32,
                21 <= h <= 22,
                used == (y - y_start) * w,
                x_start == floor_div(pos.x as int, 8),
                y_start == floor_div(pos.y as int, 8),
                -TILE_LIMIT + 32 <= x_start <= TILE_LIMIT - 64,
                -TILE_LIMIT + 32 <= y_start <= TILE_LIMIT - 64,
                self.wf(),
                vram.wf(),
                fetch == old(self).fetch(),
                cells == old(self).grid().cells(),
                cache == old(vram).cache(),
                self.fetch() == fetch,
                self.position() == pos,
                self.origin() == (Vector2D { x: x_start, y: y_start }),
                self.loan().layer() == old(self).loan().layer(),
                self.grid().same_registers(&old(self).grid()),
                old(self).grid().is_dirty() ==> self.grid().is_dirty(),
                vram.arena() == old(vram).arena(),
                fetch_total(fetch),
                backed == backed_by(cells, cache),
                settable(
                    fetch,
                    self.grid().state(vram),
                    arena,
                    fill.skip(used),
                    x_start as int,
                    y_start as int,
                ),
                backed ==> backed_by(self.grid().cells(), vram.cache()),
                forall|others: spec_fn(int) -> nat| #[trigger]
                    accounted(cells, cache, others) ==> accounted(
                        self.grid().cells(),
                        vram.cache(),
                        others,
                    ),
                forall|n: int| #[trigger]
                    cache.headroom(n) && n >= used ==> vram.cache().headroom(n - used),
                forall|i: int|
                    0 <= i < 1024 && !(i % 32 < w && i / 32 < y - y_start)
                        ==> self.grid().cells()[i] == cells[i],
                backed ==> forall|cx: int, cy: int|
                    0 <= cx < w && 0 <= cy < y - y_start ==> #[trigger] self.reflects(
                        vram.cache(),
                        x_start + cx,
                        y_start + cy,
                    ),
                backed ==> forall|i: int, t: TileSetReference, s: TileSetting|
                    0 <= i < 1024 && !(i % 32 < w && i / 32 < y - y_start) && #[trigger] shows(
                        cache,
                        cells[i],
                        t,
                        s,
                    ) ==> shows(vram.cache(), cells[i], t, s),
            decreases y_end - y,
        {
            let ghost before = *self;
            let ghost cache_before = vram.cache();
            let ghost cells_before = self.grid().cells();
            let ghost row = y - y_start;
            let ghost state_before = self.grid().state(vram);
            let ghost line_coords = run_coords(x_start as int, y as int, w, true);
            proof {
                lemma_fill_row(pos.x as int, pos.y as int, row);
                lemma_settable_prefix(
                    fetch,
                    state_before,
                    arena,
                    line_coords,
                    fill.skip(used + w),
                    x_start as int,
                    y_start as int,
                );
            }
            let line = self.refresh_run(vram, x_start, y, width, true);
            proof {
                lemma_settable_after(
                    fetch,
                    state_before,
                    arena,
                    line_coords,
                    fill.skip(used + w),
                    x_start as int,
                    y_start as int,
                    line@,
                );
                lemma_batch_grows(
                    fetch,
                    start,
                    arena,
                    x_start as int,
                    y_start as int,
                    fill.take(used),
                    got,
                    run_coords(x_start as int, y as int, w, true),
                    line@,
                    state_before,
                    self.grid().state(vram),
                );
                got = got + line@;
            }
            proof {
                assert forall|i: int| 0 <= i < 1024 implies before.covers(
                    i,
                    x_start as int,
                    y as int,
                    w,
                    true,
                ) == (i / 32 == row && i % 32 < w) by {}
                assert forall|n: int| #[trigger] cache.headroom(n) && n >= used + w implies vram.cache().headroom(
                    n - (used + w),
                ) by {
                    assert(cache_before.headroom(n - used));
                }
                if backed {
                assert forall|cx: int, cy: int| 0 <= cx < w && 0 <= cy < row + 1 implies #[trigger] self.reflects(
                    vram.cache(),
                    x_start + cx,
                    y_start + cy,
                ) by {
                    if cy < row {
                        let c = before.cell_of(x_start + cx, y_start + cy);
                        assert(c == cy * 32 + cx);
                        assert(before.reflects(cache_before, x_start + cx, y_start + cy));
                        let r = choose|r: (TileSetReference, TileSetting)| #[trigger]
                            fetch.ensures(
                                (Vector2D { x: (x_start + cx) as i32, y: (y_start + cy) as i32 },),
                                r,
                            ) && shows(cache_before, cells_before[c], r.0, r.1);
                        assert(shows(vram.cache(), cells_before[c], r.0, r.1));
                    } else {
                        assert(run_at(x_start as int, cx, true) == x_start + cx);
                        assert(run_at(y as int, cx, false) == y_start + cy);
                    }
                }
                assert forall|i: int, t: TileSetReference, s: TileSetting|
                    0 <= i < 1024 && !(i % 32 < w && i / 32 < row + 1) && #[trigger] shows(
                        cache,
                        cells[i],
                        t,
                        s,
                    ) implies shows(vram.cache(), cells[i], t, s) by {
                    assert(shows(cache_before, cells[i], t, s));
                    assert(cells_before[i] == cells[i]);
                }
                }
                used = used + w;
                assert(used == (y + 1 - y_start) * w) by (nonlinear_arith)
                    requires
                        used == (y - y_start) * w + w,
                ;
            }
            y += 1;
        }
        let ghost done = *self;
        let ghost cells_done = self.grid().cells();
        let scroll = Vector2D::new(
            wrap_to(pos.x - x_start * 8, 32 * 8),
            wrap_to(pos.y - y_start * 8, 32 * 8),
        );
        self.map.map_mut().set_scroll_pos(scroll);
        proof {
            assert(used == h * w);
            assert(h * w == w * h) by (nonlinear_arith);
            assert(fill.take(used) =~= fill);
            assert(self.grid().state(vram) == done.grid().state(vram));
            assert(fetched_for(fetch, fill, got));
            assert(self.position() == pos);
            assert(self.origin().x == floor_div(pos.x as int, 8));
            assert(self.grid().scroll_x() == wrap(pos.x as int, 8));
            assert(self.grid().scroll_y() == wrap(pos.y as int, 8));
            assert(self.grid().cells() == cells_done);
            if backed {
                assert forall|cx: int, cy: int| 0 <= cx < w && 0 <= cy < h implies #[trigger] self.reflects(
                    vram.cache(),
                    self.origin().x + cx,
                    self.origin().y + cy,
                ) by {
                    assert(done.reflects(vram.cache(), x_start + cx, y_start + cy));
                }
            }
            assert(forall|i: int|
                0 <= i < 1024 && !(i % 32 < w && i / 32 < h) ==> self.grid().cells()[i]
                    == cells[i]);
            assert(forall|n: int| #[trigger]
                cache.headroom(n) && n >= w * h ==> vram.cache().headroom(n - w * h));
        }
    }

    /// The logical tiles that a move of the view to `new_pos` fetches, in
    /// the order in which it fetches them: those of a full fill for a move
    /// of more than 80 pixels on either axis, else those of the exposed
    /// column and row.
    pub open spec fn fetches_of_move(&self, new_pos: Vector2D<i32>) -> Seq<(int, int)> {
        if is_jump(new_pos.x - self.position().x, new_pos.y - self.position().y) {
            fill_coords(new_pos.x as int, new_pos.y as int)
        } else {
            move_coords(
                self.position().x as int,
                self.position().y as int,
                new_pos.x as int,
                new_pos.y as int,
            )
        }
    }

    /// The scroll of the grid after a move of the view to `new_pos`: the
    /// pixels left over by the tile grid after a move of more than 80
    /// pixels on either axis, else the scroll that there was, moved on and
    /// wrapped at 256.
    pub open spec fn scroll_of_move(&self, new_pos: Vector2D<i32>) -> (int, int) {
        if is_jump(new_pos.x - self.position().x, new_pos.y - self.position().y) {
            (wrap(new_pos.x as int, 8), wrap(new_pos.y as int, 8))
        } else {
            (
                wrap(self.grid().scroll_x() + (new_pos.x - self.position().x), 256),
                wrap(self.grid().scroll_y() + (new_pos.y - self.position().y), 256),
            )
        }
    }

    /// The logical tile that the grid's first cell stands for after a move
    /// of the view to `new_pos`: the tile under the view's corner after a
    /// move of more than 80 pixels on either axis, else the one it stood
    /// for.
    pub open spec fn origin_of_move(&self, new_pos: Vector2D<i32>) -> (int, int) {
        if is_jump(new_pos.x - self.position().x, new_pos.y - self.position().y) {
            (floor_div(new_pos.x as int, 8), floor_div(new_pos.y as int, 8))
        } else {
            (self.origin().x as int, self.origin().y as int)
        }
    }

    /// Moves the view to `new_pos`. A move of more than 80 pixels on either
    /// axis fills the window anew. Any other move is followed edge by edge:
    /// if the view's first tile changes on an axis, the one column of 22
    /// tiles, or the one row of 32, that the move exposes is fetched and
    /// set, and the grid is scrolled on by the move, wrapping at 256 pixels.
    ///
    /// Whatever is fetched has to be settable when its turn comes;
    /// `lemma_headroom_suffices` gives a condition under which it is, and
    /// `try_set_pos` tests it tile by tile.
    pub fn set_pos(&mut self, vram: &mut VRamManager<'_>, new_pos: Vector2D<i32>)
        requires
            old(self).wf(),
            old(vram).wf(),
            fetch_total(old(self).fetch()),
            i32::MIN < new_pos.x - old(self).position().x <= i32::MAX,
            i32::MIN < new_pos.y - old(self).position().y <= i32::MAX,
            is_jump(new_pos.x - old(self).position().x, new_pos.y - old(self).position().y) ==> {
                &&& new_pos.x <= i32::MAX - WIDTH
                &&& new_pos.y <= i32::MAX - HEIGHT
            },
            settable(
                old(self).fetch(),
                old(self).grid().state(old(vram)),
                old(vram).arena(),
                old(self).fetches_of_move(new_pos),
                old(self).origin_of_move(new_pos).0,
                old(self).origin_of_move(new_pos).1,
            ),
        ensures
            final(self).wf(),
            final(vram).wf(),
            final(self).fetch() == old(self).fetch(),
            final(self).loan().layer() == old(self).loan().layer(),
            final(self).grid().layer() == old(self).grid().layer(),
            final(self).grid().block() == old(self).grid().block(),
            final(self).grid().drawn_at() == old(self).grid().drawn_at(),
            old(self).grid().is_dirty() ==> final(self).grid().is_dirty(),
            final(vram).arena() == old(vram).arena(),
            final(self).origin().x == old(self).origin_of_move(new_pos).0,
            final(self).origin().y == old(self).origin_of_move(new_pos).1,
            forall|others: spec_fn(int) -> nat| #[trigger]
                accounted(old(self).grid().cells(), old(vram).cache(), others) ==> accounted(
                    final(self).grid().cells(),
                    final(vram).cache(),
                    others,
                ),
            if is_jump(new_pos.x - old(self).position().x, new_pos.y - old(self).position().y) {
                final(self).filled_from(old(self), old(vram).cache(), final(vram).cache(), new_pos)
            } else {
                final(self).scrolled_from(
                    old(self),
                    old(vram).cache(),
                    final(vram).cache(),
                    new_pos,
                )
            },
            backed_by(old(self).grid().cells(), old(vram).cache()) ==> {
                &&& backed_by(final(self).grid().cells(), final(vram).cache())
                &&& if is_jump(
                    new_pos.x - old(self).position().x,
                    new_pos.y - old(self).position().y,
                ) {
                    final(self).fill_shown(
                        old(self),
                        old(vram).cache(),
                        final(vram).cache(),
                        new_pos,
                    )
                } else {
                    final(self).scroll_shown(
                        old(self),
                        old(vram).cache(),
                        final(vram).cache(),
                        new_pos,
                    )
                }
            },
            exists|got: Seq<(TileSetReference, TileSetting)>| #[trigger]
                fetched_for(
                    old(self).fetch(),
                    old(self).fetches_of_move(new_pos),
                    got,
                ) && final(self).grid().state(final(vram)) == set_cells(
                    old(self).grid().state(old(vram)),
                    old(vram).arena(),
                    cells_of(
                        old(self).fetches_of_move(new_pos),
                        final(self).origin().x as int,
                        final(self).origin().y as int,
                    ),
                    got,
                ),
    {
        let old_pos = self.current_pos;
        let difference = Vector2D::new(new_pos.x - old_pos.x, new_pos.y - old_pos.y);
        if difference.x > JUMP || difference.x < -JUMP || difference.y > JUMP || difference.y
            < -JUMP {
            self.init(vram, new_pos);
            proof {
                let coords = fill_coords(new_pos.x as int, new_pos.y as int);
                let got = choose|got: Seq<(TileSetReference, TileSetting)>| #[trigger]
                    fetched_for(old(self).fetch(), coords, got) && self.grid().state(vram)
                        == set_cells(
                        old(self).grid().state(old(vram)),
                        old(vram).arena(),
                        cells_of(
                            coords,
                            floor_div(new_pos.x as int, 8),
                            floor_div(new_pos.y as int, 8),
                        ),
                        got,
                    );
                assert(old(self).fetches_of_move(new_pos) == coords);
                assert(fetched_for(old(self).fetch(), old(self).fetches_of_move(new_pos), got));
            }
            return ;
        }
        let ghost fetch = self.fetch();
        let ghost cells = self.grid().cells();
        let ghost cache = vram.cache();
        let ghost ox = self.origin().x as int;
        let ghost oy = self.origin().y as int;
        let ghost start = self.grid().state(vram);
        let ghost arena = vram.arena();
        let ghost backed = backed_by(cells, cache);
        proof {
            lemma_floor_div_bounds(new_pos.x as int, 8);
            lemma_floor_div_bounds(new_pos.y as int, 8);
        }
        self.current_pos = new_pos;
        let new_tile_x = div_floor(new_pos.x, 8);
        let new_tile_y = div_floor(new_pos.y, 8);
        let (column, column_len) = match exposed_line(old_pos.x, new_pos.x, RIGHT_EDGE) {
            Some(line) => (line, COLUMN_TILES),
            None => (new_tile_x, 0),
        };
        let (row, row_len) = match exposed_line(old_pos.y, new_pos.y, BOTTOM_EDGE) {
            Some(line) => (line, ROW_TILES),
            None => (new_tile_y, 0),
        };
        let top = new_tile_y - 1;
        let left = new_tile_x - 1;
        let ghost first = run_coords(column as int, top as int, column_len as int, false);
        let ghost more = run_coords(left as int, row as int, row_len as int, true);
        proof {
            if column_len == 0 {
                assert(first =~= Seq::empty());
            }
            if row_len == 0 {
                assert(more =~= Seq::empty());
            }
            assert(first + more =~= old(self).fetches_of_move(new_pos));
            assert(self.grid().state(vram) == start);
            lemma_settable_prefix(fetch, start, arena, first, more, ox, oy);
        }
        let first_got = self.refresh_run(vram, column, top, column_len, false);
        let ghost between = *self;
        let ghost state_between = self.grid().state(vram);
        let ghost cache_between = vram.cache();
        let ghost cells_between = self.grid().cells();
        proof {
            lemma_settable_after(fetch, start, arena, first, more, ox, oy, first_got@);
            assert(more + Seq::<(int, int)>::empty() =~= more);
            lemma_settable_prefix(
                fetch,
                state_between,
                arena,
                more,
                Seq::<(int, int)>::empty(),
                ox,
                oy,
            );
        }
        let more_got = self.refresh_run(vram, left, row, row_len, true);
        let ghost moved = *self;
        let ghost cells_moved = self.grid().cells();
        let ghost state_moved = self.grid().state(vram);
        proof {
            lemma_batch_grows(
                fetch,
                start,
                arena,
                ox,
                oy,
                first,
                first_got@,
                more,
                more_got@,
                state_between,
                state_moved,
            );
        }
        proof {
            if backed {
            assert forall|j: int| 0 <= j < column_len implies #[trigger] self.reflects(
                vram.cache(),
                column as int,
                top + j,
            ) by {
                let c = between.cell_of(column as int, top + j);
                assert(run_at(column as int, j, false) == column);
                assert(run_at(top as int, j, true) == top + j);
                assert(between.reflects(cache_between, column as int, top + j));
                if between.covers(c, left as int, row as int, row_len as int, true) {
                    let i = column - left;
                    assert(row_len == 32);
                    assert(top + j == row);
                    assert(0 <= i < 32);
                    assert(run_at(left as int, i, true) == column);
                    assert(run_at(row as int, i, false) == row);
                    assert(self.reflects(vram.cache(), left + i, row as int));
                } else {
                    let r = choose|r: (TileSetReference, TileSetting)| #[trigger]
                        fetch.ensures(
                            (Vector2D { x: (column as int) as i32, y: (top + j) as i32 },),
                            r,
                        ) && shows(cache_between, cells_between[c], r.0, r.1);
                    assert(shows(vram.cache(), cells_between[c], r.0, r.1));
                }
            }
            assert forall|j: int| 0 <= j < row_len implies #[trigger] self.reflects(
                vram.cache(),
                left + j,
                row as int,
            ) by {
                assert(run_at(left as int, j, true) == left + j);
                assert(run_at(row as int, j, false) == row);
            }
            assert forall|i: int, t: TileSetReference, s: TileSetting|
                0 <= i < 1024 && !between.covers(
                    i,
                    column as int,
                    top as int,
                    column_len as int,
                    false,
                ) && !between.covers(i, left as int, row as int, row_len as int, true)
                    && #[trigger] shows(cache, cells[i], t, s) implies shows(
                vram.cache(),
                cells[i],
                t,
                s,
            ) by {
                assert(shows(cache_between, cells[i], t, s));
                assert(cells_between[i] == cells[i]);
            }
            }
            assert forall|i: int| 0 <= i < 1024 implies !between.covers(
                i,
                column as int,
                top as int,
                0,
                false,
            ) && !between.covers(i, left as int, row as int, 0, true) by {
                lemma_run_cells(column as int, top as int, false, ox, oy, 0, 0, i);
                lemma_run_cells(left as int, row as int, true, ox, oy, 0, 0, i);
            }
        }
        let current_scroll = self.map.map().get_scroll_pos();
        let new_scroll = Vector2D::new(
            wrap_to(current_scroll.x as i32 + difference.x, 32 * 8),
            wrap_to(current_scroll.y as i32 + difference.y, 32 * 8),
        );
        self.map.map_mut().set_scroll_pos(new_scroll);
        proof {
            assert(self.grid().cells() == cells_moved);
            assert(self.origin() == moved.origin());
            assert(self.grid().state(vram) == state_moved);
            assert(fetched_for(fetch, old(self).fetches_of_move(new_pos), first_got@ + more_got@));
            if backed {
            assert forall|j: int| 0 <= j < column_len implies #[trigger] self.reflects(
                vram.cache(),
                column as int,
                top + j,
            ) by {
                assert(moved.reflects(vram.cache(), column as int, top + j));
            }
            assert forall|j: int| 0 <= j < row_len implies #[trigger] self.reflects(
                vram.cache(),
                left + j,
                row as int,
            ) by {
                assert(moved.reflects(vram.cache(), left + j, row as int));
            }
            }
        }
    }

    /// Fills the window anew for a view at `pos` as `init` does, but tests
    /// before each tile is set whether what was fetched for it can be set,
    /// and stops where it cannot. Hands back nothing if the whole window was
    /// filled, and else the place, in the order of fetching, of the tile
    /// that could not be set. The view is at `pos` and the grid's first cell
    /// stands for the tile under the view's corner in either case; the grid
    /// is scrolled only if the whole window was filled.
    pub fn try_init(&mut self, vram: &mut VRamManager<'_>, pos: Vector2D<i32>) -> (stopped: Option<
        usize,
    >)
        requires
            old(self).wf(),
            old(vram).wf(),
            fetch_total(old(self).fetch()),
            pos.x <= i32::MAX - WIDTH,
            pos.y <= i32::MAX - HEIGHT,
        ensures
            final(self).wf(),
            final(vram).wf(),
            final(self).fetch() == old(self).fetch(),
            final(self).loan().layer() == old(self).loan().layer(),
            final(self).grid().layer() == old(self).grid().layer(),
            final(self).grid().block() == old(self).grid().block(),
            final(self).grid().drawn_at() == old(self).grid().drawn_at(),
            old(self).grid().is_dirty() ==> final(self).grid().is_dirty(),
            final(vram).arena() == old(vram).arena(),
            final(self).position() == pos,
            final(self).origin().x == floor_div(pos.x as int, 8),
            final(self).origin().y == floor_div(pos.y as int, 8),
            match stopped {
                None => {
                    &&& final(self).grid().scroll_x() == wrap(pos.x as int, 8)
                    &&& final(self).grid().scroll_y() == wrap(pos.y as int, 8)
                    &&& set_all(
                        old(self).fetch(),
                        old(self).grid().state(old(vram)),
                        old(vram).arena(),
                        fill_coords(pos.x as int, pos.y as int),
                        floor_div(pos.x as int, 8),
                        floor_div(pos.y as int, 8),
                        final(self).grid().state(final(vram)),
                    )
                },
                Some(k) => {
                    &&& final(self).grid().scroll_x() == old(self).grid().scroll_x()
                    &&& final(self).grid().scroll_y() == old(self).grid().scroll_y()
                    &&& stopped_at(
                        old(self).fetch(),
                        old(self).grid().state(old(vram)),
                        old(vram).arena(),
                        fill_coords(pos.x as int, pos.y as int),
                        floor_div(pos.x as int, 8),
                        floor_div(pos.y as int, 8),
                        k as int,
                        final(self).grid().state(final(vram)),
                    )
                },
            },
    {
        let ghost start = self.grid().state(vram);
        proof {
            lemma_fill_size(pos.x as int, pos.y as int);
            lemma_floor_div_bounds(pos.x as int, 8);
            lemma_floor_div_bounds(pos.y as int, 8);
            lemma_ceil_div_bounds(pos.x + WIDTH, 8);
            lemma_ceil_div_bounds(pos.y + HEIGHT, 8);
        }
        self.current_pos = pos;
        let x_start = div_floor(pos.x, 8);
        let y_start = div_floor(pos.y, 8);
        let x_end = div_ceil(pos.x + WIDTH, 8) + 1;
        let y_end = div_ceil(pos.y + HEIGHT, 8) + 1;
        self.offset = Vector2D::new(x_start, y_start);
        let width = x_end - x_start;
        let height = y_end - y_start;
        proof {
            assert(self.grid().state(vram) == start);
            assert(block_coords(
                x_start as int,
                y_start as int,
                width as int,
                width as int * height as int,
            ) =~= fill_coords(pos.x as int, pos.y as int));
            assert(0 <= width * height <= 704) by (nonlinear_arith)
                requires
                    31 <= width <= 32,
                    21 <= height <= 22,
            ;
        }
        let (done, got) = self.try_block(vram, x_start, y_start, width, width * height);
        if done < width * height {
            return Some(done as usize);
        }
        let ghost state_done = self.grid().state(vram);
        let scroll = Vector2D::new(
            wrap_to(pos.x - x_start * 8, 32 * 8),
            wrap_to(pos.y - y_start * 8, 32 * 8),
        );
        self.map.map_mut().set_scroll_pos(scroll);
        proof {
            assert(self.grid().state(vram) == state_done);
            assert(fetched_for(self.fetch(), fill_coords(pos.x as int, pos.y as int), got@));
        }
        None
    }

    /// Moves the view to `new_pos` as `set_pos` does, but tests before each
    /// tile is set whether what was fetched for it can be set, and stops
    /// where it cannot. Hands back nothing if every tile of the move was
    /// set, and else the place, in the order of fetching, of the tile that
    /// could not be set. The view is at `new_pos` in either case; the grid
    /// is scrolled only if every tile was set.
    pub fn try_set_pos(&mut self, vram: &mut VRamManager<'_>, new_pos: Vector2D<i32>) -> (stopped:
        Option<usize>)
        requires
            old(self).wf(),
            old(vram).wf(),
            fetch_total(old(self).fetch()),
            i32::MIN < new_pos.x - old(self).position().x <= i32::MAX,
            i32::MIN < new_pos.y - old(self).position().y <= i32::MAX,
            is_jump(new_pos.x - old(self).position().x, new_pos.y - old(self).position().y) ==> {
                &&& new_pos.x <= i32::MAX - WIDTH
                &&& new_pos.y <= i32::MAX - HEIGHT
            },
        ensures
            final(self).wf(),
            final(vram).wf(),
            final(self).fetch() == old(self).fetch(),
            final(self).loan().layer() == old(self).loan().layer(),
            final(self).grid().layer() == old(self).grid().layer(),
            final(self).grid().block() == old(self).grid().block(),
            final(self).grid().drawn_at() == old(self).grid().drawn_at(),
            old(self).grid().is_dirty() ==> final(self).grid().is_dirty(),
            final(vram).arena() == old(vram).arena(),
            final(self).position() == new_pos,
            final(self).origin().x == old(self).origin_of_move(new_pos).0,
            final(self).origin().y == old(self).origin_of_move(new_pos).1,
            match stopped {
                None => {
                    &&& final(self).grid().scroll_x() == old(self).scroll_of_move(new_pos).0
                    &&& final(self).grid().scroll_y() == old(self).scroll_of_move(new_pos).1
                    &&& set_all(
                        old(self).fetch(),
                        old(self).grid().state(old(vram)),
                        old(vram).arena(),
                        old(self).fetches_of_move(new_pos),
                        old(self).origin_of_move(new_pos).0,
                        old(self).origin_of_move(new_pos).1,
                        final(self).grid().state(final(vram)),
                    )
                },
                Some(k) => {
                    &&& final(self).grid().scroll_x() == old(self).grid().scroll_x()
                    &&& final(self).grid().scroll_y() == old(self).grid().scroll_y()
                    &&& stopped_at(
                        old(self).fetch(),
                        old(self).grid().state(old(vram)),
                        old(vram).arena(),
                        old(self).fetches_of_move(new_pos),
                        old(self).origin_of_move(new_pos).0,
                        old(self).origin_of_move(new_pos).1,
                        k as int,
                        final(self).grid().state(final(vram)),
                    )
                },
            },
    {
        let old_pos = self.current_pos;
        let difference = Vector2D::new(new_pos.x - old_pos.x, new_pos.y - old_pos.y);
        if difference.x > JUMP || difference.x < -JUMP || difference.y > JUMP || difference.y
            < -JUMP {
            return self.try_init(vram, new_pos);
        }
        let ghost fetch = self.fetch();
        let ghost ox = self.origin().x as int;
        let ghost oy = self.origin().y as int;
        let ghost start = self.grid().state(vram);
        let ghost arena = vram.arena();
        let ghost all = self.fetches_of_move(new_pos);
        proof {
            lemma_floor_div_bounds(new_pos.x as int, 8);
            lemma_floor_div_bounds(new_pos.y as int, 8);
        }
        self.current_pos = new_pos;
        let new_tile_x = div_floor(new_pos.x, 8);
        let new_tile_y = div_floor(new_pos.y, 8);
        let (column, column_len) = match exposed_line(old_pos.x, new_pos.x, RIGHT_EDGE) {
            Some(line) => (line, COLUMN_TILES),
            None => (new_tile_x, 0),
        };
        let (row, row_len) = match exposed_line(old_pos.y, new_pos.y, BOTTOM_EDGE) {
            Some(line) => (line, ROW_TILES),
            None => (new_tile_y, 0),
        };
        let top = new_tile_y - 1;
        let left = new_tile_x - 1;
        let ghost first = run_coords(column as int, top as int, column_len as int, false);
        let ghost more = run_coords(left as int, row as int, row_len as int, true);
        proof {
            assert(first + more =~= all);
            assert(block_coords(column as int, top as int, 1, column_len as int) =~= first);
            assert(block_coords(left as int, row as int, 32, row_len as int) =~= more);
            assert(self.grid().state(vram) == start);
        }
        let (first_done, first_got) = self.try_block(vram, column, top, 1, column_len);
        if first_done < column_len {
            proof {
                assert(all.take(first_done + 1) =~= first.take(first_done + 1));
                assert(all.take(first_done as int) =~= first.take(first_done as int));
                assert(stopped_with(
                    fetch,
                    start,
                    arena,
                    all,
                    ox,
                    oy,
                    first_done as int,
                    self.grid().state(vram),
                    first_got@,
                ));
            }
            return Some(first_done as usize);
        }
        let ghost between = self.grid().state(vram);
        let (more_done, more_got) = self.try_block(vram, left, row, 32, row_len);
        if more_done < row_len {
            proof {
                reveal(fetched_for);
                let k = column_len + more_done;
                let part = more.take(more_done + 1);
                let got = first_got@ + more_got@;
                lemma_fetched_append(fetch, first, first_got@, part, more_got@);
                assert(all.take(k + 1) =~= first + part);
                assert(all.take(k as int) =~= first + more.take(more_done as int));
                assert(got.drop_last() =~= first_got@ + more_got@.drop_last());
                assert(got.last() == more_got@.last());
                assert(all[k as int] == more[more_done as int]);
                lemma_set_cells_append(
                    start,
                    arena,
                    cells_of(first, ox, oy),
                    first_got@,
                    cells_of(more.take(more_done as int), ox, oy),
                    more_got@.drop_last(),
                );
                assert(cells_of(first + more.take(more_done as int), ox, oy) =~= cells_of(
                    first,
                    ox,
                    oy,
                ) + cells_of(more.take(more_done as int), ox, oy));
                assert(stopped_with(
                    fetch,
                    start,
                    arena,
                    all,
                    ox,
                    oy,
                    k as int,
                    self.grid().state(vram),
                    got,
                ));
            }
            return Some((column_len + more_done) as usize);
        }
        let ghost moved = self.grid().state(vram);
        proof {
            lemma_batch_grows(
                fetch,
                start,
                arena,
                ox,
                oy,
                first,
                first_got@,
                more,
                more_got@,
                between,
                moved,
            );
        }
        let current_scroll = self.map.map().get_scroll_pos();
        let new_scroll = Vector2D::new(
            wrap_to(current_scroll.x as i32 + difference.x, 32 * 8),
            wrap_to(current_scroll.y as i32 + difference.y, 32 * 8),
        );
        self.map.map_mut().set_scroll_pos(new_scroll);
        proof {
            assert(self.grid().state(vram) == moved);
            assert(fetched_for(fetch, all, first_got@ + more_got@));
        }
        None
    }

    /// The display-control value that shows the window's layer.
    pub fn show(&mut self, mode: u16) -> (new_mode: u16)
        requires
            old(self).wf(),
        ensures
            new_mode == mode | old(self).grid().enable_bit(),
            final(self).grid() == old(self).grid(),
            final(self).fetch() == old(self).fetch(),
            final(self).position() == old(self).position(),
            final(self).origin() == old(self).origin(),
            final(self).loan().layer() == old(self).loan().layer(),
    {
        let map = self.map.map_mut();
        map.show(mode)
    }

    /// The display-control value that hides the window's layer.
    pub fn conceal(&mut self, mode: u16) -> (new_mode: u16)
        requires
            old(self).wf(),
        ensures
            new_mode == mode & !old(self).grid().enable_bit(),
            final(self).grid() == old(self).grid(),
            final(self).fetch() == old(self).fetch(),
            final(self).position() == old(self).position(),
            final(self).origin() == old(self).origin(),
            final(self).loan().layer() == old(self).loan().layer(),
    {
        let map = self.map.map_mut();
        map.conceal(mode)
    }

    /// Brings the hardware up to date with the window's grid.
    pub fn commit(&mut self) -> (stores: Vec<Store<u16>>)
        ensures
            stores@ == old(self).grid().commit_stores(),
            !final(self).grid().is_dirty(),
            final(self).grid().cells() == old(self).grid().cells(),
            final(self).grid().same_registers(&old(self).grid()),
            final(self).fetch() == old(self).fetch(),
            final(self).position() == old(self).position(),
            final(self).origin() == old(self).origin(),
            final(self).loan().layer() == old(self).loan().layer(),
    {
        let map = self.map.map_mut();
        map.commit()
    }

    /// The logical pixel position of the view's top left corner.
    pub fn pos(&self) -> (pos: Vector2D<i32>)
        ensures
            pos == self.position(),
    {
        Vector2D::new(self.current_pos.x, self.current_pos.y)
    }

    /// The logical tile that the grid's first cell stands for.
    pub fn offset(&self) -> (offset: Vector2D<i32>)
        ensures
            offset == self.origin(),
    {
        Vector2D::new(self.offset.x, self.offset.y)
    }

    /// The wrapping grid behind the window.
    pub fn map(&self) -> (map: &RegularMap)
        ensures
            *map == self.grid(),
    {
        self.map.map()
    }

    /// Ends the window and hands back the layer it was given.
    pub fn into_loan(self) -> (loan: MapLoan<RegularMap>)
        ensures
            loan == self.loan(),
    {
        self.map
    }
}

} // verus!
