//! A whole tick of the sand rules on a model of the tile map.
//!
//! The map is a finite map from cells to tile ids; a cell outside its
//! domain is empty. One step of the tick reads the eight neighbours of a
//! sand cell, asks `sand_target` (what `TileFG::sand_move` returns) where
//! the sand goes, writes the tile of the sand cell into that target and
//! empties the sand cell. A cell whose neighbours leave the `i32` range is
//! skipped. A tick runs the step over the listed sand cells in order, each
//! with its own rotation.
use vstd::prelude::*;
use crate::tilefg::{
    in_grid, lemma_move_options_are_neighbors, lemma_sand_moves_into_empty, neighbor,
    sand_target, Cell, Direction, EMPTY_TILE,
};

verus! {

broadcast use vstd::set::group_set_axioms;

/// The tile id at `c`: its entry in `g`, or the empty tile.
pub open spec fn tile_at(g: Map<Cell, i64>, c: Cell) -> i64 {
    if g.dom().contains(c) {
        g[c]
    } else {
        EMPTY_TILE
    }
}

/// `g` with tile `id` written at `c`; writing the empty tile clears `c`.
pub open spec fn set_tile(g: Map<Cell, i64>, c: Cell, id: i64) -> Map<Cell, i64> {
    if id == EMPTY_TILE {
        g.remove(c)
    } else {
        g.insert(c, id)
    }
}

/// A tile map: finitely many cells, none of which holds the empty id.
pub open spec fn wf_tiles(g: Map<Cell, i64>) -> bool {
    &&& g.dom().finite()
    &&& forall|c: Cell| g.dom().contains(c) ==> #[trigger] g[c] != EMPTY_TILE
}

/// The tile ids of the eight neighbours of `c`, clockwise from the top.
pub open spec fn ring_ids(g: Map<Cell, i64>, c: Cell) -> Seq<i64> {
    Seq::new(8, |k: int| tile_at(g, neighbor(c, k)))
}

/// One step of the sand rules for the sand at `s`, its ring rotated by `d`.
pub open spec fn sand_step(g: Map<Cell, i64>, s: Cell, d: Direction) -> Map<Cell, i64> {
    if !in_grid(s) {
        g
    } else {
        match sand_target(s, d, ring_ids(g, s)) {
            Some(t) => set_tile(set_tile(g, t, tile_at(g, s)), s, EMPTY_TILE),
            None => g,
        }
    }
}

/// A whole tick: the step for `sand[0]` rotated by `dirs[0]`, then for
/// `sand[1]` rotated by `dirs[1]`, and so on.
pub open spec fn sand_tick(g: Map<Cell, i64>, sand: Seq<Cell>, dirs: Seq<Direction>) -> Map<
    Cell,
    i64,
>
    decreases sand.len(),
{
    if sand.len() == 0 || dirs.len() == 0 {
        g
    } else {
        sand_tick(sand_step(g, sand[0], dirs[0]), sand.drop_first(), dirs.drop_first())
    }
}

/// The cells that hold tile `t`.
pub open spec fn cells_with(g: Map<Cell, i64>, t: i64) -> Set<Cell> {
    g.dom().filter(|c: Cell| g[c] == t)
}

/// The number of cells that hold tile `t`.
pub open spec fn tile_count(g: Map<Cell, i64>, t: i64) -> nat {
    cells_with(g, t).len()
}

/// `c` is one of the eight neighbours of `c0`.
pub open spec fn is_neighbor(c0: Cell, c: Cell) -> bool {
    exists|k: int| 0 <= k < 8 && #[trigger] neighbor(c0, k) == c
}

/// Where a step moves sand, it moves it into an empty neighbour.
proof fn lemma_step_target(g: Map<Cell, i64>, s: Cell, d: Direction)
    requires
        wf_tiles(g),
        in_grid(s),
    ensures
        sand_target(s, d, ring_ids(g, s)) matches Some(t) ==> t != s && is_neighbor(s, t)
            && !g.dom().contains(t),
{
    lemma_sand_moves_into_empty(s, d, ring_ids(g, s));
    lemma_move_options_are_neighbors(s);
    if let Some(t) = sand_target(s, d, ring_ids(g, s)) {
        let j = choose|j: int|
            0 <= j < 8 && t == #[trigger] neighbor(s, j) && ring_ids(g, s)[j] == EMPTY_TILE;
        assert(neighbor(s, j) != s);
        assert(ring_ids(g, s)[j] == tile_at(g, neighbor(s, j)));
        assert(tile_at(g, neighbor(s, j)) == EMPTY_TILE);
        assert(is_neighbor(s, t));
    }
}

/// One step keeps a tile map a tile map and keeps the number of cells
/// holding each tile.
pub proof fn lemma_step_conserves_tiles(g: Map<Cell, i64>, s: Cell, d: Direction)
    requires
        wf_tiles(g),
    ensures
        wf_tiles(sand_step(g, s, d)),
        forall|t: i64|
            t != EMPTY_TILE ==> #[trigger] tile_count(sand_step(g, s, d), t) == tile_count(g, t),
{
    if in_grid(s) {
        lemma_step_target(g, s, d);
        if let Some(target) = sand_target(s, d, ring_ids(g, s)) {
            let v = tile_at(g, s);
            let g2 = sand_step(g, s, d);
            if v == EMPTY_TILE {
                assert(g2 =~= g);
            } else {
                assert(g2 =~= g.insert(target, v).remove(s));
                assert(g2.dom() =~= g.dom().insert(target).remove(s));
                assert forall|t: i64| t != EMPTY_TILE implies #[trigger] tile_count(g2, t)
                    == tile_count(g, t) by {
                    let before = cells_with(g, t);
                    let after = cells_with(g2, t);
                    assert(before.finite()) by {
                        assert(before =~= g.dom().intersect(Set::new(|c: Cell| g[c] == t)));
                    }
                    if v == t {
                        assert(after =~= before.insert(target).remove(s));
                        assert(before.contains(s));
                        assert(!before.contains(target));
                    } else {
                        assert(after =~= before);
                    }
                }
            }
        }
    }
}

/// A whole tick moves tiles but never creates or destroys one: for every
/// tile id, as many cells hold it after the tick as before, whatever cells
/// are listed and however each is rotated.
pub proof fn lemma_tick_conserves_tiles(g: Map<Cell, i64>, sand: Seq<Cell>, dirs: Seq<Direction>)
    requires
        wf_tiles(g),
    ensures
        wf_tiles(sand_tick(g, sand, dirs)),
        forall|t: i64|
            t != EMPTY_TILE ==> #[trigger] tile_count(sand_tick(g, sand, dirs), t) == tile_count(
                g,
                t,
            ),
    decreases sand.len(),
{
    if sand.len() == 0 || dirs.len() == 0 {
    } else {
        let g1 = sand_step(g, sand[0], dirs[0]);
        lemma_step_conserves_tiles(g, sand[0], dirs[0]);
        lemma_tick_conserves_tiles(g1, sand.drop_first(), dirs.drop_first());
        assert forall|t: i64| t != EMPTY_TILE implies #[trigger] tile_count(
            sand_tick(g, sand, dirs),
            t,
        ) == tile_count(g, t) by {
            assert(tile_count(g1, t) == tile_count(g, t));
        }
    }
}

/// While a tick runs: the cells still to be processed hold the tiles they
/// held at the start, and every tile stands where some cell held the same
/// id at the start, or next to that cell.
pub open spec fn tick_progress(g0: Map<Cell, i64>, g: Map<Cell, i64>, rest: Seq<Cell>) -> bool {
    &&& forall|i: int|
        0 <= i < rest.len() ==> g.dom().contains(#[trigger] rest[i]) && g0.dom().contains(
            rest[i],
        ) && g[rest[i]] == g0[rest[i]]
    &&& forall|c: Cell|
        #[trigger] g.dom().contains(c) ==> exists|c0: Cell|
            #[trigger] g0.dom().contains(c0) && g0[c0] == g[c] && (c0 == c || is_neighbor(c0, c))
}

/// One step of a tick on the next listed cell keeps `tick_progress`.
proof fn lemma_step_progress(
    g0: Map<Cell, i64>,
    g: Map<Cell, i64>,
    rest: Seq<Cell>,
    d: Direction,
)
    requires
        rest.len() > 0,
        rest.no_duplicates(),
        wf_tiles(g),
        tick_progress(g0, g, rest),
    ensures
        tick_progress(g0, sand_step(g, rest[0], d), rest.drop_first()),
{
    let s = rest[0];
    let g2 = sand_step(g, s, d);
    let rest2 = rest.drop_first();
    assert(g.dom().contains(rest[0]));
    if in_grid(s) {
        lemma_step_target(g, s, d);
        if let Some(target) = sand_target(s, d, ring_ids(g, s)) {
            let v = tile_at(g, s);
            assert(v == g0[s]);
            if v == EMPTY_TILE {
                assert(g2 =~= g.remove(s));
            } else {
                assert(g2 =~= g.insert(target, v).remove(s));
            }
            assert forall|i: int| 0 <= i < rest2.len() implies g2.dom().contains(
                #[trigger] rest2[i],
            ) && g0.dom().contains(rest2[i]) && g2[rest2[i]] == g0[rest2[i]] by {
                assert(rest2[i] == rest[i + 1]);
                assert(rest[i + 1] != rest[0]);
                assert(g.dom().contains(rest[i + 1]));
            }
            assert forall|c: Cell| #[trigger] g2.dom().contains(c) implies exists|c0: Cell|
                #[trigger] g0.dom().contains(c0) && g0[c0] == g2[c] && (c0 == c || is_neighbor(c0, c)) by {
                if c == target {
                    assert(g0.dom().contains(s) && g0[s] == g2[c] && is_neighbor(s, c));
                } else {
                    assert(g.dom().contains(c) && g2[c] == g[c]);
                }
            }
        } else {
            assert forall|i: int| 0 <= i < rest2.len() implies g2.dom().contains(
                #[trigger] rest2[i],
            ) && g0.dom().contains(rest2[i]) && g2[rest2[i]] == g0[rest2[i]] by {
                assert(rest2[i] == rest[i + 1]);
            }
        }
    } else {
        assert forall|i: int| 0 <= i < rest2.len() implies g2.dom().contains(
            #[trigger] rest2[i],
        ) && g0.dom().contains(rest2[i]) && g2[rest2[i]] == g0[rest2[i]] by {
            assert(rest2[i] == rest[i + 1]);
        }
    }
}

/// The rest of a tick keeps `tick_progress`.
proof fn lemma_tick_progress(
    g0: Map<Cell, i64>,
    g: Map<Cell, i64>,
    rest: Seq<Cell>,
    dirs: Seq<Direction>,
)
    requires
        rest.no_duplicates(),
        wf_tiles(g),
        tick_progress(g0, g, rest),
    ensures
        tick_progress(g0, sand_tick(g, rest, dirs), Seq::<Cell>::empty()),
    decreases rest.len(),
{
    if rest.len() == 0 || dirs.len() == 0 {
    } else {
        lemma_step_progress(g0, g, rest, dirs[0]);
        lemma_step_conserves_tiles(g, rest[0], dirs[0]);
        let rest2 = rest.drop_first();
        assert(rest2.no_duplicates()) by {
            assert forall|i: int, j: int|
                0 <= i < rest2.len() && 0 <= j < rest2.len() && i != j implies rest2[i]
                != rest2[j] by {
                assert(rest2[i] == rest[i + 1] && rest2[j] == rest[j + 1]);
            }
        }
        lemma_tick_progress(g0, sand_step(g, rest[0], dirs[0]), rest2, dirs.drop_first());
    }
}

/// A tile moves at most one cell in a tick: on a tile map whose listed
/// cells are all different and each hold a tile when the tick starts (as the sand cells
/// do right after they are read from the map), every tile after the tick
/// stands where a cell held the same id before the tick, or next to that
/// cell. Where every tile carries its own id, this says that each tile
/// either stays or moves to one of its eight neighbours.
pub proof fn lemma_tick_moves_tiles_at_most_one_cell(
    g: Map<Cell, i64>,
    sand: Seq<Cell>,
    dirs: Seq<Direction>,
)
    requires
        wf_tiles(g),
        sand.no_duplicates(),
        forall|i: int| 0 <= i < sand.len() ==> g.dom().contains(#[trigger] sand[i]),
    ensures
        forall|c: Cell|
            #[trigger] sand_tick(g, sand, dirs).dom().contains(c) ==> exists|c0: Cell|
                #[trigger] g.dom().contains(c0) && g[c0] == sand_tick(g, sand, dirs)[c] && (c0 == c
                    || is_neighbor(c0, c)),
{
    assert forall|c: Cell| #[trigger] g.dom().contains(c) implies exists|c0: Cell|
        #[trigger] g.dom().contains(c0) && g[c0] == g[c] && (c0 == c || is_neighbor(c0, c)) by {
        assert(g.dom().contains(c) && g[c] == g[c] && c == c);
    }
    assert(tick_progress(g, g, sand));
    lemma_tick_progress(g, g, sand, dirs);
}

} // verus!
