//! The foreground tile map: sand that falls towards the centre of the map.
//!
//! Every sand tile looks at its eight neighbours. The ring of neighbours is
//! rotated by the compass direction in which the tile lies as seen from the
//! origin of the map, so that "down" points back towards the origin, and the
//! tile then moves into the first empty one of: the tile straight down,
//! the tile down and to the left, the tile down and to the right (all three
//! taken in the rotated frame).
use vstd::prelude::*;
use crate::rotation::{copy_vec, rotate_left_by, rotated};

verus! {

/// The tile id of an empty cell.
pub const EMPTY_TILE: i64 = -1;

/// The tile id of sand.
pub const SAND_TILE: i64 = 4;

/// A tile coordinate on the map; `y` grows downwards.
#[derive(Clone, Copy, Debug, PartialEq, Eq, Structural)]
pub struct Cell {
    pub x: i32,
    pub y: i32,
}

/// The kinds of material a tile can hold.
#[derive(Clone, Copy, Debug, PartialEq, Eq, Structural)]
pub enum TileType {
    Obsidian,
    Sand,
    Lava,
}

/// The eight compass directions around a tile, clockwise from the top.
#[derive(Clone, Copy, Debug, PartialEq, Eq, Structural)]
pub enum Direction {
    Top,
    TopRight,
    Right,
    DownRight,
    Down,
    DownLeft,
    Left,
    TopLeft,
}

impl Direction {
    /// The number of the direction, counting clockwise from `Top` as 0.
    pub open spec fn ordinal(self) -> int {
        match self {
            Direction::Top => 0,
            Direction::TopRight => 1,
            Direction::Right => 2,
            Direction::DownRight => 3,
            Direction::Down => 4,
            Direction::DownLeft => 5,
            Direction::Left => 6,
            Direction::TopLeft => 7,
        }
    }

    /// The number of the direction, counting clockwise from `Top` as 0.
    pub fn index(&self) -> (r: i32)
        ensures
            r == self.ordinal(),
    {
        match self {
            Direction::Top => 0,
            Direction::TopRight => 1,
            Direction::Right => 2,
            Direction::DownRight => 3,
            Direction::Down => 4,
            Direction::DownLeft => 5,
            Direction::Left => 6,
            Direction::TopLeft => 7,
        }
    }
}

/// The horizontal step towards direction number `k`.
pub open spec fn dx(k: int) -> int {
    if k == 1 || k == 2 || k == 3 {
        1
    } else if k == 5 || k == 6 || k == 7 {
        -1
    } else {
        0
    }
}

/// The vertical step towards direction number `k` (`y` grows downwards).
pub open spec fn dy(k: int) -> int {
    if k == 7 || k == 0 || k == 1 {
        -1
    } else if k == 3 || k == 4 || k == 5 {
        1
    } else {
        0
    }
}

/// The cell next to `c` in direction number `k`.
pub open spec fn neighbor(c: Cell, k: int) -> Cell {
    Cell { x: (c.x + dx(k)) as i32, y: (c.y + dy(k)) as i32 }
}

/// A cell whose eight neighbours all have coordinates that fit in an `i32`.
pub open spec fn in_grid(c: Cell) -> bool {
    &&& i32::MIN < c.x < i32::MAX
    &&& i32::MIN < c.y < i32::MAX
}

/// The squared distance of a cell from the origin of the map.
pub open spec fn dist2(c: Cell) -> int {
    c.x * c.x + c.y * c.y
}

/// The absolute value of `v`.
pub open spec fn magnitude(v: int) -> int {
    if v < 0 {
        -v
    } else {
        v
    }
}

/// `2·(c · step k)`: twice the dot product of `c` with the step towards
/// direction number `k`.
pub open spec fn twice_dot(c: Cell, k: int) -> int {
    2 * (dx(k) * c.x + dy(k) * c.y)
}

/// `c` lies less than 45° away from the compass direction `d`: it makes an
/// acute angle with `d` and with both directions next to `d`.
pub open spec fn within_45(c: Cell, d: Direction) -> bool {
    let k = d.ordinal();
    &&& twice_dot(c, k) > 0
    &&& twice_dot(c, (k + 1) % 8) > 0
    &&& twice_dot(c, (k + 7) % 8) > 0
}

/// Neighbour number `j` of `c` in the ring rotated by `rotation`.
pub open spec fn rotated_neighbor(c: Cell, rotation: Direction, j: int) -> Cell {
    neighbor(c, (j + rotation.ordinal()) % 8)
}

/// Where sand at `c` moves when its ring is rotated by `rotation`, given
/// the tile ids `around` of its eight neighbours in compass order from the
/// top: into the rotated neighbour 4 (straight down) if it is empty, else
/// into rotated neighbour 5 if it is empty, else into rotated neighbour 3
/// if it is empty; otherwise the sand stays.
pub open spec fn sand_target(c: Cell, rotation: Direction, around: Seq<i64>) -> Option<Cell> {
    let k = rotation.ordinal();
    if around[(4 + k) % 8] == EMPTY_TILE {
        Some(rotated_neighbor(c, rotation, 4))
    } else if around[(5 + k) % 8] == EMPTY_TILE {
        Some(rotated_neighbor(c, rotation, 5))
    } else if around[(3 + k) % 8] == EMPTY_TILE {
        Some(rotated_neighbor(c, rotation, 3))
    } else {
        None
    }
}

/// The state of the foreground tile map: the sand and lava tiles it knows
/// of, their masses and whether the map is frozen.
pub struct TileFG {
    pub sand: Vec<Cell>,
    pub lava: Vec<Cell>,
    pub sand_mass: i32,
    pub lava_mass: i32,
    pub mass: i32,
    pub freezemap: bool,
}

impl TileFG {
    /// A map that knows of no sand and no lava, with every mass zero and
    /// not frozen.
    pub fn new() -> (r: TileFG)
        ensures
            r.sand@ == Seq::<Cell>::empty(),
            r.lava@ == Seq::<Cell>::empty(),
            r.sand_mass == 0,
            r.lava_mass == 0,
            r.mass == 0,
            !r.freezemap,
    {
        TileFG {
            sand: Vec::new(),
            lava: Vec::new(),
            sand_mass: 0,
            lava_mass: 0,
            mass: 0,
            freezemap: false,
        }
    }

    /// Records `sand_cells`, the cells that hold sand now, as the sand of
    /// the map.
    pub fn track_sand(&mut self, sand_cells: Vec<Cell>)
        ensures
            final(self).sand@ == sand_cells@,
            final(self).lava@ == old(self).lava@,
            final(self).sand_mass == old(self).sand_mass,
            final(self).lava_mass == old(self).lava_mass,
            final(self).mass == old(self).mass,
            final(self).freezemap == old(self).freezemap,
    {
        self.sand = sand_cells;
    }

    /// The eight neighbours of `cell`, clockwise from the one above it.
    pub fn move_options(&self, cell: &Cell) -> (r: Vec<Cell>)
        requires
            in_grid(*cell),
        ensures
            r.len() == 8,
            forall|k: int| 0 <= k < 8 ==> #[trigger] r@[k] == neighbor(*cell, k),
    {
        let x = cell.x;
        let y = cell.y;
        let r = vec![
            Cell { x: x, y: y - 1 },
            Cell { x: x + 1, y: y - 1 },
            Cell { x: x + 1, y: y },
            Cell { x: x + 1, y: y + 1 },
            Cell { x: x, y: y + 1 },
            Cell { x: x - 1, y: y + 1 },
            Cell { x: x - 1, y: y },
            Cell { x: x - 1, y: y - 1 },
        ];
        assert forall|k: int| 0 <= k < 8 implies #[trigger] r@[k] == neighbor(*cell, k) by {
            assert(0 <= k < 8 ==> k == 0 || k == 1 || k == 2 || k == 3 || k == 4 || k == 5 || k
                == 6 || k == 7);
        }
        r
    }

    /// The first eight tile ids of the ring `by` after it is rotated
    /// `*rotationfactor` places to the left; `by` is left rotated and
    /// `*rotationfactor` at zero.
    pub fn neighbors(&self, by: &mut Vec<i64>, rotationfactor: &mut i32) -> (r: Vec<i64>)
        requires
            *old(rotationfactor) >= 0,
            old(by).len() >= 8,
        ensures
            r@ == rotated(old(by)@, *old(rotationfactor) as int).take(8),
            final(by)@ == rotated(old(by)@, *old(rotationfactor) as int),
            *final(rotationfactor) == 0,
    {
        let turned = rotate_left_by(by, rotationfactor);
        let r = vec![
            turned[0],
            turned[1],
            turned[2],
            turned[3],
            turned[4],
            turned[5],
            turned[6],
            turned[7],
        ];
        assert(r@ =~= turned@.take(8));
        r
    }

    /// The cells `moveoptions` of the neighbour ring rotated
    /// `*rotationfactor` places to the left; `moveoptions` is left rotated
    /// and `*rotationfactor` at zero.
    pub fn relative_move(&self, moveoptions: &mut Vec<Cell>, rotationfactor: &mut i32) -> (r: Vec<
        Cell,
    >)
        requires
            *old(rotationfactor) >= 0,
            *old(rotationfactor) > 0 ==> old(moveoptions).len() > 0,
        ensures
            r@ == rotated(old(moveoptions)@, *old(rotationfactor) as int),
            final(moveoptions)@ == r@,
            *final(rotationfactor) == 0,
    {
        rotate_left_by(moveoptions, rotationfactor)
    }

    /// One step of the sand rules for the sand at `sand`, whose neighbour
    /// ring is rotated by `rotationfactor`: `around` holds the tile ids of
    /// its eight neighbours, clockwise from the one above it. Returns the
    /// cell the sand moves into, or `None` where it stays.
    pub fn sand_move(&self, sand: &Cell, rotationfactor: Direction, around: &Vec<i64>) -> (r:
        Option<Cell>)
        requires
            in_grid(*sand),
            around.len() == 8,
        ensures
            r == sand_target(*sand, rotationfactor, around@),
            around@[(rotationfactor.ordinal() + 4) % 8] == EMPTY_TILE ==> r == Some(
                neighbor(*sand, (rotationfactor.ordinal() + 4) % 8),
            ),
            around@[(rotationfactor.ordinal() + 4) % 8] != EMPTY_TILE && around@[(
            rotationfactor.ordinal() + 5) % 8] == EMPTY_TILE ==> r == Some(
                neighbor(*sand, (rotationfactor.ordinal() + 5) % 8),
            ),
            around@[(rotationfactor.ordinal() + 4) % 8] != EMPTY_TILE && around@[(
            rotationfactor.ordinal() + 5) % 8] != EMPTY_TILE && around@[(rotationfactor.ordinal()
                + 3) % 8] == EMPTY_TILE ==> r == Some(
                neighbor(*sand, (rotationfactor.ordinal() + 3) % 8),
            ),
            r is None <==> (around@[(rotationfactor.ordinal() + 4) % 8] != EMPTY_TILE && around@[(
            rotationfactor.ordinal() + 5) % 8] != EMPTY_TILE && around@[(rotationfactor.ordinal()
                + 3) % 8] != EMPTY_TILE),
            r matches Some(t) ==> exists|j: int|
                0 <= j < 8 && t == #[trigger] neighbor(*sand, j) && around@[j] == EMPTY_TILE,
    {
        let mut rawrf = rotationfactor.index();
        let mut by_ids = copy_vec(around);
        let by = self.neighbors(&mut by_ids, &mut rawrf);
        let mut options = self.move_options(sand);
        rawrf = rotationfactor.index();
        let moveoptions = self.relative_move(&mut options, &mut rawrf);
        let ghost k = rotationfactor.ordinal();
        assert((4 + k) % 8 == 4 + k || (4 + k) % 8 == k - 4);
        assert((5 + k) % 8 == 5 + k || (5 + k) % 8 == k - 3);
        assert((3 + k) % 8 == 3 + k || (3 + k) % 8 == k - 5);
        assert((k + 4) % 8 == (4 + k) % 8 && (k + 5) % 8 == (5 + k) % 8 && (k + 3) % 8 == (3
            + k) % 8);
        let r = if by[4] == EMPTY_TILE {
            Some(moveoptions[4])
        } else if by[5] == EMPTY_TILE {
            Some(moveoptions[5])
        } else if by[3] == EMPTY_TILE {
            Some(moveoptions[3])
        } else {
            None
        };
        proof {
            lemma_sand_choices(*sand, rotationfactor, around@);
        }
        r
    }
}



/// A step in direction `k` that makes `2·(step·c) + |step|²` at most
/// zero does not take `c` farther from the origin, and one that makes it
/// negative takes it strictly closer.
proof fn lemma_step_dist(c: Cell, k: int, a: int, b: int)
    requires
        in_grid(c),
        0 <= k < 8,
        a == dx(k),
        b == dy(k),
    ensures
        2 * (a * c.x + b * c.y) + a * a + b * b <= 0 ==> dist2(neighbor(c, k)) <= dist2(c),
        2 * (a * c.x + b * c.y) + a * a + b * b < 0 ==> dist2(neighbor(c, k)) < dist2(c),
{
    let x = c.x as int;
    let y = c.y as int;
    assert(neighbor(c, k).x == x + a && neighbor(c, k).y == y + b);
    assert((x + a) * (x + a) + (y + b) * (y + b) == x * x + y * y + 2 * (a * x + b * y) + a * a
        + b * b) by (nonlinear_arith);
}

/// The eight move options of a cell are its eight neighbours: each differs
/// from the cell by at most one in each coordinate and is not the cell
/// itself, no two are the same, and every such cell is one of them.
pub proof fn lemma_move_options_are_neighbors(c: Cell)
    requires
        in_grid(c),
    ensures
        forall|k: int|
            0 <= k < 8 ==> #[trigger] neighbor(c, k) != c && magnitude(neighbor(c, k).x - c.x)
                <= 1 && magnitude(neighbor(c, k).y - c.y) <= 1,
        forall|j: int, k: int|
            0 <= j < k < 8 ==> #[trigger] neighbor(c, j) != #[trigger] neighbor(c, k),
        forall|d: Cell|
            d != c && magnitude(d.x - c.x) <= 1 && magnitude(d.y - c.y) <= 1 ==> exists|k: int|
                0 <= k < 8 && #[trigger] neighbor(c, k) == d,
{
    assert forall|d: Cell|
        d != c && magnitude(d.x - c.x) <= 1 && magnitude(d.y - c.y) <= 1 implies exists|k: int|
        0 <= k < 8 && #[trigger] neighbor(c, k) == d by {
        let a = d.x - c.x;
        let b = d.y - c.y;
        let k: int = if a == 0 && b == -1 {
            0
        } else if a == 1 && b == -1 {
            1
        } else if a == 1 && b == 0 {
            2
        } else if a == 1 && b == 1 {
            3
        } else if a == 0 && b == 1 {
            4
        } else if a == -1 && b == 1 {
            5
        } else if a == -1 && b == 0 {
            6
        } else {
            7
        };
        assert(neighbor(c, k) == d);
    }
}

/// Sand only ever moves into one of its neighbours whose tile is empty.
pub proof fn lemma_sand_moves_into_empty(c: Cell, rotation: Direction, around: Seq<i64>)
    requires
        in_grid(c),
        around.len() == 8,
    ensures
        sand_target(c, rotation, around) matches Some(t) ==> exists|j: int|
            0 <= j < 8 && t == #[trigger] neighbor(c, j) && around[j] == EMPTY_TILE,
{
    let k = rotation.ordinal();
    if let Some(t) = sand_target(c, rotation, around) {
        if around[(4 + k) % 8] == EMPTY_TILE {
            assert(t == neighbor(c, (4 + k) % 8));
        } else if around[(5 + k) % 8] == EMPTY_TILE {
            assert(t == neighbor(c, (5 + k) % 8));
        } else {
            assert(t == neighbor(c, (3 + k) % 8));
        }
    }
}

/// The three cells that sand may move into, seen in the rotated frame:
/// rotated neighbour 4 ("down") is the neighbour opposite the rotation's
/// direction, and rotated neighbours 5 and 3 ("down-left" and
/// "down-right") are the neighbours opposite the two directions next to
/// the rotation's direction (clockwise and anticlockwise of it).
pub proof fn lemma_rotated_down_is_opposite(rotation: Direction)
    ensures
        dx((rotation.ordinal() + 4) % 8) == -dx(rotation.ordinal()),
        dy((rotation.ordinal() + 4) % 8) == -dy(rotation.ordinal()),
        dx((rotation.ordinal() + 5) % 8) == -dx((rotation.ordinal() + 1) % 8),
        dy((rotation.ordinal() + 5) % 8) == -dy((rotation.ordinal() + 1) % 8),
        dx((rotation.ordinal() + 3) % 8) == -dx((rotation.ordinal() + 7) % 8),
        dy((rotation.ordinal() + 3) % 8) == -dy((rotation.ordinal() + 7) % 8),
{
}

/// The order of the sand rules, for every rotation: sand falls straight
/// down when that cell is empty; when it is not, the sand slides down-left
/// if that cell is empty, whatever down-right holds; when both are taken it
/// slides down-right if that cell is empty; and it stays exactly when all
/// three cells are taken.
pub proof fn lemma_sand_choices(c: Cell, rotation: Direction, around: Seq<i64>)
    requires
        around.len() == 8,
    ensures
        around[(rotation.ordinal() + 4) % 8] == EMPTY_TILE ==> sand_target(c, rotation, around)
            == Some(neighbor(c, (rotation.ordinal() + 4) % 8)),
        around[(rotation.ordinal() + 4) % 8] != EMPTY_TILE && around[(rotation.ordinal() + 5) % 8]
            == EMPTY_TILE ==> sand_target(c, rotation, around) == Some(
            neighbor(c, (rotation.ordinal() + 5) % 8),
        ),
        around[(rotation.ordinal() + 4) % 8] != EMPTY_TILE && around[(rotation.ordinal() + 5) % 8]
            != EMPTY_TILE && around[(rotation.ordinal() + 3) % 8] == EMPTY_TILE ==> sand_target(
            c,
            rotation,
            around,
        ) == Some(neighbor(c, (rotation.ordinal() + 3) % 8)),
        sand_target(c, rotation, around) is None <==> (around[(rotation.ordinal() + 4) % 8]
            != EMPTY_TILE && around[(rotation.ordinal() + 5) % 8] != EMPTY_TILE && around[(
        rotation.ordinal() + 3) % 8] != EMPTY_TILE),
{
    let k = rotation.ordinal();
    assert((k + 4) % 8 == (4 + k) % 8 && (k + 5) % 8 == (5 + k) % 8 && (k + 3) % 8 == (3 + k)
        % 8);
}

/// Sand falls towards the origin of the map: when the ring of a cell is
/// rotated by a direction that lies less than 45° from the cell's own
/// direction as seen from the origin, the first choice of move (straight
/// down in the rotated frame) brings the sand strictly closer to the
/// origin, and neither of the other two choices takes it farther away; so
/// wherever the sand moves, it gets no farther from the origin, and
/// strictly closer whenever the cell straight down is empty.
pub proof fn lemma_sand_falls_toward_center(c: Cell, rotation: Direction, around: Seq<i64>)
    requires
        in_grid(c),
        within_45(c, rotation),
        around.len() == 8,
    ensures
        dist2(rotated_neighbor(c, rotation, 4)) < dist2(c),
        dist2(rotated_neighbor(c, rotation, 5)) <= dist2(c),
        dist2(rotated_neighbor(c, rotation, 3)) <= dist2(c),
        sand_target(c, rotation, around) matches Some(t) ==> dist2(t) <= dist2(c),
        around[(4 + rotation.ordinal()) % 8] == EMPTY_TILE ==> sand_target(c, rotation, around)
            == Some(rotated_neighbor(c, rotation, 4)),
{
    let k = rotation.ordinal();
    match rotation {
        Direction::Top => {
            assert((4 + k) % 8 == 4 && (5 + k) % 8 == 5 && (3 + k) % 8 == 3);
            assert((k + 1) % 8 == 1 && (k + 7) % 8 == 7);
            assert(twice_dot(c, 0) == 2 * (0 * c.x + -1 * c.y));
            assert(twice_dot(c, 1) == 2 * (1 * c.x + -1 * c.y));
            assert(twice_dot(c, 7) == 2 * (-1 * c.x + -1 * c.y));
            lemma_step_dist(c, 4, 0, 1);
            lemma_step_dist(c, 5, -1, 1);
            lemma_step_dist(c, 3, 1, 1);
            assert(rotated_neighbor(c, rotation, 4) == neighbor(c, 4));
            assert(rotated_neighbor(c, rotation, 5) == neighbor(c, 5));
            assert(rotated_neighbor(c, rotation, 3) == neighbor(c, 3));
        },
        Direction::TopRight => {
            assert((4 + k) % 8 == 5 && (5 + k) % 8 == 6 && (3 + k) % 8 == 4);
            assert((k + 1) % 8 == 2 && (k + 7) % 8 == 0);
            assert(twice_dot(c, 1) == 2 * (1 * c.x + -1 * c.y));
            assert(twice_dot(c, 2) == 2 * (1 * c.x + 0 * c.y));
            assert(twice_dot(c, 0) == 2 * (0 * c.x + -1 * c.y));
            lemma_step_dist(c, 5, -1, 1);
            lemma_step_dist(c, 6, -1, 0);
            lemma_step_dist(c, 4, 0, 1);
            assert(rotated_neighbor(c, rotation, 4) == neighbor(c, 5));
            assert(rotated_neighbor(c, rotation, 5) == neighbor(c, 6));
            assert(rotated_neighbor(c, rotation, 3) == neighbor(c, 4));
        },
        Direction::Right => {
            assert((4 + k) % 8 == 6 && (5 + k) % 8 == 7 && (3 + k) % 8 == 5);
            assert((k + 1) % 8 == 3 && (k + 7) % 8 == 1);
            assert(twice_dot(c, 2) == 2 * (1 * c.x + 0 * c.y));
            assert(twice_dot(c, 3) == 2 * (1 * c.x + 1 * c.y));
            assert(twice_dot(c, 1) == 2 * (1 * c.x + -1 * c.y));
            lemma_step_dist(c, 6, -1, 0);
            lemma_step_dist(c, 7, -1, -1);
            lemma_step_dist(c, 5, -1, 1);
            assert(rotated_neighbor(c, rotation, 4) == neighbor(c, 6));
            assert(rotated_neighbor(c, rotation, 5) == neighbor(c, 7));
            assert(rotated_neighbor(c, rotation, 3) == neighbor(c, 5));
        },
        Direction::DownRight => {
            assert((4 + k) % 8 == 7 && (5 + k) % 8 == 0 && (3 + k) % 8 == 6);
            assert((k + 1) % 8 == 4 && (k + 7) % 8 == 2);
            assert(twice_dot(c, 3) == 2 * (1 * c.x + 1 * c.y));
            assert(twice_dot(c, 4) == 2 * (0 * c.x + 1 * c.y));
            assert(twice_dot(c, 2) == 2 * (1 * c.x + 0 * c.y));
            lemma_step_dist(c, 7, -1, -1);
            lemma_step_dist(c, 0, 0, -1);
            lemma_step_dist(c, 6, -1, 0);
            assert(rotated_neighbor(c, rotation, 4) == neighbor(c, 7));
            assert(rotated_neighbor(c, rotation, 5) == neighbor(c, 0));
            assert(rotated_neighbor(c, rotation, 3) == neighbor(c, 6));
        },
        Direction::Down => {
            assert((4 + k) % 8 == 0 && (5 + k) % 8 == 1 && (3 + k) % 8 == 7);
            assert((k + 1) % 8 == 5 && (k + 7) % 8 == 3);
            assert(twice_dot(c, 4) == 2 * (0 * c.x + 1 * c.y));
            assert(twice_dot(c, 5) == 2 * (-1 * c.x + 1 * c.y));
            assert(twice_dot(c, 3) == 2 * (1 * c.x + 1 * c.y));
            lemma_step_dist(c, 0, 0, -1);
            lemma_step_dist(c, 1, 1, -1);
            lemma_step_dist(c, 7, -1, -1);
            assert(rotated_neighbor(c, rotation, 4) == neighbor(c, 0));
            assert(rotated_neighbor(c, rotation, 5) == neighbor(c, 1));
            assert(rotated_neighbor(c, rotation, 3) == neighbor(c, 7));
        },
        Direction::DownLeft => {
            assert((4 + k) % 8 == 1 && (5 + k) % 8 == 2 && (3 + k) % 8 == 0);
            assert((k + 1) % 8 == 6 && (k + 7) % 8 == 4);
            assert(twice_dot(c, 5) == 2 * (-1 * c.x + 1 * c.y));
            assert(twice_dot(c, 6) == 2 * (-1 * c.x + 0 * c.y));
            assert(twice_dot(c, 4) == 2 * (0 * c.x + 1 * c.y));
            lemma_step_dist(c, 1, 1, -1);
            lemma_step_dist(c, 2, 1, 0);
            lemma_step_dist(c, 0, 0, -1);
            assert(rotated_neighbor(c, rotation, 4) == neighbor(c, 1));
            assert(rotated_neighbor(c, rotation, 5) == neighbor(c, 2));
            assert(rotated_neighbor(c, rotation, 3) == neighbor(c, 0));
        },
        Direction::Left => {
            assert((4 + k) % 8 == 2 && (5 + k) % 8 == 3 && (3 + k) % 8 == 1);
            assert((k + 1) % 8 == 7 && (k + 7) % 8 == 5);
            assert(twice_dot(c, 6) == 2 * (-1 * c.x + 0 * c.y));
            assert(twice_dot(c, 7) == 2 * (-1 * c.x + -1 * c.y));
            assert(twice_dot(c, 5) == 2 * (-1 * c.x + 1 * c.y));
            lemma_step_dist(c, 2, 1, 0);
            lemma_step_dist(c, 3, 1, 1);
            lemma_step_dist(c, 1, 1, -1);
            assert(rotated_neighbor(c, rotation, 4) == neighbor(c, 2));
            assert(rotated_neighbor(c, rotation, 5) == neighbor(c, 3));
            assert(rotated_neighbor(c, rotation, 3) == neighbor(c, 1));
        },
        Direction::TopLeft => {
            assert((4 + k) % 8 == 3 && (5 + k) % 8 == 4 && (3 + k) % 8 == 2);
            assert((k + 1) % 8 == 0 && (k + 7) % 8 == 6);
            assert(twice_dot(c, 7) == 2 * (-1 * c.x + -1 * c.y));
            assert(twice_dot(c, 0) == 2 * (0 * c.x + -1 * c.y));
            assert(twice_dot(c, 6) == 2 * (-1 * c.x + 0 * c.y));
            lemma_step_dist(c, 3, 1, 1);
            lemma_step_dist(c, 4, 0, 1);
            lemma_step_dist(c, 2, 1, 0);
            assert(rotated_neighbor(c, rotation, 4) == neighbor(c, 3));
            assert(rotated_neighbor(c, rotation, 5) == neighbor(c, 4));
            assert(rotated_neighbor(c, rotation, 3) == neighbor(c, 2));
        },
    }
}

} // verus!
