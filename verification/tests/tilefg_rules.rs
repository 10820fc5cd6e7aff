use libparticleverse::tilefg::{Cell, Direction, TileFG, EMPTY_TILE, SAND_TILE};

fn cell(x: i32, y: i32) -> Cell {
    Cell { x, y }
}

fn dist2(c: Cell) -> i64 {
    (c.x as i64) * (c.x as i64) + (c.y as i64) * (c.y as i64)
}

#[test]
fn new_map_is_empty() {
    let t = TileFG::new();
    assert!(t.sand.is_empty());
    assert!(t.lava.is_empty());
    assert_eq!(t.sand_mass, 0);
    assert_eq!(t.lava_mass, 0);
    assert_eq!(t.mass, 0);
    assert!(!t.freezemap);
}

#[test]
fn track_sand_replaces_sand_only() {
    let mut t = TileFG::new();
    t.lava = vec![cell(9, 9)];
    t.track_sand(vec![cell(1, 2), cell(3, 4)]);
    assert_eq!(t.sand, vec![cell(1, 2), cell(3, 4)]);
    assert_eq!(t.lava, vec![cell(9, 9)]);
    t.track_sand(vec![]);
    assert!(t.sand.is_empty());
}

#[test]
fn direction_indices_count_clockwise_from_top() {
    let all = [
        Direction::Top,
        Direction::TopRight,
        Direction::Right,
        Direction::DownRight,
        Direction::Down,
        Direction::DownLeft,
        Direction::Left,
        Direction::TopLeft,
    ];
    for (i, d) in all.iter().enumerate() {
        assert_eq!(d.index(), i as i32);
    }
}

#[test]
fn move_options_clockwise_from_top() {
    let t = TileFG::new();
    let m = t.move_options(&cell(3, 7));
    assert_eq!(
        m,
        vec![
            cell(3, 6),
            cell(4, 6),
            cell(4, 7),
            cell(4, 8),
            cell(3, 8),
            cell(2, 8),
            cell(2, 7),
            cell(2, 6),
        ]
    );
}

#[test]
fn relative_move_rotates_left() {
    let t = TileFG::new();
    let mut m = t.move_options(&cell(0, 0));
    let original = m.clone();
    let mut k = 2;
    let r = t.relative_move(&mut m, &mut k);
    assert_eq!(k, 0);
    assert_eq!(r.len(), 8);
    for i in 0..8 {
        assert_eq!(r[i], original[(i + 2) % 8]);
    }
    assert_eq!(m, r);
}

#[test]
fn relative_move_by_zero_copies() {
    let t = TileFG::new();
    let mut m = vec![cell(1, 1), cell(2, 2)];
    let mut k = 0;
    let r = t.relative_move(&mut m, &mut k);
    assert_eq!(r, vec![cell(1, 1), cell(2, 2)]);
    assert_eq!(m, r);
    assert_eq!(k, 0);
}

#[test]
fn relative_move_full_turn_is_identity() {
    let t = TileFG::new();
    let mut m = t.move_options(&cell(-4, 9));
    let original = m.clone();
    let mut k = 8;
    let r = t.relative_move(&mut m, &mut k);
    assert_eq!(r, original);
}

#[test]
fn relative_move_composes() {
    let t = TileFG::new();
    let mut a = t.move_options(&cell(5, 5));
    let mut b = a.clone();
    let mut k1 = 3;
    t.relative_move(&mut a, &mut k1);
    let mut k2 = 4;
    let twice = t.relative_move(&mut a, &mut k2);
    let mut k3 = 7;
    let once = t.relative_move(&mut b, &mut k3);
    assert_eq!(twice, once);
}

#[test]
fn neighbors_rotate_like_move_options() {
    let t = TileFG::new();
    let mut ids: Vec<i64> = vec![10, 11, 12, 13, 14, 15, 16, 17];
    let mut k = 5;
    let r = t.neighbors(&mut ids, &mut k);
    assert_eq!(r, vec![15, 16, 17, 10, 11, 12, 13, 14]);
    assert_eq!(ids, r);
    assert_eq!(k, 0);
}

#[test]
fn sand_on_top_falls_straight_down() {
    let t = TileFG::new();
    let c = cell(0, -5);
    let dir = Direction::Top;
    let around = vec![SAND_TILE, SAND_TILE, SAND_TILE, SAND_TILE, EMPTY_TILE, SAND_TILE, SAND_TILE, SAND_TILE];
    assert_eq!(t.sand_move(&c, dir, &around), Some(cell(0, -4)));
}

#[test]
fn sand_slides_when_blocked() {
    let t = TileFG::new();
    let c = cell(0, -5);
    let dir = Direction::Top;
    // straight down blocked, down-left (rotated neighbour 5) free
    let around = vec![1, 1, 1, EMPTY_TILE, 1, EMPTY_TILE, 1, 1];
    assert_eq!(t.sand_move(&c, dir, &around), Some(cell(-1, -4)));
    // down and down-left blocked, down-right (rotated neighbour 3) free
    let around = vec![1, 1, 1, EMPTY_TILE, 1, 1, 1, 1];
    assert_eq!(t.sand_move(&c, dir, &around), Some(cell(1, -4)));
}

#[test]
fn sand_stays_when_all_blocked() {
    let t = TileFG::new();
    let c = cell(0, -5);
    let dir = Direction::Top;
    let around = vec![EMPTY_TILE, EMPTY_TILE, EMPTY_TILE, 1, 1, 1, EMPTY_TILE, EMPTY_TILE];
    assert_eq!(t.sand_move(&c, dir, &around), None);
}

#[test]
fn sand_on_right_falls_left() {
    let t = TileFG::new();
    let c = cell(9, 1);
    let dir = Direction::Right;
    let around = vec![EMPTY_TILE; 8];
    assert_eq!(t.sand_move(&c, dir, &around), Some(cell(8, 1)));
}

#[test]
fn sand_below_falls_up() {
    let t = TileFG::new();
    let c = cell(-2, 30);
    let dir = Direction::Down;
    let around = vec![EMPTY_TILE; 8];
    assert_eq!(t.sand_move(&c, dir, &around), Some(cell(-2, 29)));
}

#[test]
fn sand_in_lower_left_falls_up_right() {
    let t = TileFG::new();
    let c = cell(-6, 6);
    let dir = Direction::DownLeft;
    let around = vec![EMPTY_TILE; 8];
    assert_eq!(t.sand_move(&c, dir, &around), Some(cell(-5, 5)));
}

const ALL: [Direction; 8] = [
    Direction::Top,
    Direction::TopRight,
    Direction::Right,
    Direction::DownRight,
    Direction::Down,
    Direction::DownLeft,
    Direction::Left,
    Direction::TopLeft,
];

const STEPS: [(i64, i64); 8] = [(0, -1), (1, -1), (1, 0), (1, 1), (0, 1), (-1, 1), (-1, 0), (-1, -1)];

fn dot(c: Cell, k: usize) -> i64 {
    STEPS[k].0 * c.x as i64 + STEPS[k].1 * c.y as i64
}

fn within_45(c: Cell, k: usize) -> bool {
    dot(c, k) > 0 && dot(c, (k + 1) % 8) > 0 && dot(c, (k + 7) % 8) > 0
}

#[test]
fn sand_never_moves_away_from_center() {
    let t = TileFG::new();
    let blocked: i64 = 2;
    let mut checked = 0;
    for x in -12..=12 {
        for y in -12..=12 {
            let c = cell(x, y);
            for (k, dir) in ALL.iter().enumerate() {
                if !within_45(c, k) {
                    continue;
                }
                checked += 1;
                for mask in 0u32..256 {
                    let around: Vec<i64> = (0..8)
                        .map(|i| if mask & (1 << i) != 0 { EMPTY_TILE } else { blocked })
                        .collect();
                    if let Some(to) = t.sand_move(&c, *dir, &around) {
                        assert!(dist2(to) <= dist2(c));
                    }
                }
                let all_empty = vec![EMPTY_TILE; 8];
                let to = t.sand_move(&c, *dir, &all_empty).unwrap();
                assert!(dist2(to) < dist2(c));
            }
        }
    }
    assert!(checked > 600);
}

#[test]
fn sand_moves_only_into_empty_tiles() {
    let t = TileFG::new();
    let c = cell(3, -7);
    for dir in ALL.iter() {
        for mask in 0u32..256 {
            let around: Vec<i64> = (0..8)
                .map(|i| if mask & (1 << i) != 0 { EMPTY_TILE } else { SAND_TILE })
                .collect();
            if let Some(to) = t.sand_move(&c, *dir, &around) {
                let options = t.move_options(&c);
                let j = options.iter().position(|o| *o == to).unwrap();
                assert_eq!(around[j], EMPTY_TILE);
            } else {
                assert!(mask != 255);
            }
        }
    }
}

#[test]
fn sand_at_origin_moves_off_it() {
    let t = TileFG::new();
    let around = vec![EMPTY_TILE; 8];
    assert_eq!(t.sand_move(&cell(0, 0), Direction::Right, &around), Some(cell(-1, 0)));
}

#[test]
fn neighbors_keep_eight_of_a_longer_ring() {
    let t = TileFG::new();
    let mut ids: Vec<i64> = (0..10).collect();
    let mut k = 3;
    let r = t.neighbors(&mut ids, &mut k);
    assert_eq!(r, vec![3, 4, 5, 6, 7, 8, 9, 0]);
    assert_eq!(ids, vec![3, 4, 5, 6, 7, 8, 9, 0, 1, 2]);
    assert_eq!(k, 0);
}
