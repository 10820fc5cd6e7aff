use libparticleverse::rotation::{copy_vec, rotate_left_by};
use libparticleverse::spacemagic::{
    particle_spawn_points, PARTICLE_COLUMNS, PARTICLE_ROWS, PARTICLE_SPACING,
};
use libparticleverse::tilebg::TileBG;

#[test]
fn spawn_points_of_the_start_grid() {
    let r = particle_spawn_points(PARTICLE_ROWS, PARTICLE_COLUMNS, PARTICLE_SPACING);
    assert_eq!(r.len(), 450);
    assert_eq!(r[0], (0, 0));
    assert_eq!(r[1], (0, 8));
    assert_eq!(r[2], (0, 16));
    assert_eq!(r[3], (8, 0));
    assert_eq!(r[449], (149 * 8, 16));
}

#[test]
fn spawn_points_are_distinct() {
    let r = particle_spawn_points(4, 5, 3);
    for i in 0..r.len() {
        for j in (i + 1)..r.len() {
            assert_ne!(r[i], r[j]);
        }
    }
}

#[test]
fn spawn_points_of_empty_grid() {
    assert!(particle_spawn_points(0, 3, 8).is_empty());
    assert!(particle_spawn_points(5, 0, 8).is_empty());
}

#[test]
fn spawn_points_with_zero_spacing_coincide() {
    let r = particle_spawn_points(2, 2, 0);
    assert_eq!(r, vec![(0, 0); 4]);
}

#[test]
fn background_map_builds() {
    let _bg = TileBG::new();
}

#[test]
fn copy_vec_copies() {
    let v = vec![3u8, 1, 4, 1, 5];
    assert_eq!(copy_vec(&v), v);
}

#[test]
fn rotate_left_by_more_than_length() {
    let mut v = vec![1, 2, 3];
    let mut k = 7;
    let r = rotate_left_by(&mut v, &mut k);
    assert_eq!(r, vec![2, 3, 1]);
    assert_eq!(v, r);
    assert_eq!(k, 0);
}
