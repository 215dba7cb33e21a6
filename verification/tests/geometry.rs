use wator::Config;
use wator::Coord;

fn config(width: i32, height: i32, borderless: bool) -> Config {
    Config {
        width,
        height,
        fish_breed_time: 3,
        shark_breed_time: 5,
        shark_starve_time: 4,
        borderless,
    }
}

#[test]
fn index_of_known_values() {
    let c = config(4, 3, false);
    assert_eq!(Coord(0, 0).as_idx(&c), 0);
    assert_eq!(Coord(3, 0).as_idx(&c), 3);
    assert_eq!(Coord(0, 1).as_idx(&c), 4);
    assert_eq!(Coord(2, 1).as_idx(&c), 6);
    assert_eq!(Coord(3, 2).as_idx(&c), 11);
}

#[test]
fn from_idx_known_values() {
    let c = config(4, 3, false);
    assert_eq!(Coord::from_idx(0, &c), Coord(0, 0));
    assert_eq!(Coord::from_idx(3, &c), Coord(3, 0));
    assert_eq!(Coord::from_idx(7, &c), Coord(3, 1));
    assert_eq!(Coord::from_idx(11, &c), Coord(3, 2));
}

#[test]
fn index_coordinate_round_trip_all_cells() {
    for (w, h) in [(1, 1), (1, 2), (3, 3), (4, 2), (7, 5)] {
        let c = config(w, h, false);
        for y in 0..h {
            for x in 0..w {
                let coord = Coord(x, y);
                let idx = coord.as_idx(&c);
                assert_eq!(idx, (y * w + x) as usize);
                assert_eq!(Coord::from_idx(idx as i32, &c), coord);
            }
        }
        for idx in 0..(w * h) {
            let coord = Coord::from_idx(idx, &c);
            assert_eq!(coord.as_idx(&c), idx as usize);
        }
    }
}

#[test]
fn clamped_corner_has_no_west_or_south_neighbor() {
    let c = config(3, 3, false);
    let neighbors = Coord(0, 0).neighbor_coords(&c);
    assert_eq!(neighbors.len(), 3);
    assert!(neighbors.contains(&Coord(1, 0)));
    assert!(neighbors.contains(&Coord(0, 1)));
    assert!(neighbors.contains(&Coord(1, 1)));
    assert!(!neighbors.contains(&Coord(2, 0)));
    assert!(!neighbors.contains(&Coord(0, 2)));
}

#[test]
fn toric_corner_wraps_west_and_south() {
    let c = config(3, 3, true);
    let neighbors = Coord(0, 0).neighbor_coords(&c);
    assert_eq!(neighbors.len(), 8);
    assert!(neighbors.contains(&Coord(2, 0)));
    assert!(neighbors.contains(&Coord(0, 2)));
    assert!(neighbors.contains(&Coord(2, 2)));
    assert!(neighbors.contains(&Coord(1, 0)));
    assert!(neighbors.contains(&Coord(0, 1)));
}

#[test]
fn neighbor_toward_clamped_absent_and_present() {
    let c = config(3, 3, false);
    assert_eq!(Coord(0, 0).neighbor_toward(-1, 0, &c), None);
    assert_eq!(Coord(0, 0).neighbor_toward(0, -1, &c), None);
    assert_eq!(Coord(0, 0).neighbor_toward(1, 0, &c), Some(Coord(1, 0)));
    assert_eq!(Coord(2, 2).neighbor_toward(1, 1, &c), None);
    assert_eq!(Coord(1, 1).neighbor_toward(-1, 1, &c), Some(Coord(0, 2)));
}

#[test]
fn neighbor_toward_toric_wraps() {
    let c = config(3, 3, true);
    assert_eq!(Coord(0, 0).neighbor_toward(-1, 0, &c), Some(Coord(2, 0)));
    assert_eq!(Coord(0, 0).neighbor_toward(0, -1, &c), Some(Coord(0, 2)));
    assert_eq!(Coord(2, 0).neighbor_toward(1, 0, &c), Some(Coord(0, 0)));
    assert_eq!(Coord(0, 2).neighbor_toward(0, 1, &c), Some(Coord(0, 0)));
    assert_eq!(Coord(1, 1).neighbor_toward(1, 0, &c), Some(Coord(2, 1)));
}
