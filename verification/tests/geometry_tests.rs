use fracantor::geometry::{generate_cantor_squares, subdivide_squares, world_root, Square};
use fracantor::animate::square_count;
use fracantor::ConfigError;

fn overlaps(a: &Square, b: &Square) -> bool {
    a.x < b.x + b.side && b.x < a.x + a.side && a.y < b.y + b.side && b.y < a.y + a.side
}

#[test]
fn fractal_count_is_four_to_the_depth() {
    for depth in 0..5u32 {
        let squares = generate_cantor_squares(depth).unwrap();
        let expected = 4u64.pow(depth) as usize;
        assert_eq!(squares.len(), expected);
    }
}

#[test]
fn depth_beyond_ceiling_is_rejected() {
    assert_eq!(
        generate_cantor_squares(12).unwrap_err(),
        ConfigError::DepthTooLarge
    );
    assert!(generate_cantor_squares(11).is_ok());
}

#[test]
fn no_two_squares_overlap() {
    for depth in 0..4u32 {
        let squares = generate_cantor_squares(depth).unwrap();
        for i in 0..squares.len() {
            for j in (i + 1)..squares.len() {
                assert!(!overlaps(&squares[i], &squares[j]));
            }
        }
    }
}

#[test]
fn depth_one_children_sit_in_the_corners() {
    let squares = generate_cantor_squares(1).unwrap();
    assert_eq!(squares.len(), 4);
    let expected = [(0u64, 0u64), (2, 0), (0, 2), (2, 2)];
    for (k, &(x, y)) in expected.iter().enumerate() {
        assert_eq!(squares[k].x, x);
        assert_eq!(squares[k].y, y);
        assert_eq!(squares[k].side, 1);
    }
}

#[test]
fn world_root_side_is_a_power_of_three() {
    assert_eq!(world_root(0).side, 1);
    assert_eq!(world_root(2).side, 9);
    assert_eq!(world_root(11).side, 177147);
}

#[test]
fn pixel_space_subdivision_truncates_per_round() {
    // A 10-pixel square subdivides into sides 10/3 = 3, then 3/3 = 1.
    let squares = subdivide_squares(Square { x: 0, y: 0, side: 10 }, 2);
    assert_eq!(squares.len(), 16);
    for sq in &squares {
        assert_eq!(sq.side, 1);
    }
    assert_eq!(squares[0].x, 0);
    assert_eq!(squares[1].x, 2);
    assert_eq!(squares[15].x, 8);
    assert_eq!(squares[15].y, 8);
}

#[test]
fn square_count_matches_the_set() {
    assert_eq!(square_count(0).unwrap(), 1);
    assert_eq!(square_count(3).unwrap(), 64);
    assert_eq!(square_count(11).unwrap(), 4194304);
    assert_eq!(square_count(12).unwrap_err(), ConfigError::DepthTooLarge);
}
