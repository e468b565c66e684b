use fishtank::stencil::{checked_grid_average_offsets, grid_average_offsets};

#[test]
fn radius_one_stencil_is_the_six_neighbours_and_centre() {
    assert_eq!(grid_average_offsets(1, 5), vec![-25, -5, -1, 0, 1, 5, 25]);
}

#[test]
fn radius_zero_stencil_is_the_centre() {
    assert_eq!(grid_average_offsets(0, 15), vec![0]);
}

#[test]
fn negative_radius_gives_empty_stencil() {
    assert!(grid_average_offsets(-1, 15).is_empty());
    assert!(grid_average_offsets(-40000, 15).is_empty());
}

#[test]
fn radius_two_stencil_counts_lattice_points() {
    // lattice points with i^2 + j^2 + k^2 <= 4
    let offsets = grid_average_offsets(2, 15);
    assert_eq!(offsets.len(), 33);
    assert_eq!(offsets[0], -450);
    assert_eq!(offsets[offsets.len() - 1], 450);
}

#[test]
fn stencil_is_symmetric_and_holds_centre() {
    let offsets = grid_average_offsets(3, 21);
    assert!(offsets.contains(&0));
    for o in &offsets {
        assert!(offsets.contains(&-o));
    }
}

#[test]
fn stencil_offsets_strictly_increase_in_wide_grid() {
    let offsets = grid_average_offsets(2, 15);
    for pair in offsets.windows(2) {
        assert!(pair[0] < pair[1]);
    }
}

#[test]
fn stencil_members_are_the_ball_points() {
    let (r, n) = (2i32, 11i32);
    let offsets = grid_average_offsets(r, n as u32);
    let mut expected = Vec::new();
    for k in -r..=r {
        for j in -r..=r {
            for i in -r..=r {
                if i * i + j * j + k * k <= r * r {
                    expected.push(i + n * (j + n * k));
                }
            }
        }
    }
    assert_eq!(offsets, expected);
    // the corner of the cube lies outside the ball
    assert!(!offsets.contains(&(2 + 11 * (2 + 11 * 2))));
}

#[test]
fn row_length_past_i32_wraps() {
    // u32::MAX cells per row counts as -1 in 32-bit arithmetic
    assert_eq!(grid_average_offsets(1, u32::MAX), vec![-1, 1, -1, 0, 1, -1, 1]);
}

#[test]
fn checked_stencil_refuses_exactly_the_overflowing_inputs() {
    assert_eq!(checked_grid_average_offsets(1, 5), Some(vec![-25, -5, -1, 0, 1, 5, 25]));
    assert_eq!(checked_grid_average_offsets(-1, 15), Some(vec![]));
    // r * r overflows
    assert_eq!(checked_grid_average_offsets(46341, 15), None);
    assert_eq!(checked_grid_average_offsets(i32::MIN, 15), None);
    // 3 r^2 overflows, though r^2 does not
    assert_eq!(checked_grid_average_offsets(30000, 3), None);
    // a negative radius builds nothing, however large r^2 is
    assert_eq!(checked_grid_average_offsets(-30000, 3), Some(vec![]));
    // n^2 * r overflows for the slice offsets
    assert_eq!(checked_grid_average_offsets(1, 50_000), None);
    // the corner of the cube would overflow, but it lies outside the ball
    let n: u32 = 23_170;
    assert!(4 + n as i64 * (4 + n as i64 * 4) > i32::MAX as i64);
    let offsets = checked_grid_average_offsets(4, n).expect("the ball fits");
    assert_eq!(offsets, grid_average_offsets(4, n));
    assert_eq!(offsets.len(), 257);
    assert_eq!(*offsets.last().unwrap(), 4 * 23_170 * 23_170);
    // a row length past i32::MAX wraps
    assert_eq!(checked_grid_average_offsets(1, u32::MAX), Some(vec![-1, 1, -1, 0, 1, -1, 1]));
}
