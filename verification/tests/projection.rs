use convolve::{edge_project, EdgeMode};

#[test]
fn extend_clamps_to_the_border() {
    assert_eq!(edge_project(-1, 5, 10, 10, &EdgeMode::Extend), (0, 5));
    assert_eq!(edge_project(10, 3, 10, 10, &EdgeMode::Extend), (9, 3));
}

#[test]
fn wrap_goes_around_to_the_opposite_border() {
    assert_eq!(edge_project(-1, 5, 10, 10, &EdgeMode::Wrap), (9, 5));
    assert_eq!(edge_project(10, 3, 10, 10, &EdgeMode::Wrap), (0, 3));
}

#[test]
fn mirror_reflects_without_repeating_the_border() {
    assert_eq!(edge_project(-1, 5, 10, 10, &EdgeMode::Mirror), (0, 5));
    assert_eq!(edge_project(10, 3, 10, 10, &EdgeMode::Mirror), (9, 3));
}

#[test]
fn in_bounds_coordinates_are_unchanged() {
    assert_eq!(edge_project(4, 7, 10, 10, &EdgeMode::Extend), (4, 7));
    assert_eq!(edge_project(4, 7, 10, 10, &EdgeMode::Wrap), (4, 7));
    assert_eq!(edge_project(4, 7, 10, 10, &EdgeMode::Mirror), (4, 7));
    assert_eq!(edge_project(0, 9, 10, 10, &EdgeMode::Mirror), (0, 9));
}

#[test]
fn each_axis_projects_independently() {
    assert_eq!(edge_project(-3, 12, 10, 10, &EdgeMode::Extend), (0, 9));
    assert_eq!(edge_project(-3, 12, 10, 10, &EdgeMode::Wrap), (7, 2));
    assert_eq!(edge_project(-3, 12, 10, 10, &EdgeMode::Mirror), (2, 7));
}

#[test]
fn mirror_reflects_deeper_overshoots() {
    // -x - 1 below zero, -x + 2 * dim - 1 above
    assert_eq!(edge_project(-4, 0, 10, 10, &EdgeMode::Mirror), (3, 0));
    assert_eq!(edge_project(13, 0, 10, 10, &EdgeMode::Mirror), (6, 0));
}
