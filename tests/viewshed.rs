use viewshed::{
    angle_field_1d, angle_field_2d, to_origin, to_viewpoint, viewshed_1d, viewshed_2d, HeightGrid,
    Slope, ViewshedError, VisibilityGrid,
};
use viewshed::ray::{edge_ray, ray_cells};
use viewshed::sweep::running_max_visibility;

fn grid(rows: usize, cols: usize, cells: Vec<i16>) -> HeightGrid {
    HeightGrid::new(rows, cols, cells).expect("shape matches")
}

fn flags(m: &VisibilityGrid) -> Vec<Vec<u8>> {
    let (rows, cols) = m.shape();
    (0..rows)
        .map(|r| (0..cols).map(|c| m.get(r, c).unwrap()).collect())
        .collect()
}

#[test]
fn line_golden_scenario() {
    let terrain = vec![1, 2, 3, 5, 7, 6, 5, 5, 8, 20, 32, 7, 5];
    let out = viewshed_1d(&terrain, (6,)).unwrap();
    assert_eq!(out, vec![0, 0, 0, 0, 1, 1, 1, 1, 1, 1, 1, 0, 0]);
}

#[test]
fn line_taller_cell_occludes() {
    let out = viewshed_1d(&vec![0, 0, 0, 10, 0, 0, 0], (0,)).unwrap();
    assert_eq!(out[3], 1);
    assert_eq!(&out[4..], &[0, 0, 0]);
    assert_eq!(out, vec![1, 1, 1, 1, 0, 0, 0]);
}

#[test]
fn line_rising_terrain_all_visible() {
    let out = viewshed_1d(&vec![0, 1, 3, 6, 10, 15], (0,)).unwrap();
    assert_eq!(out, vec![1; 6]);
    let out = viewshed_1d(&vec![15, 10, 6, 3, 1, 0], (5,)).unwrap();
    assert_eq!(out, vec![1; 6]);
}

#[test]
fn line_rising_but_slowing_terrain_hides_cells() {
    let out = viewshed_1d(&vec![0, 10, 10], (0,)).unwrap();
    assert_eq!(out, vec![1, 1, 0]);
}

#[test]
fn line_ties_are_visible() {
    assert_eq!(viewshed_1d(&vec![5, 5, 5, 5], (1,)).unwrap(), vec![1, 1, 1, 1]);
    assert_eq!(viewshed_1d(&vec![0, 1, 2, 3, 4], (0,)).unwrap(), vec![1; 5]);
    assert_eq!(viewshed_1d(&vec![4, 3, 2, 1, 0], (4,)).unwrap(), vec![1; 5]);
}

#[test]
fn line_viewpoint_angle_not_consulted() {
    assert_eq!(viewshed_1d(&vec![0, -1, -2], (0,)).unwrap(), vec![1, 1, 1]);
    assert_eq!(viewshed_1d(&vec![-2, -1, 0], (2,)).unwrap(), vec![1, 1, 1]);
    assert_eq!(viewshed_1d(&vec![0, -1, -3], (0,)).unwrap(), vec![1, 1, 0]);
}

#[test]
fn line_viewpoint_always_visible() {
    assert_eq!(viewshed_1d(&vec![100, -50, 100], (1,)).unwrap(), vec![1, 1, 1]);
    assert_eq!(viewshed_1d(&vec![7], (0,)).unwrap(), vec![1]);
}

#[test]
fn line_out_of_bounds() {
    assert_eq!(viewshed_1d(&vec![1, 2, 3], (3,)), Err(ViewshedError::OutOfBounds));
    assert_eq!(viewshed_1d(&vec![], (0,)), Err(ViewshedError::OutOfBounds));
    assert!(!ViewshedError::OutOfBounds.message().is_empty());
}

#[test]
fn line_is_deterministic() {
    let terrain = vec![3, 9, 2, 8, 8, 1, 7, 20, 4];
    assert_eq!(viewshed_1d(&terrain, (4,)), viewshed_1d(&terrain, (4,)));
}

#[test]
fn line_angle_field() {
    let angles = angle_field_1d(&vec![4, 7, 2, 10], 2);
    assert_eq!(angles[2], Slope { num: 0, den: 1 });
    assert_eq!(angles[0], Slope { num: 2, den: 2 });
    assert_eq!(angles[1], Slope { num: 5, den: 1 });
    assert_eq!(angles[3], Slope { num: 8, den: 1 });
}

#[test]
fn slope_comparison_is_exact() {
    let a = Slope { num: 1, den: 3 };
    let b = Slope { num: 2, den: 6 };
    let c = Slope { num: 1, den: 2 };
    assert!(a.is_at_most(&b) && b.is_at_most(&a));
    assert!(a.is_at_most(&c) && !c.is_at_most(&a));
    assert!(Slope { num: -5, den: 1 }.is_at_most(&Slope::level()));
}

#[test]
fn running_max_keeps_ties() {
    let s = vec![
        Slope { num: 1, den: 1 },
        Slope { num: 2, den: 2 },
        Slope { num: 0, den: 1 },
        Slope { num: 3, den: 2 },
    ];
    assert_eq!(running_max_visibility(&s), vec![true, true, false, true]);
    assert_eq!(running_max_visibility(&vec![]), Vec::<bool>::new());
}

#[test]
fn transforms_round_trip() {
    assert_eq!(to_viewpoint((2, 7), (5, 3)), (-3, 4));
    assert_eq!(to_origin((-3, 4), (5, 3)), (2, 7));
}

#[test]
fn edge_rays_in_order() {
    assert_eq!(edge_ray(3, 4, 0), ((2, 0), true));
    assert_eq!(edge_ray(3, 4, 4), ((0, 3), false));
    assert_eq!(edge_ray(3, 4, 7), ((0, 0), true));
    assert_eq!(edge_ray(3, 4, 13), ((2, 0), false));
}

#[test]
fn ray_cells_round_halves_away_from_zero() {
    assert_eq!(ray_cells((0, 0), (4, 2), true), vec![(1, 1), (2, 1), (3, 2), (4, 2)]);
    assert_eq!(ray_cells((4, 4), (0, 2), true), vec![(3, 3), (2, 3), (1, 2), (0, 2)]);
    assert_eq!(ray_cells((2, 2), (0, 2), false), Vec::<(usize, usize)>::new());
}

#[test]
fn height_grid_layout() {
    let g = grid(2, 3, vec![1, 2, 3, 4, 5, 6]);
    assert_eq!(g.shape(), (2, 3));
    assert_eq!(g.get(1, 2), Some(6));
    assert_eq!(g.get(0, 1), Some(2));
    assert_eq!(g.get(2, 0), None);
    assert!(HeightGrid::new(2, 3, vec![1, 2, 3]).is_none());
}

#[test]
fn plane_flat_grid() {
    let g = grid(3, 3, vec![0; 9]);
    let out = viewshed_2d(&g, (1, 1)).unwrap();
    assert_eq!(out.shape(), (3, 3));
    assert_eq!(flags(&out), vec![vec![1, 1, 1], vec![1, 0, 1], vec![1, 1, 1]]);
    assert_eq!(out.get(3, 0), None);
}

#[test]
fn plane_wall_occludes() {
    let mut cells = vec![0i16; 25];
    cells[12] = 9;
    let out = viewshed_2d(&grid(5, 5, cells), (0, 0)).unwrap();
    assert_eq!(
        flags(&out),
        vec![
            vec![0, 1, 1, 1, 1],
            vec![1, 1, 1, 1, 1],
            vec![1, 1, 1, 1, 1],
            vec![1, 1, 1, 0, 0],
            vec![1, 1, 1, 0, 0],
        ]
    );
}

#[test]
fn plane_single_row() {
    let out = viewshed_2d(&grid(1, 7, vec![0, 0, 0, 10, 0, 0, 0]), (0, 0)).unwrap();
    assert_eq!(flags(&out), vec![vec![0, 1, 1, 1, 0, 0, 0]]);
}

#[test]
fn plane_slope() {
    let g = grid(3, 4, vec![1, 2, 3, 4, 2, 3, 4, 5, 3, 4, 5, 6]);
    let out = viewshed_2d(&g, (1, 1)).unwrap();
    assert_eq!(flags(&out), vec![vec![1, 1, 1, 1], vec![1, 0, 1, 1], vec![1, 1, 1, 1]]);
}

#[test]
fn plane_is_deterministic() {
    let cells = vec![5, 1, 1, 1, 1, 1, 1, 1, 1, 1, 1, 1, 8, 1, 1, 1, 1, 1, 1, 1, 1, 1, 1, 1, 3];
    let a = viewshed_2d(&grid(5, 5, cells.clone()), (0, 0)).unwrap();
    let b = viewshed_2d(&grid(5, 5, cells), (0, 0)).unwrap();
    assert_eq!(flags(&a), flags(&b));
}

#[test]
fn plane_viewpoint_angle_is_level() {
    let g = grid(2, 2, vec![3, -4, 7, 1]);
    let angles = angle_field_2d(&g, (0, 1));
    assert_eq!(angles[0][1], Slope { num: 0, den: 1 });
    assert_eq!(angles[0][0], Slope { num: 49, den: 1 });
    assert_eq!(angles[1][0], Slope { num: 121, den: 2 });
    assert_eq!(angles[1][1], Slope { num: 25, den: 1 });
}

#[test]
fn plane_out_of_bounds() {
    let g = grid(2, 2, vec![0; 4]);
    assert!(matches!(viewshed_2d(&g, (2, 0)), Err(ViewshedError::OutOfBounds)));
    assert!(matches!(viewshed_2d(&g, (0, 2)), Err(ViewshedError::OutOfBounds)));
}
