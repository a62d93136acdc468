use mfl_inv::map_layout::{MapLayout, LEGEND_WIDTH, MAX_AXIAL_CHARS, MAX_SENSOR_ROWS};
use mfl_inv::severity::DefectSeverity::{Critical, Mild, Moderate, Normal, Severe};
use mfl_inv::stats::{filled_grid, stitch_rows, tally_severities, SeverityCounts};

#[test]
fn map_layout_on_a_default_terminal() {
    let l = MapLayout::new(120, 64, 10_000);
    assert_eq!(
        l,
        MapLayout { axial_step: 121, display_axial: 82, sensor_step: 4, display_sensors: 16 }
    );
}

#[test]
fn map_layout_is_capped_on_wide_terminals() {
    let l = MapLayout::new(1000, 10, 50);
    assert_eq!(l, MapLayout { axial_step: 1, display_axial: 50, sensor_step: 1, display_sensors: 10 });
    let l = MapLayout::new(1000, 64, 1000);
    assert_eq!(l.axial_step, 1000 / MAX_AXIAL_CHARS);
    assert_eq!(l.display_axial, MAX_AXIAL_CHARS);
    assert_eq!(l.display_sensors, MAX_SENSOR_ROWS);
}

#[test]
fn map_layout_on_the_narrowest_terminal() {
    let l = MapLayout::new(LEGEND_WIDTH + 8, 8, 5);
    assert_eq!(l, MapLayout { axial_step: 5, display_axial: 1, sensor_step: 1, display_sensors: 8 });
}

#[test]
fn map_layout_of_an_empty_scan() {
    let l = MapLayout::new(100, 0, 0);
    assert_eq!(l, MapLayout { axial_step: 1, display_axial: 1, sensor_step: 1, display_sensors: 0 });
}

#[test]
fn displayed_points_exist() {
    for width in [38usize, 50, 120, 300] {
        for sensors in [1usize, 15, 16, 17, 64, 100] {
            for axial in [1usize, 7, 250, 10_000] {
                let l = MapLayout::new(width, sensors, axial);
                assert!((l.display_axial - 1) * l.axial_step < axial);
                if l.display_sensors > 0 {
                    assert!((l.display_sensors - 1) * l.sensor_step < sensors);
                }
            }
        }
    }
}

#[test]
fn row_groups_are_clipped_to_the_sensors() {
    let l = MapLayout { axial_step: 1, display_axial: 1, sensor_step: 4, display_sensors: 3 };
    assert_eq!(l.row_group(0, 14), (0, 4));
    assert_eq!(l.row_group(2, 14), (8, 12));
    assert_eq!(l.row_group(3, 14), (12, 14));
}

#[test]
fn severity_tally() {
    let v = vec![Normal, Critical, Mild, Mild, Severe, Normal, Moderate, Critical, Critical];
    assert_eq!(
        tally_severities(&v),
        SeverityCounts { critical: 3, severe: 1, moderate: 1, mild: 2 }
    );
    assert_eq!(
        tally_severities(&Vec::new()),
        SeverityCounts { critical: 0, severe: 0, moderate: 0, mild: 0 }
    );
}

#[test]
fn severity_counts_and_normals_add_up() {
    let v = vec![Normal, Normal, Severe, Mild, Normal, Critical];
    let c = tally_severities(&v);
    let normals = v.iter().filter(|s| **s == Normal).count();
    assert_eq!(c.critical + c.severe + c.moderate + c.mild + normals, v.len());
}

#[test]
fn stitching_joins_rows_of_every_segment() {
    let segments = vec![
        vec![vec![1, 2], vec![3]],
        vec![vec![4], vec![5, 6]],
        vec![vec![7]],
    ];
    assert_eq!(stitch_rows(&segments), vec![vec![1, 2, 4, 7], vec![3, 5, 6]]);
}

#[test]
fn stitching_takes_its_rows_from_the_first_segment() {
    let segments = vec![vec![vec!['a']], vec![vec!['b'], vec!['c']]];
    assert_eq!(stitch_rows(&segments), vec![vec!['a', 'b']]);
    assert_eq!(stitch_rows::<u8>(&Vec::new()), Vec::<Vec<u8>>::new());
}

#[test]
fn filled_grid_has_the_requested_shape() {
    assert_eq!(filled_grid(2, 3, 9u8), vec![vec![9, 9, 9], vec![9, 9, 9]]);
    assert_eq!(filled_grid(0, 3, 1u8), Vec::<Vec<u8>>::new());
    assert_eq!(filled_grid(2, 0, 1u8), vec![Vec::<u8>::new(), Vec::new()]);
}
