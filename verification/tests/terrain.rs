use topology_processor::BoundingBox;
use topology_processor::GridCoordinate;
use topology_processor::SamplingError;
use topology_processor::build_indices;
use topology_processor::build_topology;
use topology_processor::build_vertices;
use topology_processor::calc_cords;

fn unit_box() -> BoundingBox {
    BoundingBox { min_lat: 0, max_lat: 3_000_000, min_lon: 0, max_lon: 4_000_000 }
}

#[test]
fn round_trip_coordinate_values() {
    // width=4, depth=3 over lat 0..3 and lon 0..4 degrees: the coordinate at
    // grid (x=2, z=1) has longitude 4 * (2/4) = 2.0 and latitude
    // 3 * (1 - 1/3) = 2.0, in micro-degrees.
    let cords = calc_cords(4, 3, &unit_box()).unwrap();
    let c = &cords[1 * 4 + 2];
    assert_eq!(c.grid_x, 2);
    assert_eq!(c.grid_z, 1);
    assert_eq!(c.longitude, 2_000_000);
    assert_eq!(c.latitude, 2_000_000);
}

#[test]
fn row_major_order() {
    let cords = calc_cords(4, 3, &unit_box()).unwrap();
    assert_eq!(cords.len(), 12);
    for (i, c) in cords.iter().enumerate() {
        assert_eq!(c.grid_x as usize, i % 4);
        assert_eq!(c.grid_z as usize, i / 4);
    }
}

#[test]
fn fencepost_last_column_stays_short_of_max_lon() {
    // With width=5 the divisor is 5, not 4: the last column's longitude is
    // strictly below max_lon.
    let b = unit_box();
    let cords = calc_cords(5, 2, &b).unwrap();
    let last = &cords[4];
    assert_eq!(last.grid_x, 4);
    assert_eq!(last.longitude, 4_000_000 * 4 / 5);
    assert!(last.longitude < b.max_lon);
}

#[test]
fn top_row_reaches_max_lat() {
    let b = unit_box();
    let cords = calc_cords(4, 3, &b).unwrap();
    assert_eq!(cords[0].latitude, b.max_lat);
}

#[test]
fn invalid_dimensions_rejected() {
    assert_eq!(calc_cords(1, 3, &unit_box()).unwrap_err(), SamplingError::InvalidDimensions);
    assert_eq!(calc_cords(4, 0, &unit_box()).unwrap_err(), SamplingError::InvalidDimensions);
    // The cell count must fit a u32 index.
    assert_eq!(
        calc_cords(70_000, 70_000, &unit_box()).unwrap_err(),
        SamplingError::InvalidDimensions
    );
}

#[test]
fn degenerate_bounding_box_rejected() {
    let flat = BoundingBox { min_lat: 0, max_lat: 0, min_lon: 0, max_lon: 4_000_000 };
    assert_eq!(calc_cords(4, 3, &flat).unwrap_err(), SamplingError::DegenerateBoundingBox);
    let out_of_range = BoundingBox {
        min_lat: 0,
        max_lat: 3_000_000,
        min_lon: 0,
        max_lon: 200_000_000,
    };
    assert_eq!(calc_cords(4, 3, &out_of_range).unwrap_err(), SamplingError::DegenerateBoundingBox);
}

#[test]
fn index_pattern_for_small_grid() {
    // 3 columns, 2 rows: two quads, two triangles each, sharing the diagonal.
    let indices = build_indices(3, 2);
    assert_eq!(indices, vec![0, 3, 1, 1, 3, 4, 1, 4, 2, 2, 4, 5]);
}

#[test]
fn buffer_lengths_match_grid() {
    // len(vertices) == width * depth, len(indices) == 6 * (width-1) * (depth-1).
    let width = 7u32;
    let depth = 5u32;
    let cords = calc_cords(width, depth, &unit_box()).unwrap();
    let elevations: Vec<i64> = (0..cords.len()).map(|i| i as i64).collect();
    let topo = build_topology(&cords, &elevations, width, depth, 200);
    assert_eq!(topo.vertices.len(), (width * depth) as usize);
    assert_eq!(topo.indices.len(), (6 * (width - 1) * (depth - 1)) as usize);
}

#[test]
fn indices_in_bounds_and_no_row_crossing() {
    let width = 6u32;
    let depth = 4u32;
    let indices = build_indices(width, depth);
    for tri in indices.chunks(3) {
        let cols: Vec<u32> = tri.iter().map(|v| v % width).collect();
        for v in tri {
            assert!(*v < width * depth);
        }
        // Each triangle touches exactly two adjacent columns, never the last
        // column of one row together with the first column of another.
        let lo = *cols.iter().min().unwrap();
        let hi = *cols.iter().max().unwrap();
        assert_eq!(hi, lo + 1);
        assert!(hi <= width - 1);
    }
}

#[test]
fn vertices_zip_coordinates_with_elevations() {
    let cords = calc_cords(4, 3, &unit_box()).unwrap();
    let elevations: Vec<i64> = (0..12).map(|i| (i as i64) * 1_000).collect();
    let vertices = build_vertices(&cords, &elevations, 200);
    assert_eq!(vertices.len(), 12);
    for (i, v) in vertices.iter().enumerate() {
        assert_eq!(v.x, cords[i].grid_x);
        assert_eq!(v.z, cords[i].grid_z);
        assert_eq!(v.y_num, elevations[i]);
        assert_eq!(v.y_den, 200);
    }
}

#[test]
fn example_vertex_uses_scale_divisor() {
    let cords = vec![GridCoordinate { grid_x: 0, grid_z: 0, longitude: 0, latitude: 0 }];
    let elevations = vec![1_523];
    let vertices = build_vertices(&cords, &elevations, 200);
    // 1523 / 200 = 7.615 as an exact rational.
    assert_eq!(vertices[0].y_num, 1_523);
    assert_eq!(vertices[0].y_den, 200);
}
