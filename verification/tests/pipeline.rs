use topology_processor::Arrival;
use topology_processor::BoundingBox;
use topology_processor::FetchErrorKind;
use topology_processor::GridCoordinate;
use topology_processor::TerrainError;
use topology_processor::assemble_topology;
use topology_processor::calc_cords;
use topology_processor::split_batches;

fn region() -> BoundingBox {
    BoundingBox {
        min_lat: 46_500_000,
        max_lat: 49_000_000,
        min_lon: 9_500_000,
        max_lon: 17_500_000,
    }
}

fn sampled(width: u32, depth: u32) -> Vec<GridCoordinate> {
    calc_cords(width, depth, &region()).unwrap()
}

fn ok_arrivals(batches: &[Vec<GridCoordinate>]) -> Vec<Arrival> {
    batches
        .iter()
        .enumerate()
        .map(|(b, batch)| {
            let payload: Vec<i64> = batch.iter().map(|c| (c.grid_x as i64) * 500).collect();
            (b, Ok(payload))
        })
        .collect()
}

#[test]
fn full_pipeline_builds_a_complete_topology() {
    let width = 9u32;
    let depth = 4u32;
    let cords = sampled(width, depth);
    let batches = split_batches(&cords, 10);
    let arrivals = ok_arrivals(&batches);
    let topology = assemble_topology(&cords, 10, &arrivals, width, depth, 200).unwrap();
    assert_eq!(topology.vertices.len(), 36);
    assert_eq!(topology.indices.len(), (6 * 8 * 3) as usize);
    for (i, v) in topology.vertices.iter().enumerate() {
        assert_eq!(v.x, cords[i].grid_x);
        assert_eq!(v.z, cords[i].grid_z);
        assert_eq!(v.y_num, (cords[i].grid_x as i64) * 500);
        assert_eq!(v.y_den, 200);
    }
    for index in &topology.indices {
        assert!((*index as usize) < topology.vertices.len());
    }
}

#[test]
fn one_failed_batch_yields_no_topology() {
    let width = 9u32;
    let depth = 4u32;
    let cords = sampled(width, depth);
    let batches = split_batches(&cords, 10);
    let mut arrivals = ok_arrivals(&batches);
    arrivals[3] = (3, Err(FetchErrorKind::Transport));
    let err = assemble_topology(&cords, 10, &arrivals, width, depth, 200).unwrap_err();
    assert!(matches!(err, TerrainError::Fetch(f) if f.batch == 3));
}

#[test]
fn miscounting_batch_yields_no_topology() {
    let width = 9u32;
    let depth = 4u32;
    let cords = sampled(width, depth);
    let batches = split_batches(&cords, 10);
    let mut arrivals = ok_arrivals(&batches);
    arrivals[0] = (0, Ok(vec![1, 2, 3]));
    let err = assemble_topology(&cords, 10, &arrivals, width, depth, 200).unwrap_err();
    assert!(matches!(
        err,
        TerrainError::Consistency(c) if c.batch == 0 && c.expected == 10 && c.actual == 3
    ));
}
