use topology_processor::Arrival;
use topology_processor::BoundingBox;
use topology_processor::FetchErrorKind;
use topology_processor::GridCoordinate;
use topology_processor::TerrainError;
use topology_processor::assemble_elevations;
use topology_processor::calc_cords;
use topology_processor::encode_locations;
use topology_processor::split_batches;

fn sample_cords(n: usize) -> Vec<GridCoordinate> {
    (0..n)
        .map(|i| GridCoordinate {
            grid_x: (i % 50) as u32,
            grid_z: (i / 50) as u32,
            longitude: (i as i64) * 1_000,
            latitude: (i as i64) * 2_000,
        })
        .collect()
}

fn ok_arrivals(batches: &[Vec<GridCoordinate>]) -> Vec<Arrival> {
    batches
        .iter()
        .enumerate()
        .map(|(b, batch)| {
            let payload: Vec<i64> = batch.iter().map(|c| c.longitude + 7).collect();
            (b, Ok(payload))
        })
        .collect()
}

#[test]
fn batch_partition_250_by_100() {
    // 250 coordinates with batch_size=100 split into exactly [100, 100, 50],
    // contiguously and in order.
    let cords = sample_cords(250);
    let batches = split_batches(&cords, 100);
    assert_eq!(batches.len(), 3);
    assert_eq!(batches[0].len(), 100);
    assert_eq!(batches[1].len(), 100);
    assert_eq!(batches[2].len(), 50);
    let rejoined: Vec<GridCoordinate> = batches.iter().flatten().copied().collect();
    assert_eq!(rejoined, cords);
}

#[test]
fn batch_partition_exact_multiple_and_empty() {
    let cords = sample_cords(200);
    let batches = split_batches(&cords, 100);
    assert_eq!(batches.len(), 2);
    assert_eq!(batches[0].len(), 100);
    assert_eq!(batches[1].len(), 100);
    let none = split_batches(&Vec::new(), 100);
    assert_eq!(none.len(), 0);
}

#[test]
fn assembled_elevations_keep_original_order() {
    let cords = sample_cords(250);
    let batches = split_batches(&cords, 100);
    let arrivals = ok_arrivals(&batches);
    let heights = assemble_elevations(&batches, &arrivals).unwrap();
    assert_eq!(heights.len(), 250);
    for (i, h) in heights.iter().enumerate() {
        assert_eq!(*h, cords[i].longitude + 7);
    }
}

#[test]
fn arrival_order_does_not_change_assembly() {
    // Completing the batch requests in any order leaves the assembled
    // sequence identical: assembly is keyed by batch position.
    let cords = sample_cords(250);
    let batches = split_batches(&cords, 100);
    let in_order = ok_arrivals(&batches);
    let mut shuffled = ok_arrivals(&batches);
    shuffled.reverse();
    let a = assemble_elevations(&batches, &in_order).unwrap();
    let b = assemble_elevations(&batches, &shuffled).unwrap();
    assert_eq!(a, b);
}

#[test]
fn one_failed_batch_fails_the_fetch() {
    let cords = sample_cords(250);
    let batches = split_batches(&cords, 100);
    let mut arrivals = ok_arrivals(&batches);
    arrivals[1] = (1, Err(FetchErrorKind::Transport));
    let err = assemble_elevations(&batches, &arrivals).unwrap_err();
    match err {
        TerrainError::Fetch(f) => {
            assert_eq!(f.batch, 1);
            assert_eq!(f.kind, FetchErrorKind::Transport);
        },
        other => panic!("expected a fetch failure, got {:?}", other),
    }
}

#[test]
fn failed_batch_reported_whatever_its_arrival_position() {
    let cords = sample_cords(250);
    let batches = split_batches(&cords, 100);
    let mut arrivals = ok_arrivals(&batches);
    arrivals[2] = (2, Err(FetchErrorKind::Status));
    arrivals.reverse();
    let err = assemble_elevations(&batches, &arrivals).unwrap_err();
    assert!(matches!(err, TerrainError::Fetch(f) if f.batch == 2 && f.kind == FetchErrorKind::Status));
}

#[test]
fn malformed_response_is_its_own_kind() {
    let cords = sample_cords(10);
    let batches = split_batches(&cords, 100);
    let arrivals: Vec<Arrival> = vec![(0, Err(FetchErrorKind::MalformedResponse))];
    let err = assemble_elevations(&batches, &arrivals).unwrap_err();
    assert!(matches!(err, TerrainError::Fetch(f) if f.kind == FetchErrorKind::MalformedResponse));
}

#[test]
fn elevation_count_mismatch_is_detected() {
    let cords = sample_cords(150);
    let batches = split_batches(&cords, 100);
    let mut arrivals = ok_arrivals(&batches);
    // The second batch answers 49 elevations for 50 coordinates.
    let short: Vec<i64> = (0..49).map(|i| i as i64).collect();
    arrivals[1] = (1, Ok(short));
    let err = assemble_elevations(&batches, &arrivals).unwrap_err();
    match err {
        TerrainError::Consistency(c) => {
            assert_eq!(c.batch, 1);
            assert_eq!(c.expected, 50);
            assert_eq!(c.actual, 49);
        },
        other => panic!("expected a consistency error, got {:?}", other),
    }
}

#[test]
fn encode_single_coordinate() {
    let batch = vec![GridCoordinate {
        grid_x: 0,
        grid_z: 0,
        longitude: 9_500_000,
        latitude: 46_500_000,
    }];
    let payload = encode_locations(&batch);
    assert_eq!(payload, b"46.500000,9.500000".to_vec());
}

#[test]
fn encode_joins_with_pipe_and_keeps_signs() {
    let batch = vec![
        GridCoordinate { grid_x: 0, grid_z: 0, longitude: 9_500_000, latitude: 46_500_000 },
        GridCoordinate { grid_x: 1, grid_z: 0, longitude: 2_000_000, latitude: -1_234_567 },
    ];
    let payload = encode_locations(&batch);
    assert_eq!(payload, b"46.500000,9.500000|-1.234567,2.000000".to_vec());
}

#[test]
fn encode_sampled_batch_matches_grid_values() {
    let b = BoundingBox {
        min_lat: 46_500_000,
        max_lat: 49_000_000,
        min_lon: 9_500_000,
        max_lon: 17_500_000,
    };
    let cords = calc_cords(2, 2, &b).unwrap();
    let batches = split_batches(&cords, 100);
    assert_eq!(batches.len(), 1);
    let payload = encode_locations(&batches[0]);
    let text = String::from_utf8(payload).unwrap();
    // z=0 is max_lat; x=0 is min_lon; the second column is halfway.
    assert_eq!(
        text,
        "49.000000,9.500000|49.000000,13.500000|47.750000,9.500000|47.750000,13.500000"
    );
}
