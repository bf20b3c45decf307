use yer::preview::{
    poll_result, preview_levels, reused_sample_index, row_vertex_count, subdivisions_for_vertex_count,
    vertex_count, ComputePreviewResult, PreviewSchedule, ReceiverLockError, MAX_SUBDIVISIONS,
    MIN_SUBDIVISIONS, PREVIEW_TIME_BETWEEN_NANOS,
};

#[test]
fn preview_grid_subdivisions_are_calculated_correctly() {
    let cases: Vec<(u32, u8)> = vec![
        (4, 0),
        (9, 1),
        (25, 2),
        (81, 3),
        (289, 4),
        (1089, 5),
        (4225, 6),
        (16785409, 12),
    ];
    for (vertex_count, subdivisions) in cases.iter() {
        assert_eq!(subdivisions_for_vertex_count(*vertex_count), Some(*subdivisions));
    }
    assert_eq!(subdivisions_for_vertex_count(10), None);
}

#[test]
fn sample_layers_reuse_previous_previews_samples() {
    let previous_subdivisions = MIN_SUBDIVISIONS;
    let subdivisions = previous_subdivisions + 1;
    let k = row_vertex_count(subdivisions);
    let previous_count = vertex_count(previous_subdivisions) as usize;
    let mut hits = vec![0u32; previous_count];
    let mut reused = 0;
    for y in 0..k {
        for x in 0..k {
            if let Some(idx) = reused_sample_index(subdivisions, x, y) {
                hits[idx] += 1;
                reused += 1;
            }
        }
    }
    assert_eq!(reused, previous_count);
    assert!(hits.iter().all(|h| *h == 1));
    assert_eq!(reused_sample_index(subdivisions, 0, 0), Some(0));
    assert_eq!(reused_sample_index(subdivisions, k - 1, k - 1), Some(previous_count - 1));
}

#[test]
fn grid_sizes() {
    assert_eq!(row_vertex_count(0), 2);
    assert_eq!(row_vertex_count(3), 9);
    assert_eq!(row_vertex_count(MAX_SUBDIVISIONS), 4097);
    assert_eq!(vertex_count(3), 81);
    assert_eq!(reused_sample_index(4, 2, 4), Some(2 * 9 + 1));
    assert_eq!(reused_sample_index(4, 1, 4), None);
}

#[test]
fn compute_preview_returns_a_result_and_gets_finished() {
    let first: ComputePreviewResult<u32> = poll_result(5, Ok(Some(10)), false);
    assert_eq!(first, ComputePreviewResult::Result(5, 10));
    let second: ComputePreviewResult<u32> = poll_result(5, Ok(None), true);
    assert_eq!(second, ComputePreviewResult::Finished);
}

#[test]
fn compute_preview_returns_the_last_result_in_channel_and_gets_finished() {
    let results: Vec<ComputePreviewResult<u8>> = vec![
        poll_result(1, Ok(Some(MIN_SUBDIVISIONS + 2)), true),
        poll_result(1, Ok(None), true),
        poll_result(1, Ok(None), true),
    ];
    assert_eq!(results[0], ComputePreviewResult::Result(1, MIN_SUBDIVISIONS + 2));
    assert_eq!(results[1], ComputePreviewResult::Finished);
    assert_eq!(results[2], ComputePreviewResult::Finished);
}

#[test]
fn a_locked_receiver_means_still_computing() {
    let r: ComputePreviewResult<u8> = poll_result(1, Err(ReceiverLockError::WouldBlock), true);
    assert_eq!(r, ComputePreviewResult::Computing);
    let r: ComputePreviewResult<u8> = poll_result(1, Err(ReceiverLockError::Poisoned), false);
    assert_eq!(r, ComputePreviewResult::Computing);
    let r: ComputePreviewResult<u8> = poll_result(1, Ok(None), false);
    assert_eq!(r, ComputePreviewResult::Computing);
}

#[test]
fn previews_start_after_changes_and_are_spaced() {
    let mut schedule = PreviewSchedule::new();
    // Nothing was computed yet, but too little time passed since the start.
    assert!(!schedule.tick(50_000_000, false));
    assert!(schedule.tick(PREVIEW_TIME_BETWEEN_NANOS + 1, false));
    // Too soon after the last start.
    assert!(!schedule.tick(PREVIEW_TIME_BETWEEN_NANOS + 2, true));
    schedule.record_result(PREVIEW_TIME_BETWEEN_NANOS + 1);
    // A change after the result was shown starts a new preview once ready.
    assert!(schedule.tick(300_000_000, false));
    schedule.record_result(310_000_000);
    // No change since the result: nothing starts.
    assert!(!schedule.tick(900_000_000, false));
    assert!(schedule.tick(1_000_000_000, true));
}

#[test]
fn previews_go_through_the_levels_from_the_coarsest() {
    assert_eq!(preview_levels(5), vec![3, 4, 5]);
    assert_eq!(preview_levels(MIN_SUBDIVISIONS), vec![MIN_SUBDIVISIONS]);
    assert_eq!(preview_levels(2), Vec::<u8>::new());
    assert_eq!(preview_levels(MAX_SUBDIVISIONS).len(), 10);
}
