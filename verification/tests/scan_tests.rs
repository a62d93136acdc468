use mfl_inv::frames::{ByteOrder, FrameLayout};
use mfl_inv::noise::noise_bits;
use mfl_inv::progress::{
    crosses_report_boundary, progress_batches, INVERT_PROGRESS_BATCH, READ_PROGRESS_BATCH,
};
use mfl_inv::scan::{ScanGeometry, SegmentError, CHUNK_SAMPLES, OVERLAP_SAMPLES};

fn layout(num_sensors: usize, bytes_per_sample: usize) -> FrameLayout {
    FrameLayout { bytes_per_sample, num_sensors, byte_order: ByteOrder::LittleEndian }
}

#[test]
fn geometry_counts_whole_frames() {
    let g = ScanGeometry::new(7680 * 3 + 100, layout(64, 4));
    assert_eq!(g.frame_bytes(), 768);
    assert_eq!(g.total_samples(), 30);
    assert_eq!(g.num_sensors(), 64);
    assert_eq!(g.file_size(), 7680 * 3 + 100);

    let tiny = ScanGeometry::new(767, layout(64, 4));
    assert_eq!(tiny.total_samples(), 0);
}

#[test]
fn chunk_plan_overlaps_neighbouring_chunks() {
    let g = ScanGeometry::new(25_000 * 6, layout(1, 2));
    assert_eq!(g.total_samples(), 25_000);
    assert_eq!(g.chunk_plan(), vec![(0, 10_100), (9_900, 20_100), (19_900, 25_000)]);
}

#[test]
fn chunk_plan_of_small_and_empty_scans() {
    let empty = ScanGeometry::new(0, layout(4, 4));
    assert!(empty.chunk_plan().is_empty());

    let one = ScanGeometry::new(48 * 5, layout(4, 4));
    assert_eq!(one.chunk_plan(), vec![(0, 5)]);

    let exact = ScanGeometry::new(12 * 20_000, layout(1, 4));
    assert_eq!(exact.chunk_plan(), vec![(0, 10_100), (9_900, 20_000)]);
}

#[test]
fn chunk_plan_covers_every_sample() {
    let g = ScanGeometry::new(6 * 31_234, layout(1, 2));
    let plan = g.chunk_plan();
    let total = g.total_samples();
    assert_eq!(plan.len(), (total + CHUNK_SAMPLES - 1) / CHUNK_SAMPLES);
    for x in 0..total {
        let i = x / CHUNK_SAMPLES;
        assert!(plan[i].0 <= x && x < plan[i].1);
    }
    for w in plan.windows(2) {
        assert!(w[1].0 < w[0].1);
        assert_eq!(w[0].1 - w[1].0, 2 * OVERLAP_SAMPLES);
    }
    for &(start, end) in &plan {
        assert!(start < end && end <= total);
        assert!(g.segment_byte_range(start, end).is_ok());
    }
}

#[test]
fn segment_byte_range_inside_the_file() {
    let g = ScanGeometry::new(1000, layout(2, 4));
    assert_eq!(g.segment_byte_range(0, 41), Ok((0, 984)));
    assert_eq!(g.segment_byte_range(3, 5), Ok((72, 120)));
    assert_eq!(g.segment_byte_range(7, 7), Ok((168, 168)));
}

#[test]
fn segment_byte_range_past_the_end_is_out_of_bounds() {
    let g = ScanGeometry::new(1000, layout(2, 4));
    assert_eq!(
        g.segment_byte_range(40, 42),
        Err(SegmentError::OutOfBounds { end_byte: 1008, file_size: 1000 })
    );
}

#[test]
fn chunk_work_counts_sensor_readings() {
    let g = ScanGeometry::new(0, layout(64, 4));
    assert_eq!(g.chunk_work((9_900, 20_100)), 10_200 * 64);
    assert_eq!(g.chunk_work((5, 5)), 0);
}

#[test]
fn progress_batches_split_work() {
    assert_eq!(progress_batches(300, READ_PROGRESS_BATCH), vec![128, 128, 44]);
    assert_eq!(progress_batches(512, INVERT_PROGRESS_BATCH), vec![256, 256]);
    assert_eq!(progress_batches(5, 256), vec![5]);
    assert_eq!(progress_batches(0, 128), Vec::<u64>::new());
}

#[test]
fn progress_batches_add_up_to_the_work() {
    for work in [0u64, 1, 127, 128, 129, 1000, 65_536, 123_457] {
        for batch in [1u64, 7, 128, 256] {
            let b = progress_batches(work, batch);
            assert_eq!(b.iter().sum::<u64>(), work);
            assert!(b.iter().all(|&x| x > 0 && x <= batch));
        }
    }
}

#[test]
fn report_boundary_detection() {
    assert!(!crosses_report_boundary(0, 255));
    assert!(crosses_report_boundary(0, 256));
    assert!(crosses_report_boundary(255, 1));
    assert!(!crosses_report_boundary(256, 255));
    assert!(crosses_report_boundary(100, 1000));
    assert!(!crosses_report_boundary(300, 0));
}

#[test]
fn report_boundary_matches_multiples_in_range() {
    for prev in 0u64..600 {
        for delta in [0u64, 1, 2, 100, 255, 256, 257, 600] {
            let has_multiple = (prev + 1..=prev + delta).any(|x| x % 256 == 0);
            assert_eq!(crosses_report_boundary(prev, delta), has_multiple);
        }
    }
}

#[test]
fn noise_bits_exact_values() {
    assert_eq!(noise_bits(0), 1_442_695_452_758_406_900);
    assert_eq!(noise_bits(1), 7_806_828_115_258_270_307);
    assert_eq!(noise_bits(42), 10_482_003_227_467_920_014);
}

#[test]
fn noise_bits_wraps_around() {
    let x = u64::MAX.wrapping_mul(6_364_136_223_846_793_005).wrapping_add(1_442_695_040_888_963_407);
    assert_eq!(noise_bits(u64::MAX), x ^ (x >> 21));
}
