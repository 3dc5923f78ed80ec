use chessdata::shuffle::{bucket_of, partition_into_buckets, BucketDrain, InterleaveState};
use chessdata::SUBFILE_SIZE;
use chessdata::PackedSample;

fn labeled_record(label: u16) -> PackedSample {
    let mut bytes = vec![0u8; 32];
    bytes[26] = (label % 256) as u8;
    bytes[27] = (label / 256) as u8;
    bytes[31] = 0b11;
    PackedSample::from_bytes(&bytes, 0)
}

fn label_of(record: &PackedSample) -> u16 {
    let bytes = record.to_bytes();
    bytes[26] as u16 + 256 * bytes[27] as u16
}

fn drain_all(records: Vec<PackedSample>) -> Vec<u16> {
    let total = records.len() as u64;
    let buckets = partition_into_buckets(&records);
    let mut state = InterleaveState::new(buckets, total);
    let mut labels = Vec::new();
    while !state.done() {
        if let Some(record) = state.step_random() {
            labels.push(label_of(&record));
        }
    }
    labels
}

#[test]
fn small_sources_fit_one_bucket() {
    let records: Vec<PackedSample> = (0..5u16).map(labeled_record).collect();
    let buckets = partition_into_buckets(&records);
    assert_eq!(buckets.len(), 1);
    assert_eq!(buckets[0].len(), 5);
    for draw in 0..5u64 {
        assert_eq!(bucket_of(draw, 5), 0);
    }
}

#[test]
fn draws_map_to_buckets_by_range() {
    // A source one bucket and five records long: draws below the bucket
    // capacity pick the full first bucket, the rest pick the remainder.
    let total = SUBFILE_SIZE + 5;
    assert_eq!(bucket_of(0, total), 0);
    assert_eq!(bucket_of(SUBFILE_SIZE - 1, total), 0);
    assert_eq!(bucket_of(SUBFILE_SIZE, total), 1);
    assert_eq!(bucket_of(total - 1, total), 1);
    // An exact multiple of the capacity has only full buckets.
    assert_eq!(bucket_of(2 * SUBFILE_SIZE - 1, 2 * SUBFILE_SIZE), 1);
    assert_eq!(bucket_of(0, 2 * SUBFILE_SIZE), 0);
}

#[test]
fn drain_counts_every_bucket_down() {
    // Counts only, so a multi-bucket layout costs nothing: one full
    // bucket and a two-record remainder.
    let total = SUBFILE_SIZE + 2;
    let mut drain = BucketDrain::new(total);
    assert!(!drain.done());

    // Drain the remainder bucket first.
    assert_eq!(drain.step(SUBFILE_SIZE), Some(1));
    assert_eq!(drain.step(total - 1), Some(1));
    // Further draws into the exhausted bucket are rejected, and change
    // nothing.
    assert_eq!(drain.step(SUBFILE_SIZE), None);
    assert!(!drain.done());
    // The full bucket still hands out every one of its records.
    for draw in 0..SUBFILE_SIZE {
        assert_eq!(drain.step(draw), Some(0));
    }
    assert!(drain.done());
    assert_eq!(drain.step(0), None);
}

#[test]
fn empty_source_shuffles_to_nothing() {
    let records: Vec<PackedSample> = Vec::new();
    let buckets = partition_into_buckets(&records);
    assert_eq!(buckets.len(), 0);
    let state = InterleaveState::new(buckets, 0);
    assert!(state.done());
}

#[test]
fn shuffle_is_a_permutation() {
    let records: Vec<PackedSample> = (0..1000u16).map(labeled_record).collect();
    let mut labels = drain_all(records);
    assert_eq!(labels.len(), 1000);
    labels.sort();
    let expected: Vec<u16> = (0..1000).collect();
    assert_eq!(labels, expected);
}

fn identity_correlation(labels: &[u16]) -> f64 {
    // Spearman rank correlation with the input order: the labels are the
    // input ranks, their positions the output ranks.
    let n = labels.len() as f64;
    let mean = (n - 1.0) / 2.0;
    let mut cov = 0.0;
    let mut var = 0.0;
    for (pos, &label) in labels.iter().enumerate() {
        let x = pos as f64 - mean;
        let y = label as f64 - mean;
        cov += x * y;
        var += x * x;
    }
    cov / var
}

#[test]
fn shuffle_randomizes() {
    let n = 10_000u16;
    let identity: Vec<u16> = (0..n).collect();
    for _ in 0..2 {
        let records: Vec<PackedSample> = (0..n).map(labeled_record).collect();
        let labels = drain_all(records);
        assert_eq!(labels.len(), n as usize);
        assert_ne!(labels, identity, "output kept the input order");
        let rho = identity_correlation(&labels);
        assert!(
            rho.abs() < 0.05,
            "order correlates with the input: rho = {}",
            rho
        );
    }
}
