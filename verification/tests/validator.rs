use lcc_lib::password_filter::{check_keys, construct_filter, ConstructionError, PasswordFilter};
use lcc_lib::validator::{
    count_positives, exceeds_expected_rate, first_missing, judge, sample_positives, test_filter,
    ValidationError, TEST_ITERATIONS,
};


fn build_sound(keys: &Vec<u64>) -> Result<PasswordFilter, ConstructionError> {
    check_keys(keys)?;
    let built = if keys.is_empty() {
        None
    } else {
        xorf::BinaryFuse32::try_from_iterator(keys.iter().copied()).ok()
    };
    construct_filter(keys, built)
}

fn some_keys(n: u64) -> Vec<u64> {
    (0..n).map(|i| (i + 1).wrapping_mul(0xD6E8FEB86659FD93)).collect()
}

#[test]
fn built_filter_misses_nothing() {
    let keys = some_keys(2000);
    let filter = build_sound(&keys).unwrap();
    assert_eq!(first_missing(&filter, &keys), None);
    assert_eq!(count_positives(&filter, &keys), keys.len());
}

#[test]
fn first_missing_key_is_named() {
    let filter = build_sound(&vec![10, 20, 30]).unwrap();
    assert_eq!(first_missing(&filter, &vec![10, 20, 0xDEAD_BEEF_0000_0001, 30, 0xFEED]), Some(2));
    assert_eq!(first_missing(&filter, &vec![0xDEAD_BEEF_0000_0001]), Some(0));
    assert_eq!(first_missing(&filter, &Vec::new()), None);
    let empty = build_sound(&Vec::new()).unwrap();
    assert_eq!(first_missing(&empty, &vec![10]), Some(0));
}

#[test]
fn positives_are_counted() {
    let filter = build_sound(&vec![10, 20, 30]).unwrap();
    assert_eq!(count_positives(&filter, &vec![10, 0x1111_2222_3333_4444, 30, 30]), 3);
    assert_eq!(count_positives(&filter, &Vec::new()), 0);
    let empty = build_sound(&Vec::new()).unwrap();
    assert_eq!(count_positives(&empty, &vec![10, 20]), 0);
}

#[test]
fn sampling_counts_no_more_than_it_draws() {
    let filter = build_sound(&some_keys(1000)).unwrap();
    assert_eq!(sample_positives(&filter, 0), 0);
    let positives = sample_positives(&filter, 50_000);
    assert!(positives <= 50_000);
    assert!(positives < 3);
    let empty = build_sound(&Vec::new()).unwrap();
    assert_eq!(sample_positives(&empty, 10_000), 0);
}

#[test]
fn tolerance_is_a_thousandth_of_a_percent() {
    // Empty corpus: the rate itself must stay within 0.001 percent.
    assert!(!exceeds_expected_rate(0, 1_000_000, 0));
    assert!(!exceeds_expected_rate(10, 1_000_000, 0));
    assert!(exceeds_expected_rate(11, 1_000_000, 0));
    assert!(!exceeds_expected_rate(100_000, TEST_ITERATIONS, 0));
    assert!(exceeds_expected_rate(100_001, TEST_ITERATIONS, 0));
    assert!(!exceeds_expected_rate(1, 100_000, 0));
    assert!(exceeds_expected_rate(1, 99_999, 0));
}

#[test]
fn expected_rate_is_the_share_of_the_corpus() {
    // Half of all keys: 50 percent are expected.
    let half = 1u64 << 63;
    assert!(!exceeds_expected_rate(500_000, 1_000_000, half));
    assert!(!exceeds_expected_rate(500_010, 1_000_000, half));
    assert!(exceeds_expected_rate(500_011, 1_000_000, half));
    assert!(!exceeds_expected_rate(0, 1_000_000, half));
    // A quarter.
    let quarter = 1u64 << 62;
    assert!(!exceeds_expected_rate(250_010, 1_000_000, quarter));
    assert!(exceeds_expected_rate(250_011, 1_000_000, quarter));
    // A corpus of a billion keys among 2^64 expects next to nothing.
    assert!(!exceeds_expected_rate(100_000, TEST_ITERATIONS, 1_000_000_000));
    assert!(exceeds_expected_rate(100_001, TEST_ITERATIONS, 1_000_000_000));
}

#[test]
fn rate_is_decided_at_the_limits_of_the_integers() {
    assert!(!exceeds_expected_rate(0, 0, 0));
    assert!(!exceeds_expected_rate(0, 0, u64::MAX));
    assert!(!exceeds_expected_rate(u64::MAX, u64::MAX, u64::MAX));
    assert!(exceeds_expected_rate(u64::MAX, u64::MAX, 0));
    assert!(exceeds_expected_rate(u64::MAX, u64::MAX, u64::MAX - (1 << 50)));
    assert!(!exceeds_expected_rate(0, u64::MAX, u64::MAX));
    assert!(exceeds_expected_rate(3, 1, 0));
}

#[test]
fn a_missed_key_fails_whatever_the_rate() {
    assert_eq!(judge(Some(7), 0, 1000, 10), Err(ValidationError::FalseNegative { key: 7 }));
    assert_eq!(judge(Some(7), 1000, 1000, 10), Err(ValidationError::FalseNegative { key: 7 }));
    assert_eq!(judge(None, 0, 1000, 10), Ok(0));
    assert_eq!(
        judge(None, 1000, 1000, 10),
        Err(ValidationError::FalsePositiveRate { positives: 1000 })
    );
    assert_eq!(judge(None, 0, 0, 0), Ok(0));
    assert_eq!(judge(None, 10, 1_000_000, 0), Ok(10));
}

#[test]
fn sound_filter_passes_validation() {
    let keys = some_keys(3000);
    let filter = build_sound(&keys).unwrap();
    let positives = test_filter(&filter, &keys, keys.len(), 100_000).unwrap();
    assert!(positives <= 1);
    assert_eq!(test_filter(&filter, &keys, keys.len(), 0), Ok(0));
}

#[test]
fn filter_of_another_corpus_fails_validation() {
    let filter = build_sound(&some_keys(100)).unwrap();
    let other = vec![0x0123_4567_89AB_CDEF, 0x0FED_CBA9_8765_4321];
    assert_eq!(
        test_filter(&filter, &other, 2, 1000),
        Err(ValidationError::FalseNegative { key: 0x0123_4567_89AB_CDEF })
    );
    let empty = build_sound(&Vec::new()).unwrap();
    assert_eq!(test_filter(&empty, &vec![5], 1, 10), Err(ValidationError::FalseNegative { key: 5 }));
    assert_eq!(test_filter(&empty, &Vec::new(), 0, 1000), Ok(0));
}

#[test]
fn default_sample_is_ten_billion() {
    assert_eq!(TEST_ITERATIONS, 10_000_000_000);
}
