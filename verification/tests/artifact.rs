use lcc_lib::artifact::{decode, encode, CorruptArtifact};
use lcc_lib::password_filter::{check_keys, construct_filter, ConstructionError, PasswordFilter};
use lcc_lib::util::License;


fn build_stored(keys: &Vec<u64>) -> Result<PasswordFilter, ConstructionError> {
    check_keys(keys)?;
    let built = if keys.is_empty() {
        None
    } else {
        xorf::BinaryFuse32::try_from_iterator(keys.iter().copied()).ok()
    };
    construct_filter(keys, built)
}

fn spread_keys(n: u64) -> Vec<u64> {
    (0..n).map(|i| i.wrapping_mul(0x9E3779B97F4A7C15) ^ 0x5555).collect()
}

fn record(tag: &str) -> License {
    License {
        part: format!("part {}", tag),
        author: format!("author {}", tag),
        owner_url: format!("https://owner.example/{}", tag),
        project_url: String::new(),
        license: format!("license \u{a9} {} \u{4e2d}\u{6587}", tag),
    }
}

fn same_records(a: &[License], b: &[License]) -> bool {
    a.len() == b.len()
        && a.iter().zip(b).all(|(x, y)| {
            x.part == y.part
                && x.author == y.author
                && x.owner_url == y.owner_url
                && x.project_url == y.project_url
                && x.license == y.license
        })
}

#[test]
fn stored_filter_answers_as_before() {
    let keys = spread_keys(5000);
    let filter = build_stored(&keys).unwrap();
    let restored = decode(&encode(&filter)).unwrap();
    for key in &keys {
        assert!(restored.contains(key));
    }
    for key in spread_keys(20_000).iter().map(|k| k.rotate_left(17)) {
        assert_eq!(restored.contains(&key), filter.contains(&key));
    }
    assert_eq!(restored.len(), filter.len());
    assert_eq!(restored.layout(), filter.layout());
    for i in 0..filter.len() {
        assert_eq!(restored.slot(i), filter.slot(i));
    }
    assert!(same_records(restored.licenses(), filter.licenses()));
    assert_eq!(restored.licenses().len(), 2);
}

#[test]
fn stored_bytes_are_the_same_again() {
    let filter = build_stored(&spread_keys(300)).unwrap();
    let bytes = encode(&filter);
    let restored = decode(&bytes).unwrap();
    assert_eq!(encode(&restored), bytes);
}

#[test]
fn empty_filter_is_stored_too() {
    let filter = build_stored(&Vec::new()).unwrap();
    let bytes = encode(&filter);
    let restored = decode(&bytes).unwrap();
    assert!(restored.is_empty());
    assert!(!restored.contains(&0));
    assert!(same_records(restored.licenses(), filter.licenses()));
}

#[test]
fn bytes_follow_the_layout() {
    let raw = xorf::BinaryFuse32 {
        descriptor: xorf::Descriptor {
            seed: 0x0102030405060708,
            segment_length: 1,
            segment_length_mask: 0,
            segment_count_length: 1,
        },
        fingerprints: vec![0xA1B2C3D4, 2, 3].into_boxed_slice(),
    };
    let one = License {
        part: "p".to_string(),
        author: String::new(),
        owner_url: "o".to_string(),
        project_url: "\u{e9}".to_string(),
        license: "MIT".to_string(),
    };
    let filter = PasswordFilter::new(raw, vec![one]).unwrap();
    let mut expected: Vec<u8> = Vec::new();
    expected.extend([3, 0, 0, 0, 0, 0, 0, 0]);
    expected.push(32);
    expected.extend([8, 7, 6, 5, 4, 3, 2, 1]);
    expected.extend([1, 0, 0, 0]);
    expected.extend([0, 0, 0, 0]);
    expected.extend([1, 0, 0, 0]);
    expected.extend([0xD4, 0xC3, 0xB2, 0xA1]);
    expected.extend([2, 0, 0, 0]);
    expected.extend([3, 0, 0, 0]);
    expected.extend([1, 0, 0, 0, 0, 0, 0, 0]);
    expected.extend([1, 0, 0, 0, 0, 0, 0, 0]);
    expected.push(b'p');
    expected.extend([0, 0, 0, 0, 0, 0, 0, 0]);
    expected.extend([1, 0, 0, 0, 0, 0, 0, 0]);
    expected.push(b'o');
    expected.extend([2, 0, 0, 0, 0, 0, 0, 0]);
    expected.extend([0xC3, 0xA9]);
    expected.extend([3, 0, 0, 0, 0, 0, 0, 0]);
    expected.extend(*b"MIT");
    assert_eq!(encode(&filter), expected);
    let restored = decode(&expected).unwrap();
    assert_eq!(restored.slot(0), 0xA1B2C3D4);
    assert_eq!(restored.layout().seed, 0x0102030405060708);
    assert_eq!(restored.licenses()[0].project_url, "\u{e9}");
    assert_eq!(restored.licenses()[0].license, "MIT");
}

#[test]
fn license_records_come_back_verbatim() {
    let raw = xorf::BinaryFuse32::try_from(&spread_keys(50)).unwrap();
    let records = vec![record("a"), record("b"), record(""), record("\u{1F600}")];
    let filter = PasswordFilter::new(raw, records.clone()).unwrap();
    let restored = decode(&encode(&filter)).unwrap();
    assert!(same_records(restored.licenses(), &records));
    let none = PasswordFilter::new(xorf::BinaryFuse32::try_from(&spread_keys(5)).unwrap(), Vec::new()).unwrap();
    assert!(decode(&encode(&none)).unwrap().licenses().is_empty());
}

#[test]
fn short_reads_are_corrupt() {
    let filter = build_stored(&spread_keys(40)).unwrap();
    let bytes = encode(&filter);
    for cut in [0, 1, 7, 8, 9, 16, 28, 29, 30, bytes.len() / 2, bytes.len() - 9, bytes.len() - 1] {
        assert_eq!(decode(&bytes[..cut].to_vec()).err(), Some(CorruptArtifact), "cut at {}", cut);
    }
}

#[test]
fn every_proper_prefix_is_corrupt() {
    let filter = build_stored(&vec![1, 2, 3]).unwrap();
    let bytes = encode(&filter);
    for cut in 0..bytes.len() {
        assert!(decode(&bytes[..cut].to_vec()).is_err(), "cut at {}", cut);
    }
    assert!(decode(&bytes).is_ok());
}

#[test]
fn left_over_bytes_are_corrupt() {
    let filter = build_stored(&spread_keys(40)).unwrap();
    let mut bytes = encode(&filter);
    bytes.push(0);
    assert_eq!(decode(&bytes).err(), Some(CorruptArtifact));
}

#[test]
fn another_width_is_corrupt() {
    let filter = build_stored(&spread_keys(40)).unwrap();
    let bytes = encode(&filter);
    assert_eq!(bytes[8], 32);
    for width in [0u8, 8, 16, 31, 33, 64] {
        let mut changed = bytes.clone();
        changed[8] = width;
        assert_eq!(decode(&changed).err(), Some(CorruptArtifact));
    }
}

#[test]
fn bad_length_prefixes_are_corrupt() {
    let filter = build_stored(&spread_keys(40)).unwrap();
    let bytes = encode(&filter);
    // The number of slots.
    let mut more_slots = bytes.clone();
    more_slots[0] = more_slots[0].wrapping_add(1);
    assert!(decode(&more_slots).is_err());
    let mut huge_slots = bytes.clone();
    huge_slots[..8].copy_from_slice(&u64::MAX.to_le_bytes());
    assert!(decode(&huge_slots).is_err());
    // The number of records.
    let at = 8 + 1 + 20 + 4 * filter.len();
    assert_eq!(bytes[at..at + 8], 2u64.to_le_bytes());
    let mut more_records = bytes.clone();
    more_records[at] = 3;
    assert!(decode(&more_records).is_err());
    let mut fewer_records = bytes.clone();
    fewer_records[at] = 1;
    assert!(decode(&fewer_records).is_err());
    let mut huge_records = bytes.clone();
    huge_records[at..at + 8].copy_from_slice(&u64::MAX.to_le_bytes());
    assert!(decode(&huge_records).is_err());
    // The length of the first text.
    let mut longer_text = bytes.clone();
    longer_text[at + 8..at + 16].copy_from_slice(&u64::MAX.to_le_bytes());
    assert!(decode(&longer_text).is_err());
}

#[test]
fn text_that_is_no_utf8_is_corrupt() {
    let raw = xorf::BinaryFuse32::try_from(&spread_keys(5)).unwrap();
    let filter = PasswordFilter::new(raw, vec![record("x")]).unwrap();
    let mut bytes = encode(&filter);
    let at = 8 + 1 + 20 + 4 * filter.len() + 8 + 8;
    assert_eq!(bytes[at], b'p');
    bytes[at] = 0xFF;
    assert_eq!(decode(&bytes).err(), Some(CorruptArtifact));
}

#[test]
fn layout_that_does_not_fit_is_corrupt() {
    let filter = build_stored(&spread_keys(40)).unwrap();
    let bytes = encode(&filter);
    // The segment length, its mask and the length of the segments.
    for field in [17usize, 21, 25] {
        let mut changed = bytes.clone();
        changed[field] ^= 0x01;
        assert_eq!(decode(&changed).err(), Some(CorruptArtifact), "field at {}", field);
    }
    // Another seed reads the same table otherwise: it is no fault of form.
    let mut seed = bytes.clone();
    seed[9] ^= 0x01;
    assert!(decode(&seed).is_ok());
}

#[test]
fn no_bytes_are_corrupt() {
    assert_eq!(decode(&Vec::new()).err(), Some(CorruptArtifact));
    assert_eq!(decode(&vec![0u8; 8]).err(), Some(CorruptArtifact));
}

#[test]
fn smallest_artifact_is_the_empty_filter() {
    let mut bytes = vec![0u8; 8];
    bytes.push(32);
    bytes.extend([0u8; 20]);
    bytes.extend([0u8; 8]);
    let filter = decode(&bytes).unwrap();
    assert!(filter.is_empty());
    assert!(filter.licenses().is_empty());
    assert!(!filter.contains(&42));
    assert_eq!(encode(&filter), bytes);
}
