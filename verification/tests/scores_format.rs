use tet_rs::scores::{ScoreEntry, ScoreError, ScoreTable};

fn entry(name: &str, score: u64) -> ScoreEntry {
    ScoreEntry { name: name.as_bytes().to_vec(), score }
}

fn table_pairs(t: &ScoreTable) -> Vec<(Vec<u8>, u64)> {
    let mut v = Vec::new();
    for i in 0..t.len() {
        let e = t.entry(i);
        v.push((e.name, e.score));
    }
    v
}

/// The exact bytes of a one-entry file: magic, count, length-prefixed name,
/// little-endian score.
#[test]
fn encode_exact_bytes() {
    let mut t = ScoreTable::new();
    t.insert(entry("AB", 5));
    let bytes = t.encode();
    let mut expected = b"tet.rs 1".to_vec();
    expected.push(1);
    expected.push(2);
    expected.extend_from_slice(b"AB");
    expected.extend_from_slice(&[5, 0, 0, 0, 0, 0, 0, 0]);
    assert_eq!(bytes, expected);
}

/// Entries are written worst first: ascending by score on disk.
#[test]
fn encode_writes_ascending() {
    let mut t = ScoreTable::new();
    t.insert(entry("A", 10));
    t.insert(entry("B", 30));
    t.insert(entry("C", 20));
    let bytes = t.encode();
    assert_eq!(&bytes[0..8], b"tet.rs 1");
    assert_eq!(bytes[8], 3);
    // first written entry is the worst one
    assert_eq!(bytes[9], 1);
    assert_eq!(bytes[10], b'A');
    assert_eq!(bytes[11], 10);
}

/// Saving and reloading reproduces the same (name, score) pairs sorted
/// descending by score.
#[test]
fn round_trip_small_table() {
    let mut t = ScoreTable::new();
    t.insert(entry("ONE", 100));
    t.insert(entry("TWO", 300));
    t.insert(entry("SIX", 200));
    let bytes = t.encode();
    let u = ScoreTable::decode(&bytes).unwrap();
    assert_eq!(
        table_pairs(&u),
        vec![
            (b"TWO".to_vec(), 300),
            (b"SIX".to_vec(), 200),
            (b"ONE".to_vec(), 100),
        ]
    );
}

/// Saving more than ten entries keeps only the top ten by score.
#[test]
fn round_trip_truncates_to_top_ten() {
    let mut t = ScoreTable::new();
    for i in 0..12u64 {
        t.insert(entry("P", 1000 - i));
    }
    // the in-memory table is already capped at ten
    assert_eq!(t.len(), 10);
    let bytes = t.encode();
    assert_eq!(bytes[8], 10);
    let u = ScoreTable::decode(&bytes).unwrap();
    assert_eq!(u.len(), 10);
    for i in 0..10usize {
        assert_eq!(u.entry(i).score, 1000 - i as u64);
    }
}

/// Insertion keeps the table sorted descending and capped at ten; a new
/// high score pushes the worst entry out.
#[test]
fn insert_sorts_and_caps() {
    let mut t = ScoreTable::new();
    for i in 0..10u64 {
        t.insert(entry("X", 100 + i));
    }
    assert_eq!(t.entry(9).score, 100);
    t.insert(entry("HI", 500));
    assert_eq!(t.len(), 10);
    assert_eq!(t.entry(0).score, 500);
    assert_eq!(t.entry(0).name, b"HI".to_vec());
    // the old worst entry (100) is gone
    assert_eq!(t.entry(9).score, 101);
}

/// The loader re-sorts descending whatever order the file held.
#[test]
fn decode_resorts_descending() {
    let mut bytes = b"tet.rs 1".to_vec();
    bytes.push(2);
    bytes.push(1);
    bytes.push(b'H');
    bytes.extend_from_slice(&[200, 0, 0, 0, 0, 0, 0, 0]);
    bytes.push(1);
    bytes.push(b'L');
    bytes.extend_from_slice(&[50, 0, 0, 0, 0, 0, 0, 0]);
    let t = ScoreTable::decode(&bytes).unwrap();
    assert_eq!(
        table_pairs(&t),
        vec![(b"H".to_vec(), 200), (b"L".to_vec(), 50)]
    );
}

#[test]
fn decode_rejects_wrong_magic() {
    let mut bytes = b"tet.rs 2".to_vec();
    bytes.push(0);
    assert!(matches!(ScoreTable::decode(&bytes), Err(ScoreError::BadMagic)));
}

#[test]
fn decode_rejects_short_data() {
    let bytes = b"tet.r".to_vec();
    assert!(matches!(ScoreTable::decode(&bytes), Err(ScoreError::Truncated)));
    let bytes = b"tet.rs 1".to_vec();
    assert!(matches!(ScoreTable::decode(&bytes), Err(ScoreError::Truncated)));
}

#[test]
fn decode_rejects_truncated_entry() {
    let mut bytes = b"tet.rs 1".to_vec();
    bytes.push(1);
    bytes.push(3);
    bytes.extend_from_slice(b"AB"); // name cut short, score missing
    assert!(matches!(ScoreTable::decode(&bytes), Err(ScoreError::Truncated)));
}

#[test]
fn decode_rejects_trailing_bytes() {
    let mut t = ScoreTable::new();
    t.insert(entry("A", 1));
    let mut bytes = t.encode();
    bytes.push(0);
    assert!(matches!(ScoreTable::decode(&bytes), Err(ScoreError::TrailingData)));
}

#[test]
fn decode_empty_table() {
    let mut bytes = b"tet.rs 1".to_vec();
    bytes.push(0);
    let t = ScoreTable::decode(&bytes).unwrap();
    assert_eq!(t.len(), 0);
}

/// A large score survives the eight-byte little-endian round trip.
#[test]
fn round_trip_large_score() {
    let mut t = ScoreTable::new();
    t.insert(entry("BIG", 0xDEAD_BEEF_CAFE_F00D));
    let bytes = t.encode();
    let u = ScoreTable::decode(&bytes).unwrap();
    assert_eq!(u.entry(0).score, 0xDEAD_BEEF_CAFE_F00D);
}
