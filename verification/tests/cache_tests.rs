use connect_four_engine::{Cache, BUFFER_DELIMIT, MAX_SCORE, MIN_SCORE};

fn push_le32(bytes: &mut Vec<u8>, v: u32) {
    bytes.push((v & 0xff) as u8);
    bytes.push(((v >> 8) & 0xff) as u8);
    bytes.push(((v >> 16) & 0xff) as u8);
    bytes.push(((v >> 24) & 0xff) as u8);
}

/// A book holding `entries[k]` as the keys of score `MIN_SCORE + k`.
fn book_bytes(max_depth: u8, entries: &[Vec<u32>]) -> Vec<u8> {
    let mut bytes = vec![max_depth];
    for group in entries {
        for key in group {
            push_le32(&mut bytes, *key);
        }
        push_le32(&mut bytes, BUFFER_DELIMIT);
    }
    bytes
}

#[test]
fn cache_basic_operations() {
    let mut cache = Cache::new(12);
    assert_eq!(cache.max_depth(), 12);
    assert!(cache.is_empty());
    assert_eq!(cache.len(), 0);
    assert_eq!(cache.get(&99), None);

    cache.insert(99, 7);
    cache.insert(100, -3);
    assert_eq!(cache.len(), 2);
    assert_eq!(cache.get(&99), Some(7));
    assert_eq!(cache.get(&100), Some(-3));

    cache.insert(99, 5);
    assert_eq!(cache.len(), 2);
    assert_eq!(cache.get(&99), Some(5));

    cache.clear();
    assert!(cache.is_empty());
    assert_eq!(cache.get(&99), None);
}

#[test]
fn from_bytes_reads_groups() {
    let n_groups = (MAX_SCORE - MIN_SCORE + 1) as usize;
    let mut groups: Vec<Vec<u32>> = vec![Vec::new(); n_groups];
    groups[0].push(300); // score MIN_SCORE
    groups[n_groups - 1].push(3000); // score MAX_SCORE
    groups[18].push(42); // score 0

    let cache = Cache::from_bytes(book_bytes(9, &groups)).unwrap();
    assert_eq!(cache.max_depth(), 9);
    assert_eq!(cache.len(), 3);
    assert_eq!(cache.get(&300), Some(MIN_SCORE));
    assert_eq!(cache.get(&3000), Some(MAX_SCORE));
    assert_eq!(cache.get(&42), Some(0));
    assert_eq!(cache.get(&1), None);
}

#[test]
fn from_bytes_rejects_truncated() {
    // one delimiter short of the MAX_SCORE terminator
    let n_groups = (MAX_SCORE - MIN_SCORE) as usize;
    let groups: Vec<Vec<u32>> = vec![Vec::new(); n_groups];
    assert!(Cache::from_bytes(book_bytes(9, &groups)).is_none());
}

#[test]
fn from_bytes_rejects_empty() {
    assert!(Cache::from_bytes(Vec::new()).is_none());
}

#[test]
fn from_bytes_ignores_trailing_bytes() {
    let n_groups = (MAX_SCORE - MIN_SCORE + 1) as usize;
    let mut groups: Vec<Vec<u32>> = vec![Vec::new(); n_groups];
    groups[0].push(300);
    let mut bytes = book_bytes(4, &groups);
    bytes.push(0xaa);
    let cache = Cache::from_bytes(bytes).unwrap();
    assert_eq!(cache.len(), 1);
    assert_eq!(cache.get(&300), Some(MIN_SCORE));
}
