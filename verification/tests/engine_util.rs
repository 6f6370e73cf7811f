use aegisdb::engine_util::iterator::{CFItem, DBItem, PrefixCursor};
use std::collections::BTreeMap;
use aegisdb::engine_util::util::{bytes_less, exceed_end_key, key_with_cf, CF_DEFAULT, CF_LOCK, CF_WRITE};
use aegisdb::engine_util::wal::{WalEntryType, WalManager};
use aegisdb::engine_util::write_batch::{BatchEntry, WriteBatch};

fn entry_keys(wb: &WriteBatch) -> Vec<Vec<u8>> {
    wb.entries()
        .iter()
        .map(|e| match e {
            BatchEntry::Put { key, .. } => key.clone(),
            BatchEntry::Delete { key } => key.clone(),
        })
        .collect()
}

#[test]
fn test_key_with_cf() {
    let key = key_with_cf("default", b"key1");
    assert_eq!(key, b"default_key1");

    let key2 = key_with_cf("write", b"test");
    assert_eq!(key2, b"write_test");
}

#[test]
fn test_exceed_end_key() {
    assert!(!exceed_end_key(b"a", b"b"));
    assert!(exceed_end_key(b"b", b"a"));
    assert!(exceed_end_key(b"a", b"a"));
    assert!(!exceed_end_key(b"a", b""));
}

#[test]
fn test_wal_manager() {
    let mut wal = WalManager::new();

    let seq1 = wal.add_entry(WalEntryType::KvWrite, b"data1".to_vec());
    let seq2 = wal.add_entry(WalEntryType::RaftLog, b"data2".to_vec());

    assert_eq!(seq1, 0);
    assert_eq!(seq2, 1);
    assert_eq!(wal.pending_count(), 2);
}

#[test]
fn test_write_batch_reset() {
    let mut wb = WriteBatch::new();
    wb.set_cf("default", b"key1", b"value1");
    assert_eq!(wb.len(), 1);

    wb.reset();
    assert_eq!(wb.len(), 0);
}

#[test]
fn test_write_batch_put_and_delete() {
    let mut wb = WriteBatch::new();
    wb.set_cf("default", b"key1", b"value1");
    wb.set_cf("default", b"key2", b"value2");
    assert_eq!(wb.len(), 2);
    match &wb.entries()[0] {
        BatchEntry::Put { key, value } => {
            assert_eq!(key, b"default_key1");
            assert_eq!(value, b"value1");
        }
        BatchEntry::Delete { .. } => panic!("expected a put"),
    }
    match &wb.entries()[1] {
        BatchEntry::Put { key, value } => {
            assert_eq!(key, b"default_key2");
            assert_eq!(value, b"value2");
        }
        BatchEntry::Delete { .. } => panic!("expected a put"),
    }

    let mut wb2 = WriteBatch::new();
    wb2.delete_cf("default", b"key1");
    assert_eq!(wb2.len(), 1);
    match &wb2.entries()[0] {
        BatchEntry::Delete { key } => assert_eq!(key, b"default_key1"),
        BatchEntry::Put { .. } => panic!("expected a delete"),
    }
}

#[test]
fn test_write_batch_safe_point() {
    let mut wb = WriteBatch::new();
    wb.set_cf("default", b"key1", b"value1");
    wb.set_safe_point();
    wb.set_cf("default", b"key2", b"value2");
    wb.set_cf("default", b"key3", b"value3");

    wb.rollback_to_safe_point();
    assert_eq!(wb.len(), 1);
    assert_eq!(entry_keys(&wb), vec![b"default_key1".to_vec()]);
}

#[test]
fn rollback_undoes_deletes_too() {
    let mut wb = WriteBatch::new();
    wb.set_safe_point();
    wb.delete_cf("lock", b"k");
    wb.set_cf("write", b"k", b"v");
    assert_eq!(wb.len(), 2);
    wb.rollback_to_safe_point();
    assert_eq!(wb.len(), 0);
    wb.set_cf("default", b"a", b"b");
    assert_eq!(entry_keys(&wb), vec![b"default_a".to_vec()]);
}

#[test]
fn rollback_without_safe_point_empties_batch() {
    let mut wb = WriteBatch::new();
    wb.set_cf("default", b"x", b"y");
    wb.rollback_to_safe_point();
    assert_eq!(wb.len(), 0);
}

#[test]
fn column_family_names() {
    assert_eq!(CF_DEFAULT, "default");
    assert_eq!(CF_WRITE, "write");
    assert_eq!(CF_LOCK, "lock");
    assert_eq!(key_with_cf(CF_LOCK, b""), b"lock_");
}

#[test]
fn byte_order_is_lexicographic() {
    assert!(bytes_less(b"", b"a"));
    assert!(!bytes_less(b"a", b""));
    assert!(bytes_less(b"ab", b"abc"));
    assert!(!bytes_less(b"abc", b"ab"));
    assert!(bytes_less(b"abc", b"abd"));
    assert!(!bytes_less(b"abc", b"abc"));
    assert!(bytes_less(&[0x01, 0xff], &[0x02]));
}

#[test]
fn exceed_end_key_with_prefixes() {
    assert!(!exceed_end_key(b"ab", b"abc"));
    assert!(exceed_end_key(b"abcd", b"abc"));
    assert!(!exceed_end_key(b"", b"a"));
}

#[test]
fn wal_sequence_and_reset() {
    let mut wal = WalManager::default();
    assert_eq!(wal.add_entry(WalEntryType::RegionState, vec![1]), 0);
    wal.clear_pending();
    assert_eq!(wal.pending_count(), 0);
    assert_eq!(wal.add_entry(WalEntryType::ApplyState, vec![2]), 1);
    wal.reset_sequence();
    assert_eq!(wal.add_entry(WalEntryType::KvWrite, vec![3]), 0);
    assert_eq!(wal.pending_count(), 2);
}

#[test]
fn cf_item_strips_prefix() {
    let item = CFItem::new(b"default_key1".to_vec(), b"value1".to_vec(), 8);
    assert_eq!(item.key(), b"key1");
    assert_eq!(item.value(), b"value1".to_vec());
    assert_eq!(item.value_size(), 6);
    let mut dst = Vec::new();
    assert_eq!(item.key_copy(&mut dst), b"key1".to_vec());
    assert_eq!(dst, b"key1".to_vec());
    let mut dst2 = vec![9, 9];
    assert_eq!(item.value_copy(&mut dst2), b"value1".to_vec());
    assert_eq!(dst2, b"value1".to_vec());
}

// A column-family store in memory, in key order, standing in for the
// storage engine under the cursor.
fn engine(puts: &[(&str, &[u8], &[u8])]) -> BTreeMap<Vec<u8>, Vec<u8>> {
    puts.iter().map(|(cf, k, v)| (key_with_cf(cf, k), v.to_vec())).collect()
}

fn entry_at(db: &BTreeMap<Vec<u8>, Vec<u8>>, from: &[u8]) -> Option<(Vec<u8>, Option<Vec<u8>>)> {
    db.range(from.to_vec()..).next().map(|(k, v)| (k.clone(), Some(v.clone())))
}

fn entry_after(db: &BTreeMap<Vec<u8>, Vec<u8>>, key: &[u8]) -> Option<(Vec<u8>, Option<Vec<u8>>)> {
    db.range(key.to_vec()..).find(|(k, _)| k.as_slice() > key).map(|(k, v)| (k.clone(), Some(v.clone())))
}

#[test]
fn test_iterator() {
    let db = engine(&[
        ("default", b"key1", b"value1"),
        ("default", b"key2", b"value2"),
        ("default", b"key3", b"value3"),
        ("write", b"key1", b"value1"),
    ]);
    let mut cursor = PrefixCursor::new("default_".to_string());
    cursor.update_current(entry_at(&db, b""));
    let mut keys = Vec::new();
    while cursor.valid() {
        let item = cursor.item();
        keys.push(item.key().to_vec());
        let at = cursor.current_key.clone().unwrap();
        cursor.update_current(entry_after(&db, &at));
    }
    assert_eq!(keys.len(), 3);
    assert_eq!(keys[0], b"key1");
    assert_eq!(keys[1], b"key2");
    assert_eq!(keys[2], b"key3");
}

#[test]
fn test_iterator_seek() {
    let db = engine(&[
        ("default", b"key1", b"value1"),
        ("default", b"key2", b"value2"),
        ("default", b"key3", b"value3"),
    ]);
    let mut cursor = PrefixCursor::new("default_".to_string());
    cursor.update_current(entry_at(&db, b""));
    let seek = cursor.seek_key(b"key2");
    assert_eq!(seek, b"default_key2".to_vec());
    cursor.update_current(entry_at(&db, &seek));
    assert!(cursor.valid());
    let item = cursor.item();
    assert_eq!(item.key(), b"key2");
}
