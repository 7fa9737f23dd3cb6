use analytic_engine::entry::{encode_key, Entry, KeyedRow, PrimaryKey};
use analytic_engine::key::{copy_key, key_lt};
use analytic_engine::time::Timestamp;

fn key(pk: i64, ts: i64) -> PrimaryKey {
    PrimaryKey { pk, timestamp: Timestamp::new(ts) }
}

#[test]
fn key_lt_orders_bytes_lexicographically() {
    assert!(key_lt(&vec![1, 2, 3], &vec![1, 2, 4]));
    assert!(!key_lt(&vec![1, 2, 4], &vec![1, 2, 3]));
    assert!(key_lt(&vec![1, 2], &vec![1, 2, 0]));
    assert!(!key_lt(&vec![1, 2, 0], &vec![1, 2]));
    assert!(key_lt(&vec![], &vec![0]));
    assert!(!key_lt(&vec![], &vec![]));
    assert!(!key_lt(&vec![7, 7], &vec![7, 7]));
    assert!(key_lt(&vec![0, 255], &vec![1]));
}

#[test]
fn copy_key_copies_every_byte() {
    assert_eq!(copy_key(&vec![9, 8, 7]), vec![9, 8, 7]);
    assert_eq!(copy_key(&vec![]), Vec::<u8>::new());
}

#[test]
fn primary_keys_order_by_series_then_time() {
    assert!(key(1, 500).lt(&key(2, 0)));
    assert!(key(1, 100).lt(&key(1, 101)));
    assert!(!key(1, 100).lt(&key(1, 100)));
    assert!(!key(2, 0).lt(&key(1, 500)));
    assert!(key(-1, 0).lt(&key(0, i64::MIN)));
    assert!(key(3, 3).equals(&key(3, 3)));
    assert!(!key(3, 3).equals(&key(3, 4)));
}

#[test]
fn entries_of_one_key_put_the_later_write_first() {
    let older = Entry { key: key(1, 100), sequence: 1, value: 10 };
    let newer = Entry { key: key(1, 100), sequence: 2, value: 20 };
    let other = Entry { key: key(2, 0), sequence: 1, value: 30 };
    assert!(newer.le(&older));
    assert!(!older.le(&newer));
    assert!(older.le(&older));
    assert!(older.le(&other));
    assert!(!other.le(&older));
    assert_eq!(newer.row(), KeyedRow { key: key(1, 100), value: 20 });
    assert_eq!(Entry::new(KeyedRow { key: key(1, 100), value: 20 }, 2), newer);
}

#[test]
fn encode_key_writes_sixteen_bytes_most_significant_first() {
    assert_eq!(
        encode_key(&key(0, 0)),
        vec![0x80, 0, 0, 0, 0, 0, 0, 0, 0x80, 0, 0, 0, 0, 0, 0, 0]
    );
    assert_eq!(
        encode_key(&key(1, -1)),
        vec![0x80, 0, 0, 0, 0, 0, 0, 1, 0x7f, 0xff, 0xff, 0xff, 0xff, 0xff, 0xff, 0xff]
    );
    assert_eq!(encode_key(&key(i64::MIN, i64::MAX))[..8], [0u8; 8]);
    assert_eq!(encode_key(&key(i64::MIN, i64::MAX))[8..], [0xffu8; 8]);
}

#[test]
fn encoded_keys_sort_as_their_keys_do() {
    let keys = [key(-5, 7), key(-5, 8), key(0, i64::MIN), key(0, 0), key(3, -1), key(3, 1)];
    for i in 0..keys.len() {
        for j in 0..keys.len() {
            assert_eq!(
                key_lt(&encode_key(&keys[i]), &encode_key(&keys[j])),
                keys[i].lt(&keys[j])
            );
        }
    }
}
