use soroscope::storage_heavy::{pack_booleans, set_flag, unpack_booleans, StorageError, StorageHeavyContract};

fn key(s: &str) -> Vec<u8> {
    s.as_bytes().to_vec()
}

#[test]
fn test_storage() {
    let mut client = StorageHeavyContract::new();
    let k = key("data");
    let mut data = [0u8; 1000];
    for (i, item) in data.iter_mut().enumerate() {
        *item = (i % 256) as u8;
    }
    let data_bytes = data.to_vec();

    // Persistent
    client.write_persistent(&k, data_bytes.clone());
    assert_eq!(client.read_persistent(&k), data_bytes.clone());

    // Temporary
    client.write_temporary(&k, data_bytes.clone());
    assert_eq!(client.read_temporary(&k), data_bytes);
}

#[test]
fn test_batch_storage() {
    let mut client = StorageHeavyContract::new();

    let keys = vec![key("k1"), key("k2"), key("k3")];
    let data_points = vec![vec![1u8; 100], vec![2u8; 100], vec![3u8; 100]];

    assert_eq!(keys.len(), data_points.len());
    client.batch_write_persistent(&keys, data_points);

    assert_eq!(client.read_persistent(&key("k1")), vec![1u8; 100]);
    assert_eq!(client.read_persistent(&key("k2")), vec![2u8; 100]);
    assert_eq!(client.read_persistent(&key("k3")), vec![3u8; 100]);
}

// ── Further checks ───────────────────────────────────────────────────────────

#[test]
fn test_packed_flags_roundtrip_and_update() {
    let values: Vec<bool> = (0..10).map(|i| i % 2 == 0).collect();
    let mask = pack_booleans(&values);
    assert_eq!(mask, 0b01_0101_0101);
    assert_eq!(unpack_booleans(mask, 10), values);
    assert_eq!(set_flag(mask, 1, true), 0b01_0101_0111);
    assert_eq!(set_flag(mask, 0, false), 0b01_0101_0100);
    assert_eq!(set_flag(mask, 31, true), 0b1000_0000_0000_0000_0000_0001_0101_0101);
    assert_eq!(pack_booleans(&vec![true; 32]), u32::MAX);
    assert_eq!(unpack_booleans(u32::MAX, 32), vec![true; 32]);
    assert_eq!(StorageError::TooManyToPack.message(), "Cannot pack more than 32 boolean values into a u32");
    assert_eq!(StorageError::FlagIndexOutOfRange.message(), "Flag index out of range for u32");

    let mut client = StorageHeavyContract::new();
    let k = key("packed");
    client.write_packed_booleans(&k, &values);
    assert_eq!(client.check_mask(&k), Ok(()));
    client.update_packed_boolean(&k, 1, true);
    let read = client.read_packed_booleans(&k, 10);
    assert!(read[1]);
    assert_eq!(read[0], true);
    assert_eq!(read[3], false);
}

#[test]
fn test_separate_and_map_flags() {
    let mut client = StorageHeavyContract::new();
    let keys: Vec<Vec<u8>> = (0..4).map(|i| key(&format!("k{}", i))).collect();
    let values = vec![true, false, true, false];
    client.write_separate_booleans(&keys, &values);
    assert_eq!(client.read_separate_booleans(&keys), values);
    client.update_separate_boolean(&keys[1], true);
    assert_eq!(client.read_separate_booleans(&keys), vec![true, true, true, false]);
    assert_eq!(client.check_bool(&keys[1]), Ok(()));

    let mk = key("map");
    client.write_map_booleans(&mk, &values);
    assert_eq!(client.check_map(&mk), Ok(()));
    client.update_map_boolean(&mk, 6, true);
    assert_eq!(client.read_map_booleans(&mk, 8), vec![true, false, true, false, false, false, true, false]);
    // Reading a flag entry as bytes, a mask or a flag is a type mismatch.
    assert_eq!(client.check_bytes(&mk, false), Err(StorageError::TypeMismatch));
    assert_eq!(client.check_mask(&mk), Err(StorageError::TypeMismatch));
    assert_eq!(client.check_bool(&mk), Err(StorageError::TypeMismatch));
    assert_eq!(client.check_map(&keys[0]), Err(StorageError::TypeMismatch));
    // In temporary storage the key is free.
    assert_eq!(client.check_bytes(&mk, true), Ok(()));
    // Missing entries read as empty or clear.
    assert_eq!(client.read_persistent(&key("none")), Vec::<u8>::new());
    assert_eq!(client.read_packed_booleans(&key("none"), 3), vec![false, false, false]);
    assert_eq!(client.batch_read_persistent(&vec![key("none")]), vec![Vec::<u8>::new()]);
}
