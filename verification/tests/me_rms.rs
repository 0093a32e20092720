use j2me_kit::jvm::JavaError;
use j2me_kit::me::rms::{RecordStore, RecordStoreSnapshot, RmsRuntime, RmsSnapshot};

#[test]
fn open_requires_existing_store_when_not_creating() {
    let mut rms = RmsRuntime::new();
    assert!(rms.open("save_slot0", false).is_err());
    assert!(!rms.contains("save_slot0"));
    assert_eq!(rms.open("save_slot0", true).unwrap(), "save_slot0");
    assert!(rms.contains("save_slot0"));
    assert!(rms.open("save_slot0", false).is_ok());
}

#[test]
fn add_then_read_back_round_trips_the_bytes() {
    let mut rms = RmsRuntime::new();
    rms.open("opt", true).unwrap();
    let payload: Vec<i8> = vec![7, -3, 42, 0, 100];
    let store = rms.get_mut("opt").unwrap();
    let id = store.add_record(&payload, 0, payload.len() as i32).unwrap();
    assert_eq!(id, 1, "first record in a fresh store is id 1");

    let store = rms.get("opt").unwrap();
    assert_eq!(store.num_records(), 1);
    assert_eq!(store.next_record_id(), 2);
    let last = store.next_record_id() - 1;
    assert_eq!(store.get_record(last).unwrap(), payload);
    assert_eq!(store.get_record_size(last).unwrap(), payload.len() as i32);
}

#[test]
fn record_ids_are_monotonic_and_survive_a_delete_but_reset_on_recreate() {
    let mut rms = RmsRuntime::new();
    rms.open("s", true).unwrap();
    let s = rms.get_mut("s").unwrap();
    assert_eq!(s.add_record(&[1], 0, 1).unwrap(), 1);
    assert_eq!(s.add_record(&[2], 0, 1).unwrap(), 2);
    assert_eq!(s.next_record_id(), 3);

    rms.delete_store("s").unwrap();
    assert!(rms.delete_store("s").is_err());
    rms.open("s", true).unwrap();
    let s = rms.get_mut("s").unwrap();
    assert_eq!(s.next_record_id(), 1);
    assert_eq!(s.add_record(&[9], 0, 1).unwrap(), 1);
}

#[test]
fn missing_record_and_bad_bounds_are_typed_errors_not_panics() {
    let mut rms = RmsRuntime::new();
    rms.open("s", true).unwrap();
    let s = rms.get_mut("s").unwrap();
    assert!(matches!(s.get_record(1), Err(JavaError::RecordStore(_))));
    assert!(matches!(s.get_record_size(1), Err(JavaError::RecordStore(_))));
    assert!(matches!(s.add_record(&[1, 2], 0, 5), Err(JavaError::ArrayIndexOutOfBounds { .. })));
    assert!(matches!(s.add_record(&[1, 2], -1, 1), Err(JavaError::ArrayIndexOutOfBounds { .. })));
}

#[test]
fn close_and_delete_validate_presence() {
    let mut rms = RmsRuntime::new();
    assert!(rms.close("nope").is_err());
    rms.open("here", true).unwrap();
    assert!(rms.close("here").is_ok());
}

#[test]
fn host_snapshot_round_trips_monotonic_record_ids() {
    let mut rms = RmsRuntime::new();
    rms.open("slot", true).unwrap();
    rms.get_mut("slot").unwrap().add_record(&[-1, 2], 0, 2).unwrap();
    rms.get_mut("slot").unwrap().add_record(&[3], 0, 1).unwrap();

    let snapshot = rms.snapshot();
    let again = rms.snapshot();
    let restored = RmsRuntime::from_snapshot(again).unwrap();
    assert_eq!(restored.snapshot(), snapshot);
    assert_eq!(restored.get("slot").unwrap().next_record_id(), 3);

    let mut invalid = snapshot;
    invalid.stores[0].1.next_id = 2;
    assert!(RmsRuntime::from_snapshot(invalid).is_err());
}

#[test]
fn set_delete_list_and_quota_follow_midp_semantics() {
    let mut rms = RmsRuntime::with_capacity(Some(5));
    rms.open("z", true).unwrap();
    rms.open("a", true).unwrap();
    assert_eq!(rms.list_record_stores(), vec!["a", "z"]);
    let id = rms.add_record("z", &[1, 2, 3], 0, 3).unwrap();
    assert_eq!(rms.size_available(), 2);
    assert!(rms.add_record("z", &[4, 5, 6], 0, 3).is_err());
    rms.set_record("z", id, &[8, 9], 0, 2).unwrap();
    assert_eq!(rms.get("z").unwrap().get_record(id).unwrap(), vec![8, 9]);
    assert_eq!(rms.size_available(), 3);
    rms.delete_record("z", id).unwrap();
    assert_eq!(rms.get("z").unwrap().next_record_id(), 2);
    assert_eq!(rms.size_available(), 5);
}

#[test]
fn error_messages_name_the_store_and_the_record() {
    let mut rms = RmsRuntime::with_capacity(Some(1));
    assert_eq!(
        rms.open("gone", false).err(),
        Some(JavaError::RecordStore("RecordStoreNotFoundException: gone".to_string()))
    );
    assert_eq!(
        rms.close("gone").err(),
        Some(JavaError::RecordStore("RecordStoreNotOpenException: gone".to_string()))
    );
    rms.open("s", true).unwrap();
    assert_eq!(
        rms.get("s").unwrap().get_record(-4).err(),
        Some(JavaError::RecordStore("InvalidRecordIDException: -4".to_string()))
    );
    assert_eq!(
        rms.add_record("s", &[1, 2], 0, 2).err(),
        Some(JavaError::RecordStore("RecordStoreFullException: RMS capacity exceeded".to_string()))
    );
    assert_eq!(
        rms.add_record("s", &[1, 2], 1, 5).err(),
        Some(JavaError::ArrayIndexOutOfBounds { index: 6, length: 2 })
    );
    assert!(rms.close("s").is_ok());
    assert!(rms.close("s").is_err());
}

#[test]
fn snapshots_with_bad_sequences_or_order_are_refused() {
    let store = |next_id: i32, ids: &[i32]| RecordStoreSnapshot {
        next_id,
        records: ids.iter().map(|&id| (id, vec![id as i8])).collect(),
    };
    let ok = RmsSnapshot { stores: vec![("a".to_string(), store(4, &[1, 3])), ("b".to_string(), store(1, &[]))] };
    let rt = RmsRuntime::from_snapshot(ok).unwrap();
    assert_eq!(rt.get("a").unwrap().num_records(), 2);
    let unordered = RmsSnapshot { stores: vec![("b".to_string(), store(1, &[])), ("a".to_string(), store(1, &[]))] };
    assert_eq!(
        RmsRuntime::from_snapshot(unordered).err(),
        Some(JavaError::RecordStore("invalid persisted store order".to_string()))
    );
    for bad in [store(0, &[]), store(3, &[2, 1]), store(3, &[0]), store(2, &[2])] {
        let snapshot = RmsSnapshot { stores: vec![("a".to_string(), bad)] };
        assert_eq!(
            RmsRuntime::from_snapshot(snapshot).err(),
            Some(JavaError::RecordStore("invalid persisted record-id sequence".to_string()))
        );
    }
    let big = RmsSnapshot { stores: vec![("a".to_string(), store(3, &[1, 2]))] };
    assert!(RmsRuntime::from_snapshot_with_capacity(big, Some(1)).is_err());
    assert_eq!(RecordStore::new().size_bytes(), 0);
}
