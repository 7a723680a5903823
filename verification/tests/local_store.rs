use ghostnet::store::{EventCursor, MemoryLocalStore, ViewCommit};

#[test]
fn cursor_round_trips_opaque_value() {
    let cursor = EventCursor::new("event:42");
    assert_eq!(cursor.as_str(), "event:42");
}

#[test]
fn cursor_and_view_replace_atomically() {
    let mut store = MemoryLocalStore::default();
    store
        .commit_view(ViewCommit {
            view: "reports".into(),
            cursor: "event:1".into(),
            bytes: b"first".to_vec(),
        })
        .expect("first commit");
    store
        .commit_view(ViewCommit {
            view: "reports".into(),
            cursor: "event:2".into(),
            bytes: b"second".to_vec(),
        })
        .expect("second commit");

    let stored = store
        .load_view("reports")
        .expect("load")
        .expect("stored view");
    assert_eq!(stored.cursor, "event:2");
    assert_eq!(stored.bytes, b"second");
}

#[test]
fn views_are_independent_and_missing_view_is_none() {
    let mut store = MemoryLocalStore::new();
    assert_eq!(store.load_view("reports"), Ok(None));
    store
        .commit_view(ViewCommit {
            view: "reports".into(),
            cursor: "event:1".into(),
            bytes: b"r".to_vec(),
        })
        .expect("commit reports");
    store
        .commit_view(ViewCommit {
            view: "nets".into(),
            cursor: "event:7".into(),
            bytes: b"n".to_vec(),
        })
        .expect("commit nets");
    let reports = store.load_view("reports").expect("load").expect("reports");
    assert_eq!(reports.cursor, "event:1");
    assert_eq!(reports.bytes, b"r");
    let nets = store.load_view("nets").expect("load").expect("nets");
    assert_eq!(nets.cursor, "event:7");
}
