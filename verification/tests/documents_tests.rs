use mcp_language_server::documents::{DocError, DocumentStore};
use mcp_language_server::requests::RequestTracker;

fn s(x: &str) -> String {
    String::from(x)
}

#[test]
fn open_tracks_at_version_one() {
    let mut store = DocumentStore::new();
    let note = store
        .open_doc(s("file:///w/main.rs"), s("rust"), s("A"))
        .expect("first open emits didOpen");
    assert_eq!(note.uri, "file:///w/main.rs");
    assert_eq!(note.version, 1);
    assert_eq!(note.language_id, "rust");
    assert_eq!(note.text, "A");
    assert!(store.is_open(&s("file:///w/main.rs")));
}

#[test]
fn open_change_close_sequence() {
    let mut store = DocumentStore::new();
    let uri = s("file:///w/main.rs");
    let opened = store.open_doc(uri.clone(), s("rust"), s("A")).expect("opens");
    assert_eq!(opened.version, 1);
    let changed = store.change_doc(&uri, s("B")).expect("change succeeds");
    assert_eq!(changed.version, 2);
    assert_eq!(changed.text, "B");
    let changed2 = store.change_doc(&uri, s("C")).expect("change succeeds");
    assert_eq!(changed2.version, 3);
    let closed = store.close_doc(&uri).expect("close emits didClose");
    assert_eq!(closed.uri, "file:///w/main.rs");
    assert!(!store.is_open(&uri));
}

#[test]
fn change_without_open_fails_and_state_unchanged() {
    let mut store = DocumentStore::new();
    let uri = s("file:///w/unseen.rs");
    let r = store.change_doc(&uri, s("B"));
    assert!(matches!(r, Err(DocError::NotOpen)));
    assert!(!store.is_open(&uri));
}

#[test]
fn reopen_is_noop_and_version_not_incremented() {
    let mut store = DocumentStore::new();
    let uri = s("file:///w/main.rs");
    store.open_doc(uri.clone(), s("rust"), s("A")).expect("opens");
    let second = store.open_doc(uri.clone(), s("rust"), s("A2"));
    assert!(second.is_none());
    // The next change still moves from version 1 to version 2.
    let changed = store.change_doc(&uri, s("B")).expect("change succeeds");
    assert_eq!(changed.version, 2);
}

#[test]
fn close_unopened_is_noop() {
    let mut store = DocumentStore::new();
    let r = store.close_doc(&s("file:///w/never.rs"));
    assert!(r.is_none());
}

#[test]
fn open_uris_lists_tracked_documents() {
    let mut store = DocumentStore::new();
    store.open_doc(s("file:///w/a.rs"), s("rust"), s("a")).expect("opens");
    store.open_doc(s("file:///w/b.rs"), s("rust"), s("b")).expect("opens");
    let uris = store.open_uris();
    assert_eq!(uris, vec![s("file:///w/a.rs"), s("file:///w/b.rs")]);
}

#[test]
fn request_ids_distinct_and_matched() {
    let mut t = RequestTracker::new();
    let id1 = t.allocate(100).expect("ids available");
    let id2 = t.allocate(200).expect("ids available");
    assert_ne!(id1, id2);
    assert_eq!(id1, 1);
    assert_eq!(id2, 2);
    // Each response resolves exactly the caller whose ID it bears.
    assert_eq!(t.take(id2), Some(200));
    assert_eq!(t.take(id1), Some(100));
    assert_eq!(t.take(id1), None);
}

#[test]
fn unknown_response_id_resolves_nothing() {
    let mut t = RequestTracker::new();
    let _ = t.allocate(7).expect("ids available");
    assert_eq!(t.take(999), None);
}

#[test]
fn cancel_all_returns_every_waiter() {
    let mut t = RequestTracker::new();
    let a = t.allocate(10).expect("ids available");
    let _b = t.allocate(20).expect("ids available");
    let tokens = t.cancel_all();
    assert_eq!(tokens, vec![10, 20]);
    assert_eq!(t.take(a), None);
}
