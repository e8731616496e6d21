use llts::registry::PeerRegistry;

#[test]
fn insert_then_lookup() {
    let mut reg = PeerRegistry::new();
    assert_eq!(reg.len(), 0);
    reg.insert(String::from("127.0.0.1:9001"), 7);
    assert!(reg.contains(&String::from("127.0.0.1:9001")));
    assert_eq!(reg.conn_of(&String::from("127.0.0.1:9001")), Some(7));
    assert_eq!(reg.len(), 1);
}

#[test]
fn insert_same_key_replaces() {
    let mut reg = PeerRegistry::new();
    reg.insert(String::from("p"), 1);
    reg.insert(String::from("p"), 2);
    assert_eq!(reg.len(), 1);
    assert_eq!(reg.conn_of(&String::from("p")), Some(2));
}

#[test]
fn remove_deletes_entry() {
    let mut reg = PeerRegistry::new();
    reg.insert(String::from("a"), 1);
    reg.insert(String::from("b"), 2);
    reg.remove(&String::from("a"));
    assert!(!reg.contains(&String::from("a")));
    assert!(reg.contains(&String::from("b")));
    assert_eq!(reg.len(), 1);
}

#[test]
fn remove_absent_is_noop() {
    let mut reg = PeerRegistry::new();
    reg.insert(String::from("a"), 1);
    reg.remove(&String::from("zzz"));
    assert_eq!(reg.len(), 1);
    assert_eq!(reg.conn_of(&String::from("a")), Some(1));
    let mut empty = PeerRegistry::new();
    empty.remove(&String::from("zzz"));
    assert_eq!(empty.len(), 0);
}

#[test]
fn each_key_maps_to_one_connection_after_mixed_ops() {
    let mut reg = PeerRegistry::new();
    reg.insert(String::from("a"), 1);
    reg.insert(String::from("b"), 2);
    reg.insert(String::from("a"), 3);
    reg.remove(&String::from("b"));
    reg.insert(String::from("c"), 4);
    reg.insert(String::from("b"), 5);
    reg.remove(&String::from("nope"));

    let snap = reg.snapshot();
    assert_eq!(snap.len(), 3);
    for i in 0..snap.len() {
        for j in (i + 1)..snap.len() {
            assert_ne!(snap[i].0, snap[j].0);
        }
    }
    assert_eq!(reg.conn_of(&String::from("a")), Some(3));
    assert_eq!(reg.conn_of(&String::from("b")), Some(5));
    assert_eq!(reg.conn_of(&String::from("c")), Some(4));
}

#[test]
fn snapshot_lists_every_peer_once() {
    let mut reg = PeerRegistry::new();
    reg.insert(String::from("x"), 10);
    reg.insert(String::from("y"), 20);
    let mut snap = reg.snapshot();
    snap.sort();
    assert_eq!(snap, vec![(String::from("x"), 10), (String::from("y"), 20)]);
}
