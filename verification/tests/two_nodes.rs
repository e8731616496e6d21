//! Two nodes wired back to back through in-memory byte streams: the library
//! decides everything, only the transport is simulated.
use llts::initial_offset;
use llts::protocol::{build_broadcast, HandlerState, PeerSession, ReadEvent};
use llts::registry::PeerRegistry;

#[test]
fn two_nodes_register_and_pull_their_clocks_together() {
    let a_id = String::from("127.0.0.1:9001");
    let b_id = String::from("127.0.0.1:9002");

    // Node B dials node A at startup and registers it under the dialed
    // address; node A accepts and registers the remote address.
    let mut reg_a = PeerRegistry::new();
    let mut reg_b = PeerRegistry::new();
    reg_a.insert(b_id.clone(), 1);
    reg_b.insert(a_id.clone(), 1);
    let mut session_a = PeerSession::new(b_id.clone()); // A's handler for B
    let mut session_b = PeerSession::new(a_id.clone()); // B's handler for A

    assert!(reg_a.contains(&b_id));
    assert!(reg_b.contains(&a_id));

    // B's wall clock runs a fixed 100 ms ahead of A's.
    let skew: i128 = 100;
    let t: i128 = 2_000_000;
    let mut off_a = initial_offset();
    let mut off_b = initial_offset();

    // One broadcast interval: each node builds its frame and sends it to
    // every registered peer; each handler applies what it read.
    let frame_from_a = build_broadcast(&a_id, t, off_a).expect("A builds a frame");
    let frame_from_b = build_broadcast(&b_id, t + skew, off_b).expect("B builds a frame");

    off_a = session_a.on_event(&mut reg_a, off_a, t, ReadEvent::Data(frame_from_b));
    off_b = session_b.on_event(&mut reg_b, off_b, t + skew, ReadEvent::Data(frame_from_a));

    // Both offsets moved toward the other node's clock...
    assert_eq!(off_a, 50);
    assert_eq!(off_b, -50);
    // ...and the registries still hold one another.
    assert!(reg_a.contains(&b_id));
    assert!(reg_b.contains(&a_id));
    assert_eq!(session_a.state, HandlerState::Active);
    assert_eq!(session_b.state, HandlerState::Active);

    // When B goes away, A's handler deregisters it and stops.
    let end = session_a.on_event(&mut reg_a, off_a, t + 5000, ReadEvent::Eof);
    assert_eq!(end, 50);
    assert_eq!(session_a.state, HandlerState::Closed);
    assert!(!reg_a.contains(&b_id));
    assert_eq!(reg_a.len(), 0);
}
