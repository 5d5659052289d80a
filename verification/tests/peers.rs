use easytier::peer::{
    pick_default_conn, public_key_mismatch_text, ConnState, DataPathCandidate, Peer, PeerError,
};

fn test_candidate(
    conn_id: u128,
    latency_us: u64,
    has_latency_sample: bool,
    ready_for_data: bool,
) -> DataPathCandidate {
    DataPathCandidate {
        conn_id,
        is_closed: false,
        ready_for_data,
        has_latency_sample,
        latency_us,
    }
}

#[test]
fn select_conn_prefers_conn_with_real_latency_sample() {
    let sampled = test_candidate(1, 5_000, true, true);
    let fresh = test_candidate(2, 0, false, true);

    assert_eq!(pick_default_conn(&[sampled, fresh]), Some(sampled.conn_id));
    assert_eq!(pick_default_conn(&[fresh, sampled]), Some(sampled.conn_id));

    let slower = test_candidate(3, 80_000, true, true);
    assert_eq!(
        pick_default_conn(&[slower, sampled, fresh]),
        Some(sampled.conn_id)
    );
}

#[test]
fn select_conn_returns_none_when_only_conn_is_not_usable() {
    let unready = test_candidate(1, 0, false, false);
    assert_eq!(pick_default_conn(&[unready]), None);

    let closed = DataPathCandidate {
        is_closed: true,
        ..test_candidate(2, 1_000, true, true)
    };
    assert_eq!(pick_default_conn(&[closed]), None);

    let fresh_a = test_candidate(3, 0, false, true);
    let fresh_b = test_candidate(4, 0, false, true);
    assert_eq!(
        pick_default_conn(&[fresh_a, fresh_b]),
        Some(fresh_a.conn_id)
    );
}

#[test]
fn select_conn_never_picks_not_ready_conn() {
    let ready_sampled = test_candidate(1, 20_000, true, true);
    let unready_faster = test_candidate(2, 1_000, true, false);
    assert_eq!(
        pick_default_conn(&[ready_sampled, unready_faster]),
        Some(ready_sampled.conn_id)
    );

    let ready_fresh = test_candidate(3, 0, false, true);
    let unready_sampled = test_candidate(4, 1_000, true, false);
    assert_eq!(
        pick_default_conn(&[ready_fresh, unready_sampled]),
        Some(ready_fresh.conn_id)
    );

    assert_eq!(pick_default_conn(&[unready_faster, unready_sampled]), None);
    assert_eq!(pick_default_conn(&[]), None);
}

fn conn(latency_us: u64, has_latency_sample: bool) -> ConnState {
    ConnState {
        is_closed: false,
        ready_for_data: true,
        has_latency_sample,
        latency_us,
        is_hole_punched: false,
    }
}

#[test]
fn the_first_of_equally_fast_connections_is_picked() {
    let a = test_candidate(8, 1_000, true, true);
    let b = test_candidate(9, 1_000, true, true);
    assert_eq!(pick_default_conn(&[a, b]), Some(8));
    assert_eq!(pick_default_conn(&[b, a]), Some(9));
    assert!(a.is_eligible());
    assert!(!DataPathCandidate { is_closed: true, ..a }.is_eligible());
}

#[test]
fn a_peer_keeps_to_its_connection() {
    let mut peer = Peer::new(42);
    assert_eq!(peer.select_conn(), None);
    assert_eq!(peer.send_msg(), Err(PeerError::NoConnection { peer_id: 42 }));
    peer.add_peer_conn(1, 0, vec![1], conn(9_000, true)).unwrap();
    assert_eq!(peer.select_conn(), Some(1));
    assert_eq!(peer.get_default_conn_id(), 1);
    // a faster one does not take over until the choice is made again
    peer.add_peer_conn(2, 0, vec![1], conn(1_000, true)).unwrap();
    assert_eq!(peer.send_msg(), Ok(1));
    peer.clear_default_conn();
    assert_eq!(peer.get_default_conn_id(), 0);
    assert_eq!(peer.send_msg(), Ok(2));
    // a connection that cannot be used any more is left
    peer.note_state(2, ConnState { ready_for_data: false, ..conn(1_000, true) });
    assert_eq!(peer.select_conn(), Some(1));
    peer.note_state(1, ConnState { is_closed: true, ..conn(9_000, true) });
    assert_eq!(peer.select_conn(), None);
    peer.note_state(77, conn(1, true));
    assert_eq!(peer.select_conn(), None);
}

#[test]
fn a_single_connection_stays_chosen() {
    let mut peer = Peer::new(1);
    peer.add_peer_conn(5, 0, vec![], conn(0, false)).unwrap();
    assert_eq!(peer.select_conn(), Some(5));
    peer.clear_default_conn();
    assert_eq!(peer.get_default_conn_id(), 5);
}

#[test]
fn connections_of_another_identity_are_refused() {
    let mut peer = Peer::new(7);
    peer.add_peer_conn(1, 0, vec![1, 2], conn(0, false)).unwrap();
    assert_eq!(
        peer.add_peer_conn(2, 1, vec![1, 2], conn(0, false)),
        Err(PeerError::IdentityMismatch { peer: 0, conn: 1 })
    );
    assert_eq!(
        peer.add_peer_conn(2, 0, vec![9, 9, 9], conn(0, false)),
        Err(PeerError::PublicKeyMismatch { peer_id: 7, existing_len: 2, new_len: 3 })
    );
    assert_eq!(
        public_key_mismatch_text(7, 2, 3),
        "peer public key mismatch. peer_id: 7, existing_len: 2, new_len: 3"
    );
    assert_eq!(peer.get_peer_identity_type(), Some(0));
    assert_eq!(peer.get_peer_public_key(), Some(vec![1, 2]));
    let (open, closed) = peer.list_peer_conns();
    assert_eq!((open, closed), (vec![1], vec![]));

    // once the last connection is gone, anyone is welcome
    assert!(peer.on_conn_closed(1));
    assert_eq!(peer.get_peer_identity_type(), None);
    assert_eq!(peer.get_peer_public_key(), None);
    assert!(peer.add_peer_conn(3, 1, vec![9, 9, 9], conn(0, false)).is_ok());
}

#[test]
fn connections_are_closed_and_forgotten() {
    let mut peer = Peer::new(7);
    peer.add_peer_conn(1, 0, vec![], conn(0, false)).unwrap();
    peer.add_peer_conn(2, 0, vec![], ConnState { is_hole_punched: true, ..conn(0, false) })
        .unwrap();
    assert_eq!(peer.close_peer_conn(9), Err(PeerError::NotFound));
    assert_eq!(peer.close_peer_conn(1), Ok(()));
    assert!(peer.has_live_conns());
    assert!(peer.has_directly_connected_conn());
    let direct: Vec<u128> = peer.get_directly_connections().into_iter().collect();
    assert_eq!(direct, vec![1]);
    assert!(peer.on_conn_closed(1));
    assert!(!peer.on_conn_closed(1));
    assert!(!peer.has_directly_connected_conn());
    assert!(peer.has_live_conns());
    peer.note_state(2, ConnState { is_closed: true, ..conn(0, false) });
    assert!(!peer.has_live_conns());
    assert_eq!(peer.list_peer_conns(), (vec![], vec![2]));
    assert_eq!(peer.remove_all(), vec![2]);
    assert_eq!(peer.list_peer_conns(), (vec![], vec![]));
}
