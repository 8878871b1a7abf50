use quic_transport::peer_table::PeerTable;
use quic_transport::codec::{decode_request, decode_response, encode_request, encode_response};
use quic_transport::router::{Dispatch, Inbound, StreamRouter, WireResponse, NOT_FOUND};
use quic_transport::topology::{PeerAddr, SubnetTopology};
use quic_transport::transport::{Established, QuicTransport, SendError};

fn addr(last: u32, port: u16) -> PeerAddr {
    PeerAddr::V4 { ip: 0x0a00_0000 + last, port }
}

fn topology(nodes: Vec<(u64, PeerAddr)>) -> SubnetTopology {
    SubnetTopology::new(nodes, 1, 2)
}

fn sorted_peers(t: &QuicTransport<&'static str>) -> Vec<(u64, u64)> {
    let mut p = t.peers();
    p.sort();
    p
}

#[test]
fn topology_keeps_last_address_of_a_repeated_peer() {
    let t = SubnetTopology::new(vec![(1, addr(1, 4100)), (2, addr(2, 4100)), (1, addr(9, 4200))], 3, 7);
    assert!(t.is_member(&1));
    assert!(t.is_member(&2));
    assert!(!t.is_member(&3));
    assert_eq!(t.get_addr(&1), Some(addr(9, 4200)));
    assert_eq!(t.get_addr(&3), None);
    assert_eq!(t.iter().len(), 2);
    assert_eq!(t.earliest_registry_version(), 3);
    assert_eq!(t.latest_registry_version(), 7);
    assert_eq!(t.get_subnet_nodes().into_iter().collect::<Vec<_>>(), vec![1, 2]);
}

#[test]
fn rpc_to_unknown_peer_is_connection_unavailable() {
    let t: QuicTransport<&'static str> = QuicTransport::start(10);
    assert!(matches!(t.get_conn_handle(&3), Err(SendError::ConnectionUnavailable(_))));
    assert!(t.peers().is_empty());
}

#[test]
fn removing_a_member_drops_only_its_handle() {
    let mut t: QuicTransport<&'static str> = QuicTransport::start(10);
    let r = t.on_topology_change(topology(vec![(1, addr(1, 4100)), (2, addr(2, 4100))]));
    let mut dials: Vec<u64> = r.to_dial.iter().map(|d| d.0).collect();
    dials.sort();
    assert_eq!(dials, vec![1, 2]);
    assert!(r.to_close.is_empty());

    let a = t.on_connection_established(1, "conn-a", true, true);
    let b = t.on_connection_established(2, "conn-b", true, true);
    let a_id = match a {
        Established::Published { conn_id, superseded } => {
            assert!(superseded.is_none());
            conn_id
        }
        _ => panic!("A was not published"),
    };
    let b_id = match b {
        Established::Published { conn_id, .. } => conn_id,
        _ => panic!("B was not published"),
    };
    assert_ne!(a_id, b_id);
    assert_eq!(sorted_peers(&t), vec![(1, a_id), (2, b_id)]);

    let r = t.on_topology_change(topology(vec![(1, addr(1, 4100))]));
    assert!(r.to_dial.is_empty());
    assert_eq!(r.to_close.len(), 1);
    assert_eq!(r.to_close[0].peer, 2);
    assert_eq!(r.to_close[0].handle, "conn-b");
    assert_eq!(t.peers(), vec![(1, a_id)]);
    assert!(matches!(t.get_conn_handle(&2), Err(SendError::ConnectionUnavailable(_))));
    assert_eq!(t.get_conn_handle(&1).ok().map(|e| e.handle), Some("conn-a"));
}

#[test]
fn rejected_inbound_peer_never_appears() {
    let mut t: QuicTransport<&'static str> = QuicTransport::start(1);
    let r = t.on_topology_change(topology(vec![(5, addr(5, 4100))]));
    // The larger identifier dials: node 5 dials this node, not the reverse.
    assert!(r.to_dial.is_empty());
    assert!(matches!(t.on_connection_established(5, "x", false, false), Established::Rejected("x")));
    assert_eq!(t.auth_failures(), 1);
    assert!(t.peers().is_empty());
    assert!(matches!(t.get_conn_handle(&5), Err(SendError::ConnectionUnavailable(_))));
}

#[test]
fn converges_to_members_minus_rejected() {
    let mut t: QuicTransport<&'static str> = QuicTransport::start(100);
    let r = t.on_topology_change(topology(vec![(1, addr(1, 1)), (2, addr(2, 1)), (3, addr(3, 1))]));
    assert_eq!(r.to_dial.len(), 3);
    t.on_connection_established(1, "a", true, true);
    t.on_connection_established(2, "b", false, true);
    t.on_connection_established(3, "c", true, true);
    let keys: Vec<u64> = sorted_peers(&t).into_iter().map(|p| p.0).collect();
    assert_eq!(keys, vec![1, 3]);
}

#[test]
fn newer_connection_replaces_older_one() {
    let mut t: QuicTransport<&'static str> = QuicTransport::start(0);
    t.on_topology_change(topology(vec![(7, addr(7, 9))]));
    let first = match t.on_connection_established(7, "old", true, false) {
        Established::Published { conn_id, .. } => conn_id,
        _ => panic!("not published"),
    };
    match t.on_connection_established(7, "new", true, false) {
        Established::Published { conn_id, superseded } => {
            assert!(conn_id > first);
            let old = superseded.expect("the old connection is handed back");
            assert_eq!(old.conn_id, first);
            assert_eq!(old.handle, "old");
            assert_eq!(t.peers(), vec![(7, conn_id)]);
            // The stale close of the first connection leaves the new one.
            assert!(t.on_connection_closed(7, first).is_none());
            assert_eq!(t.peers(), vec![(7, conn_id)]);
            assert!(t.on_connection_closed(7, conn_id).is_some());
            assert!(t.peers().is_empty());
        }
        _ => panic!("not published"),
    }
}

#[test]
fn inbound_from_smaller_peer_and_non_member_are_refused() {
    let mut t: QuicTransport<&'static str> = QuicTransport::start(50);
    t.on_topology_change(topology(vec![(3, addr(3, 9))]));
    assert!(matches!(t.on_connection_established(3, "in", true, false), Established::WrongDirection("in")));
    assert!(matches!(t.on_connection_established(99, "z", true, false), Established::NotMember("z")));
    assert!(t.peers().is_empty());
}

#[test]
fn failed_dial_is_retried_on_the_next_pass() {
    let mut t: QuicTransport<&'static str> = QuicTransport::start(9);
    let r = t.on_topology_change(topology(vec![(4, addr(4, 80))]));
    assert_eq!(r.to_dial, vec![(4, addr(4, 80))]);
    // A dial already in flight is not duplicated.
    assert!(t.reconcile().to_dial.is_empty());
    t.on_dial_failed(4);
    assert_eq!(t.dial_failures(), 1);
    assert_eq!(t.reconcile().to_dial, vec![(4, addr(4, 80))]);
}

#[test]
fn unusable_address_is_skipped() {
    let mut t: QuicTransport<&'static str> = QuicTransport::start(9);
    let r = t.on_topology_change(topology(vec![(1, PeerAddr::V4 { ip: 0, port: 80 }), (2, addr(2, 80))]));
    assert_eq!(r.to_dial, vec![(2, addr(2, 80))]);
}

#[test]
fn shutdown_stops_everything() {
    let mut t: QuicTransport<&'static str> = QuicTransport::start(9);
    t.on_topology_change(topology(vec![(4, addr(4, 80))]));
    t.on_connection_established(4, "a", true, true);
    let closed = t.shutdown();
    assert_eq!(closed.len(), 1);
    assert_eq!(closed[0].handle, "a");
    assert!(t.peers().is_empty());
    let r = t.on_topology_change(topology(vec![(5, addr(5, 80))]));
    assert!(r.to_dial.is_empty() && r.to_close.is_empty());
    assert!(matches!(t.on_connection_established(4, "b", true, true), Established::Stopped("b")));
}

#[test]
fn peer_table_insert_and_remove() {
    let mut table: PeerTable<u8> = PeerTable::new();
    assert!(table.insert(1, 10, 0).is_none());
    assert!(table.insert(2, 11, 0).is_none());
    assert_eq!(table.insert(1, 12, 5).map(|e| e.conn_id), Some(10));
    assert_eq!(table.get(1).map(|e| (e.conn_id, e.handle)), Some((12, 5)));
    assert_eq!(table.remove(2).map(|e| e.conn_id), Some(11));
    assert!(table.remove(2).is_none());
    assert_eq!(table.peers(), vec![(1, 12)]);
    assert_eq!(table.drain().len(), 1);
    assert!(table.peers().is_empty());
}

#[test]
fn unregistered_path_gets_not_found() {
    let mut router = StreamRouter::new();
    assert_eq!(router.route(b"/state_sync".to_vec()), 0);
    assert_eq!(router.route(b"/consensus".to_vec()), 1);
    assert_eq!(router.dispatch(&b"/consensus".to_vec()), Dispatch::Handler(1));
    assert_eq!(router.dispatch(&b"/missing".to_vec()), Dispatch::NotFound);
    let req = encode_request(&b"/missing".to_vec(), &b"x".to_vec());
    assert!(matches!(router.route_request(&req), Inbound::NotFound));
    let r = WireResponse::not_found();
    assert_eq!(r.status, NOT_FOUND);
    assert_eq!(r.status, 404);
    assert!(r.body.is_empty());
}

#[test]
fn registered_path_reaches_its_handler_with_the_body() {
    let mut router = StreamRouter::new();
    router.route(b"/a".to_vec());
    router.route(b"/b".to_vec());
    router.route(b"/b".to_vec());
    let req = encode_request(&b"/b".to_vec(), &vec![1, 2, 3]);
    match router.route_request(&req) {
        Inbound::Handler { index, body } => {
            assert_eq!(index, 1);
            assert_eq!(body, vec![1, 2, 3]);
        }
        _ => panic!("not routed"),
    }
    assert!(matches!(router.route_request(&vec![0, 0, 0, 9, 1]), Inbound::Malformed));
    assert!(matches!(router.route_request(&vec![0, 0]), Inbound::Malformed));
}

#[test]
fn request_encoding_layout_and_round_trip() {
    let req = encode_request(&b"/p".to_vec(), &vec![7, 8]);
    assert_eq!(req, vec![0, 0, 0, 2, b'/', b'p', 7, 8]);
    let q = decode_request(&req).unwrap();
    assert_eq!(q.path, b"/p".to_vec());
    assert_eq!(q.body, vec![7, 8]);
    let empty = decode_request(&vec![0, 0, 0, 0]).unwrap();
    assert!(empty.path.is_empty() && empty.body.is_empty());
}

#[test]
fn response_bytes_come_back_verbatim() {
    let body = vec![0, 255, 3, 4];
    let resp = encode_response(200, &body);
    assert_eq!(resp, vec![0, 200, 0, 255, 3, 4]);
    assert_eq!(decode_response(&resp), Some((200, body)));
    assert_eq!(decode_response(&encode_response(NOT_FOUND, &vec![])), Some((404, vec![])));
    assert_eq!(decode_response(&vec![1]), None);
}
