use p2p::client::Client;
use p2p::hosts::KnownHosts;
use p2p::peer_to_peer::{
    format_announcement, parse_announcement, plan_broadcast, receive_announcement, Announcement,
    BroadcastPlan, PeerToPeer, Received,
};

#[test]
fn client_new_keeps_the_port() {
    assert_eq!(Client::new(1248).port, 1248);
}

#[test]
fn peer_to_peer_new_knows_no_host() {
    let peer = PeerToPeer::new(1248);
    assert_eq!(peer.port, 1248);
    assert!(peer.known_hosts.is_empty());
}

#[test]
fn format_announcement_prefixes_the_port() {
    assert_eq!(format_announcement(1248, "hello"), b"1248:hello".to_vec());
    assert_eq!(format_announcement(0, ""), b"0:".to_vec());
    assert_eq!(format_announcement(65535, "a:b"), b"65535:a:b".to_vec());
    assert_eq!(format_announcement(80, "héllo"), "80:héllo".as_bytes().to_vec());
}

#[test]
fn parse_announcement_reads_port_and_body() {
    assert_eq!(
        parse_announcement(b"1248:hello"),
        Announcement::Peer { port: 1248, body: b"hello".to_vec() }
    );
    assert_eq!(
        parse_announcement(b"12:a:b"),
        Announcement::Peer { port: 12, body: b"a:b".to_vec() }
    );
    assert_eq!(parse_announcement(b"+7:"), Announcement::Peer { port: 7, body: Vec::new() });
}

#[test]
fn parse_announcement_refuses_bad_ports_and_missing_colons() {
    assert_eq!(parse_announcement(b"hello"), Announcement::Malformed);
    assert_eq!(parse_announcement(b""), Announcement::Malformed);
    assert_eq!(parse_announcement(b"abc:hi"), Announcement::BadPort);
    assert_eq!(parse_announcement(b"70000:hi"), Announcement::BadPort);
    assert_eq!(parse_announcement(b":hi"), Announcement::BadPort);
    assert_eq!(parse_announcement(b"12 :hi"), Announcement::BadPort);
}

#[test]
fn announcement_round_trips() {
    for (port, line) in [(1248u16, "hi"), (0, ""), (65535, "x:y:z"), (3000, "::"), (42, "ünïcode")] {
        assert_eq!(
            parse_announcement(&format_announcement(port, line)),
            Announcement::Peer { port, body: line.as_bytes().to_vec() }
        );
    }
}

#[test]
fn receiving_an_announcement_registers_the_sender() {
    let mut hosts = KnownHosts::new();
    let first = receive_announcement(&mut hosts, "10.1.1.1".to_string(), b"1249:hello");
    assert_eq!(first, Received::Registered { port: 1249, body: b"hello".to_vec(), new_host: true });
    assert!(hosts.contains(&"10.1.1.1".to_string(), 1249));
    let again = receive_announcement(&mut hosts, "10.1.1.1".to_string(), b"1249:again");
    assert_eq!(again, Received::Registered { port: 1249, body: b"again".to_vec(), new_host: false });
    assert_eq!(hosts.len(), 1);
}

#[test]
fn receiving_nothing_or_garbage_registers_nobody() {
    let mut hosts = KnownHosts::new();
    assert_eq!(receive_announcement(&mut hosts, "1.2.3.4".to_string(), b""), Received::Nothing);
    assert_eq!(receive_announcement(&mut hosts, "1.2.3.4".to_string(), b"no colon"), Received::Malformed);
    assert_eq!(receive_announcement(&mut hosts, "1.2.3.4".to_string(), b"port:x"), Received::BadPort);
    assert!(hosts.is_empty());
}

#[test]
fn second_node_is_learned_by_the_first() {
    // The seed learns the second node's ip and listening port from its first message.
    let mut seed = PeerToPeer::new(1248);
    let mut second = PeerToPeer::new(1249);
    second.known_hosts.register("127.0.0.1".to_string(), 1248);
    let plan = plan_broadcast(&second.known_hosts, second.port, "hello seed");
    let payload = match plan {
        BroadcastPlan::Send { payload, peers } => {
            assert_eq!(peers, vec![("127.0.0.1".to_string(), 1248)]);
            payload
        }
        other => panic!("unexpected plan {:?}", other),
    };
    receive_announcement(&mut seed.known_hosts, "127.0.0.1".to_string(), &payload);
    assert_eq!(seed.known_hosts.to_vec(), vec![("127.0.0.1".to_string(), 1249)]);
}

#[test]
fn plan_broadcast_skips_empty_lines_and_lonely_nodes() {
    let mut hosts = KnownHosts::new();
    assert_eq!(plan_broadcast(&hosts, 1248, ""), BroadcastPlan::Skip);
    assert_eq!(plan_broadcast(&hosts, 1248, "hi"), BroadcastPlan::NoPeers);
    hosts.register("10.0.0.9".to_string(), 7000);
    assert_eq!(plan_broadcast(&hosts, 1248, ""), BroadcastPlan::Skip);
    assert_eq!(
        plan_broadcast(&hosts, 1248, "hi"),
        BroadcastPlan::Send {
            payload: b"1248:hi".to_vec(),
            peers: vec![("10.0.0.9".to_string(), 7000)],
        }
    );
}
