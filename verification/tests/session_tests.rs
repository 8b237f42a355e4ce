use mc_share::client::cli::{Commands, HostArgs, JoinArgs, DEFAULT_HOST_PORT, DEFAULT_JOIN_PORT};
use mc_share::client::coord::{CreateRoomResponse, IndexedPeer, JoinRoomResponse, PollReply};
use mc_share::client::host::{
    self, share_banner, HostAction, HostConfig, HostEvent, HostIdentity, HostStage, Poller,
    PollerStep,
};
use mc_share::client::join::{
    self, choose_transport, connected_banner, resolve_local_port, JoinAction, JoinConfig,
    JoinEvent, JoinIdentity, JoinStage, Transport,
};
use mc_share::client::telemetry::AppKind;
use mc_share::client::tunnel::{
    alpn, has_probe, probe_bytes, timed_out_message, Punch, PunchStep,
};

const SECOND: u64 = 1_000_000_000;

fn host_config(port: u16) -> HostConfig {
    let args = HostArgs {
        port,
        coord_url: "https://h".to_string(),
        stun_server: "stun:1".to_string(),
        telemetry: false,
    };
    HostConfig::from_args(args, Some("1"))
}

fn join_config() -> JoinConfig {
    let args = JoinArgs {
        target: "https://mcs.example.com/swri3s/".to_string(),
        port: 25565,
        coord_url: "https://h".to_string(),
        stun_server: "stun:1".to_string(),
        telemetry: true,
    };
    JoinConfig::from_args(args, None)
}

fn created(relay_addr: &str) -> CreateRoomResponse {
    CreateRoomResponse {
        room_id: "swri3s".to_string(),
        host_token: "ht".to_string(),
        relay_token: "rt".to_string(),
        relay_addr: relay_addr.to_string(),
        share_url: "https://mcs.example.com/swri3s".to_string(),
    }
}

fn joined(relay_addr: &str) -> JoinRoomResponse {
    JoinRoomResponse {
        host_pubkey: "pk".to_string(),
        host_stun: "203.0.113.1:54321".to_string(),
        cert_fingerprint: "AQID".to_string(),
        relay_token: "rt".to_string(),
        relay_addr: relay_addr.to_string(),
    }
}

fn peer(idx: usize) -> IndexedPeer {
    IndexedPeer { idx, join_pubkey: "k".to_string(), join_stun: "198.51.100.2:62137".to_string() }
}

#[test]
fn configurations_follow_the_arguments() {
    let c = host_config(7);
    assert_eq!(c.mc_port, 7);
    assert!(c.telemetry);
    assert_eq!(c.app_kind, AppKind::Cli);
    let c = join_config();
    assert_eq!(c.local_port, 25565);
    assert!(c.telemetry);
    assert_eq!(DEFAULT_HOST_PORT, 0);
    assert_eq!(DEFAULT_JOIN_PORT, 25565);
    let cmd = Commands::Host(HostArgs {
        port: DEFAULT_HOST_PORT,
        coord_url: String::new(),
        stun_server: String::new(),
        telemetry: false,
    });
    assert!(matches!(cmd, Commands::Host(_)));
}

#[test]
fn a_host_goes_from_port_to_serving() {
    let config = host_config(0);
    let id = HostIdentity::generate().unwrap();
    let (stage, action) = host::begin(&config);
    assert!(matches!(action, HostAction::DetectLanWorld));
    let (stage, action) = host::advance(stage, HostEvent::PortDetected(Some(50001)), &config, &id);
    match action {
        HostAction::QueryStun { server } => assert_eq!(server, "stun:1"),
        _ => panic!("expected a query"),
    }
    let event = HostEvent::AddressFound("203.0.113.1:54321".to_string());
    let (stage, action) = host::advance(stage, event, &config, &id);
    match action {
        HostAction::CreateRoom(req) => {
            assert_eq!(req.host_pubkey, id.pubkey_b64);
            assert_eq!(req.host_stun, "203.0.113.1:54321");
            assert_eq!(req.cert_fingerprint, id.fingerprint_b64);
        }
        _ => panic!("expected a registration"),
    }
    let event = HostEvent::RoomCreated(created("203.0.113.1:9090"));
    let (stage, action) = host::advance(stage, event, &config, &id);
    match action {
        HostAction::ShareAndWait { room_id, host_token, share_url } => {
            assert_eq!(room_id, "swri3s");
            assert_eq!(host_token, "ht");
            assert_eq!(share_url, "https://mcs.example.com/swri3s");
        }
        _ => panic!("expected a link"),
    }
    let (stage, action) = host::advance(stage, HostEvent::PeerFound(peer(2)), &config, &id);
    match action {
        HostAction::Punch { addr } => assert_eq!(addr, "198.51.100.2:62137"),
        _ => panic!("expected punching"),
    }
    let (stage, action) = host::advance(stage, HostEvent::Punched, &config, &id);
    match action {
        HostAction::Serve(plan) => {
            assert_eq!(plan.mc_port, 50001);
            assert_eq!(plan.first_addr, "198.51.100.2:62137");
            assert_eq!(plan.poll_from, 3);
            assert_eq!(plan.relay, Some(("203.0.113.1:9090".to_string(), "rt".to_string())));
        }
        _ => panic!("expected serving"),
    }
    let (stage, action) = host::advance(stage, HostEvent::Cancelled, &config, &id);
    assert!(matches!(stage, HostStage::Ended));
    assert!(matches!(action, HostAction::Finish(Ok(()))));
}

#[test]
fn a_given_port_is_not_looked_for() {
    let config = host_config(25570);
    let (stage, action) = host::begin(&config);
    assert!(matches!(stage, HostStage::QueryingStun { mc_port: 25570 }));
    assert!(matches!(action, HostAction::QueryStun { .. }));
}

#[test]
fn a_host_without_a_relay_address_serves_without_it() {
    let config = host_config(1);
    let id = HostIdentity::generate().unwrap();
    let stage = HostStage::Punching { mc_port: 1, room: created("nowhere"), peer: peer(0) };
    match host::advance(stage, HostEvent::Punched, &config, &id).1 {
        HostAction::Serve(plan) => assert_eq!(plan.relay, None),
        _ => panic!("expected serving"),
    }
}

#[test]
fn failures_end_sessions_with_their_message() {
    let config = host_config(1);
    let id = HostIdentity::generate().unwrap();
    let (stage, _) = host::begin(&config);
    match host::advance(stage, HostEvent::Failed("boom".to_string()), &config, &id) {
        (HostStage::Ended, HostAction::Finish(Err(m))) => assert_eq!(m, "boom"),
        _ => panic!("expected the end"),
    }
    let config = join_config();
    let id = JoinIdentity::generate();
    let (stage, _) = join::begin(&config);
    match join::advance(stage, JoinEvent::Failed("boom".to_string()), &config, &id) {
        (JoinStage::Ended, JoinAction::Finish(Err(m))) => assert_eq!(m, "boom"),
        _ => panic!("expected the end"),
    }
}

#[test]
fn a_joiner_goes_from_link_to_tunnel() {
    let config = join_config();
    let id = JoinIdentity::generate();
    let (stage, action) = join::begin(&config);
    assert!(matches!(action, JoinAction::QueryStun { .. }));
    let event = JoinEvent::AddressFound("198.51.100.2:62137".to_string());
    let (stage, action) = join::advance(stage, event, &config, &id);
    match action {
        JoinAction::JoinRoom { room_id, request } => {
            assert_eq!(room_id, "swri3s");
            assert_eq!(request.join_pubkey, id.pubkey_b64);
            assert_eq!(request.join_stun, "198.51.100.2:62137");
        }
        _ => panic!("expected joining"),
    }
    let (stage, action) = join::advance(stage, JoinEvent::Joined(joined("r:1")), &config, &id);
    match action {
        JoinAction::Punch { addr } => assert_eq!(addr, "203.0.113.1:54321"),
        _ => panic!("expected punching"),
    }
    let (stage, action) = join::advance(stage, JoinEvent::Punched, &config, &id);
    assert!(matches!(action, JoinAction::BindLocal { preferred: 25565 }));
    let (stage, action) = join::advance(stage, JoinEvent::PortFound(40000), &config, &id);
    match action {
        JoinAction::Tunnel(plan) => {
            assert_eq!(plan.local_port, 40000);
            assert_eq!(plan.host_addr, "203.0.113.1:54321");
            assert_eq!(plan.cert_fingerprint, "AQID");
            let relay = plan.relay.unwrap();
            assert_eq!(relay.addr, "r:1");
            assert_eq!(relay.room_id, "swri3s");
            assert_eq!(relay.token, "rt");
        }
        _ => panic!("expected a tunnel"),
    }
    let (stage, action) = join::advance(stage, JoinEvent::Cancelled, &config, &id);
    assert!(matches!(stage, JoinStage::Ended));
    assert!(matches!(action, JoinAction::Finish(Ok(()))));
    let stage = JoinStage::Binding { room: joined("nowhere") };
    match join::advance(stage, JoinEvent::PortFound(1), &config, &id).1 {
        JoinAction::Tunnel(plan) => assert!(plan.relay.is_none()),
        _ => panic!("expected a tunnel"),
    }
}

#[test]
fn the_relay_is_the_second_choice() {
    assert_eq!(choose_transport(true, true), Some(Transport::Quic));
    assert_eq!(choose_transport(true, false), Some(Transport::Quic));
    assert_eq!(choose_transport(false, true), Some(Transport::Relay));
    assert_eq!(choose_transport(false, false), None);
}

#[test]
fn the_preferred_port_is_tried_first() {
    assert_eq!(resolve_local_port(25565, false), 25565);
    assert_eq!(resolve_local_port(25565, true), 0);
    assert_eq!(resolve_local_port(0, false), 0);
}

#[test]
fn pollers_go_on_behind_the_last_joiner() {
    let mut p = Poller { next_idx: 1 };
    assert_eq!(p.tick(false, 0), PollerStep::Poll(1));
    assert_eq!(p.listed::<&str>(vec![]), vec![]);
    assert_eq!(p.next_idx, 1);
    assert_eq!(p.listed(vec![(1, Some("a")), (2, Some("b"))]), vec![(1, "a"), (2, "b")]);
    assert_eq!(p.next_idx, 3);
    assert_eq!(p.listed(vec![(3, Some("c")), (4, None)]), vec![(3, "c")]);
    assert_eq!(p.next_idx, 4);
    assert_eq!(p.tick(true, 0), PollerStep::Return);
    assert_eq!(p.tick(false, 870 * SECOND - 1), PollerStep::Poll(4));
    assert_eq!(p.tick(false, 870 * SECOND), PollerStep::StopParks);
    assert!(Poller::is_over(PollReply::Expired));
    assert!(!Poller::is_over(PollReply::Failed));
    assert!(!Poller::is_over(PollReply::Peers));
}

#[test]
fn unreadable_joiners_are_passed_over_and_none_is_handed_on_twice() {
    let addrs = [Some("a"), None, Some("b"), None, Some("c")];
    let list = |from: usize| {
        addrs.iter().enumerate().skip(from).map(|(i, a)| (i, *a)).collect::<Vec<_>>()
    };
    let mut p = Poller { next_idx: 0 };
    assert_eq!(p.listed(list(p.next_idx)), vec![(0, "a"), (2, "b"), (4, "c")]);
    assert_eq!(p.next_idx, 5);
    assert_eq!(p.listed(list(p.next_idx)), vec![]);
    let mut p = Poller { next_idx: 3 };
    assert_eq!(p.listed(vec![(3, None::<&str>)]), vec![]);
    assert_eq!(p.next_idx, 3);
}

#[test]
fn events_follow_in_their_own_stage() {
    let found = HostEvent::AddressFound("203.0.113.1:1".to_string());
    assert!(host::can_follow(&HostStage::QueryingStun { mc_port: 1 }, &found));
    assert!(!host::can_follow(&HostStage::DetectingPort, &found));
    assert!(host::can_follow(&HostStage::Serving, &HostEvent::Cancelled));
    assert!(host::can_follow(&HostStage::Serving, &HostEvent::Failed(String::new())));
    assert!(!host::can_follow(&HostStage::Ended, &HostEvent::Failed(String::new())));
    let waiting = HostStage::Waiting { mc_port: 1, room: created("h:1") };
    assert!(host::can_follow(&waiting, &HostEvent::PeerFound(peer(0))));
    assert!(!host::can_follow(&waiting, &HostEvent::PeerFound(peer(usize::MAX))));
    assert!(join::can_follow(&JoinStage::QueryingStun, &JoinEvent::AddressFound(String::new())));
    assert!(!join::can_follow(&JoinStage::QueryingStun, &JoinEvent::Punched));
    assert!(!join::can_follow(&JoinStage::Ended, &JoinEvent::Failed(String::new())));
}

#[test]
fn banners_show_link_and_port() {
    let b = share_banner("https://mcs.example.com/8fk2lm");
    assert!(b.contains("  │  https://mcs.example.com/8fk2lm  │\n"));
    assert_eq!(b.lines().count(), 7);
    assert!(!connected_banner(25565).contains("127.0.0.1"));
    assert!(connected_banner(40000).contains("Or connect directly to:  127.0.0.1:40000"));
    assert_eq!(connected_banner(40000).lines().count(), 10);
}

#[test]
fn probes_are_told_from_other_datagrams() {
    assert_eq!(&probe_bytes(), b"MCS\x01");
    assert!(has_probe(b"MCS\x01"));
    assert!(has_probe(b"MCS\x01 and more"));
    assert!(!has_probe(b"MCS"));
    assert!(!has_probe(b"MCS\x02"));
    assert_eq!(alpn(), "minescale-1");
}

#[test]
fn punching_gives_the_peer_time_to_hear() {
    let mut p = Punch::new();
    assert_eq!(p.tick(SECOND), PunchStep::Continue);
    assert!(!p.received(SECOND, false, b"MCS\x01"));
    assert!(!p.received(SECOND, true, b"other"));
    assert!(p.received(2 * SECOND, true, b"MCS\x01"));
    assert!(!p.received(3 * SECOND, true, b"MCS\x01"));
    assert_eq!(p.tick(4_499_999_999), PunchStep::Continue);
    assert_eq!(p.tick(4_500_000_000), PunchStep::Punched);
}

#[test]
fn punching_into_silence_ends_after_five_seconds() {
    let p = Punch::new();
    assert_eq!(p.tick(4_999_999_999), PunchStep::Continue);
    assert_eq!(p.tick(5 * SECOND), PunchStep::BestEffort);
}

#[test]
fn punching_times_out() {
    let mut p = Punch::new();
    assert!(p.received(19 * SECOND, true, b"MCS\x01"));
    assert_eq!(p.tick(20 * SECOND), PunchStep::TimedOut);
    assert_eq!(timed_out_message(), "Hole punching timed out after 20s");
}
