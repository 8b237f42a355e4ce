use base64::engine::general_purpose::URL_SAFE_NO_PAD;
use base64::Engine;
use mc_share::client::coord::parse_room_id;
use mc_share::server::api::{
    bearer_token, create_room, create_room_if, enter_room, extract_ip, forwarded_for, join_room,
    join_room_if, list_peers, open_room, poll_peers, poll_peers_if, AppState, CreateRoomReq, JoinRoomReq, PollQuery, Refusal,
};
use mc_share::server::config::{health, Config};
use mc_share::server::rate_limit::{
    join_attempt_limiter, poll_limiter, room_creation_limiter,
};
use mc_share::server::rooms::{generate_room_id, generate_token, room_id_of, token_of, PeerInfo, Registry, Room};

const MINUTE: u64 = 60_000_000_000;

fn room(id: &str, created_at: u64) -> Room {
    Room {
        room_id: id.to_string(),
        host_token: "host".to_string(),
        relay_token: "relay".to_string(),
        host_pubkey: "pk".to_string(),
        host_stun: "203.0.113.1:54321".to_string(),
        cert_fingerprint: "fp".to_string(),
        peers: Vec::new(),
        created_at,
    }
}

fn peer(n: u8) -> PeerInfo {
    PeerInfo { join_pubkey: format!("k{}", n), join_stun: format!("198.51.100.{}:1", n) }
}

fn request() -> CreateRoomReq {
    CreateRoomReq {
        host_pubkey: "pk".to_string(),
        host_stun: "203.0.113.1:54321".to_string(),
        cert_fingerprint: "fp".to_string(),
    }
}

fn join_request(n: u8) -> JoinRoomReq {
    JoinRoomReq { join_pubkey: format!("k{}", n), join_stun: format!("198.51.100.{}:1", n) }
}

fn state() -> AppState {
    AppState {
        registry: Registry::new(),
        base_url: "https://mcs.example.com/".to_string(),
        relay_addr: "203.0.113.1:9090".to_string(),
        room_limiter: room_creation_limiter(),
        join_limiter: join_attempt_limiter(),
        poll_limiter: poll_limiter(),
    }
}

const A: (u8, u128) = (4, 1);
const B: (u8, u128) = (4, 2);

#[test]
fn rooms_come_and_go() {
    let mut r = Registry::new();
    assert!(r.get("aaaaaa").is_none());
    r.insert(room("aaaaaa", 0));
    assert_eq!(r.get("aaaaaa").unwrap().host_stun, "203.0.113.1:54321");
    let mut second = room("aaaaaa", 5);
    second.host_pubkey = "other".to_string();
    r.insert(second);
    assert_eq!(r.get("aaaaaa").unwrap().host_pubkey, "other");
    r.remove("aaaaaa");
    assert!(r.get("aaaaaa").is_none());
    r.remove("aaaaaa");
}

#[test]
fn joiners_are_numbered_from_zero() {
    let mut r = Registry::new();
    assert_eq!(r.add_peer("aaaaaa", peer(0)), None);
    r.insert(room("aaaaaa", 0));
    assert_eq!(r.add_peer("aaaaaa", peer(0)), Some(0));
    assert_eq!(r.add_peer("aaaaaa", peer(1)), Some(1));
    assert_eq!(r.add_peer("aaaaaa", peer(2)), Some(2));
    let all = r.get_peers_from("aaaaaa", 0).unwrap();
    assert_eq!(all.iter().map(|p| p.0).collect::<Vec<_>>(), vec![0, 1, 2]);
    let later = r.get_peers_from("aaaaaa", 1).unwrap();
    assert_eq!(later.len(), 2);
    assert_eq!(later[0].0, 1);
    assert_eq!(later[0].1.join_pubkey, "k1");
    assert!(r.get_peers_from("aaaaaa", 3).unwrap().is_empty());
    assert!(r.get_peers_from("aaaaaa", 99).unwrap().is_empty());
    assert!(r.get_peers_from("bbbbbb", 0).is_none());
}

#[test]
fn rooms_live_fifteen_minutes() {
    let mut r = Registry::new();
    r.insert(room("oldold", 0));
    r.insert(room("newnew", MINUTE));
    r.add_peer("newnew", peer(0));
    r.cleanup(15 * MINUTE - 1);
    assert!(r.get("oldold").is_some());
    r.cleanup(15 * MINUTE);
    assert!(r.get("oldold").is_none());
    assert_eq!(r.get("newnew").unwrap().peers.len(), 1);
    // A clock before the room's opening counts as no time gone by.
    r.insert(room("future", 99 * MINUTE));
    r.cleanup(0);
    assert!(r.get("future").is_some());
}

#[test]
fn room_ids_are_six_letters_or_digits() {
    for _ in 0..200 {
        let id = generate_room_id();
        assert_eq!(id.len(), 6);
        assert!(id.bytes().all(|b| b.is_ascii_lowercase() || b.is_ascii_digit()));
    }
    assert_ne!(
        (0..8).map(|_| generate_room_id()).collect::<String>(),
        (0..8).map(|_| generate_room_id()).collect::<String>()
    );
}

#[test]
fn draws_and_bytes_make_ids_and_tokens() {
    assert_eq!(room_id_of(&[0, 25, 26, 35, 1, 27]), "az09b1");
    assert_eq!(token_of(&[0; 16]), "AAAAAAAAAAAAAAAAAAAAAA");
    let bytes: Vec<u8> = (0..16).map(|i| 0xf0 + i).collect();
    assert_eq!(token_of(&bytes), "8PHy8_T19vf4-fr7_P3-_w");
}

#[test]
fn tokens_are_128_bits() {
    let t = generate_token();
    assert_eq!(t.len(), 22);
    assert_eq!(URL_SAFE_NO_PAD.decode(&t).unwrap().len(), 16);
    assert_ne!(t, generate_token());
}

#[test]
fn opened_rooms_are_what_was_asked_for() {
    let mut r = Registry::new();
    let resp = open_room(
        &mut r,
        "https://mcs.example.com//",
        "203.0.113.1:9090",
        request(),
        7,
        "swri3s".to_string(),
        "ht".to_string(),
        "rt".to_string(),
    );
    assert_eq!(resp.share_url, "https://mcs.example.com/swri3s");
    assert_eq!(resp.room_id, "swri3s");
    assert_eq!(resp.host_token, "ht");
    assert_eq!(resp.relay_token, "rt");
    assert_eq!(resp.relay_addr, "203.0.113.1:9090");
    let stored = r.get("swri3s").unwrap();
    assert_eq!(stored.host_pubkey, "pk");
    assert_eq!(stored.created_at, 7);
    assert!(stored.peers.is_empty());
}

#[test]
fn the_link_leads_to_the_host_and_the_host_learns_of_joiners() {
    let mut s = state();
    let made = create_room(&mut s, A, request(), 0).unwrap();
    let named = parse_room_id(&made.share_url);
    assert_eq!(named, made.room_id);
    let joined = join_room(&mut s, B, &named, join_request(9)).unwrap();
    assert_eq!(joined.host_pubkey, "pk");
    assert_eq!(joined.host_stun, "203.0.113.1:54321");
    assert_eq!(joined.cert_fingerprint, "fp");
    assert_eq!(joined.relay_token, made.relay_token);
    assert_eq!(joined.relay_addr, "203.0.113.1:9090");
    let auth = format!("Bearer {}", made.host_token);
    let listed = poll_peers(&mut s, A, &named, Some(&auth), &PollQuery { after: 0 }).unwrap();
    assert_eq!(listed.peers.len(), 1);
    assert_eq!(listed.peers[0].idx, 0);
    assert_eq!(listed.peers[0].join_stun, "198.51.100.9:1");
    let none = poll_peers(&mut s, A, &named, Some(&auth), &PollQuery { after: 1 }).unwrap();
    assert!(none.peers.is_empty());
}

#[test]
fn several_friends_can_join() {
    let mut r = Registry::new();
    r.insert(room("aaaaaa", 0));
    for n in 0..3u8 {
        assert!(enter_room(&mut r, "relay:1", "aaaaaa", join_request(n)).is_ok());
    }
    let q = PollQuery { after: 0 };
    let listed = list_peers(&r, "aaaaaa", Some("Bearer host"), &q).unwrap();
    assert_eq!(listed.peers.iter().map(|p| p.idx).collect::<Vec<_>>(), vec![0, 1, 2]);
    assert_eq!(listed.peers[2].join_pubkey, "k2");
}

#[test]
fn each_refusal_has_its_answer() {
    let mut r = Registry::new();
    let q = PollQuery { after: 0 };
    assert_eq!(list_peers(&r, "aaaaaa", None, &q).unwrap_err(), Refusal::MissingToken);
    assert_eq!(
        list_peers(&r, "aaaaaa", Some("Basic x"), &q).unwrap_err(),
        Refusal::MissingToken
    );
    assert_eq!(
        list_peers(&r, "aaaaaa", Some("Bearer host"), &q).unwrap_err(),
        Refusal::RoomNotFound
    );
    r.insert(room("aaaaaa", 0));
    assert_eq!(
        list_peers(&r, "aaaaaa", Some("Bearer no"), &q).unwrap_err(),
        Refusal::InvalidToken
    );
    assert_eq!(
        enter_room(&mut r, "relay:1", "bbbbbb", join_request(0)).unwrap_err(),
        Refusal::RoomNotFoundOrExpired
    );
    assert_eq!(Refusal::RateLimit.response(), (429, "rate limit exceeded"));
    assert_eq!(Refusal::MissingToken.response(), (401, "missing bearer token"));
    assert_eq!(Refusal::InvalidToken.response(), (401, "invalid token"));
    assert_eq!(Refusal::RoomNotFound.response(), (404, "room not found"));
    assert_eq!(
        Refusal::RoomNotFoundOrExpired.response(),
        (404, "room not found or expired")
    );
}

#[test]
fn clients_are_served_just_when_they_are_admitted() {
    let mut r = Registry::new();
    let open = |r: &mut Registry, admitted: bool| {
        create_room_if(
            admitted,
            r,
            "https://mcs.example.com",
            "relay:1",
            request(),
            7,
            "swri3s".to_string(),
            "ht".to_string(),
            "rt".to_string(),
        )
    };
    assert_eq!(open(&mut r, false).unwrap_err(), Refusal::RateLimit);
    assert!(r.get("swri3s").is_none());
    assert_eq!(open(&mut r, true).unwrap().share_url, "https://mcs.example.com/swri3s");
    assert!(r.get("swri3s").is_some());

    let refused = join_room_if(false, &mut r, "relay:1", "swri3s", join_request(1));
    assert_eq!(refused.unwrap_err(), Refusal::RateLimit);
    assert!(r.get("swri3s").unwrap().peers.is_empty());
    let served = join_room_if(true, &mut r, "relay:1", "swri3s", join_request(1)).unwrap();
    assert_eq!(served.relay_token, "rt");
    assert_eq!(r.get("swri3s").unwrap().peers.len(), 1);
    let gone = join_room_if(true, &mut r, "relay:1", "aaaaaa", join_request(1));
    assert_eq!(gone.unwrap_err(), Refusal::RoomNotFoundOrExpired);

    let q = PollQuery { after: 0 };
    let refused = poll_peers_if(false, &r, "swri3s", Some("Bearer ht"), &q);
    assert_eq!(refused.unwrap_err(), Refusal::RateLimit);
    let served = poll_peers_if(true, &r, "swri3s", Some("Bearer ht"), &q).unwrap();
    assert_eq!(served.peers.len(), 1);
    let refused = poll_peers_if(true, &r, "swri3s", None, &q);
    assert_eq!(refused.unwrap_err(), Refusal::MissingToken);
}

#[test]
fn a_burst_of_rooms_is_let_pass() {
    let mut s = state();
    for _ in 0..10 {
        assert!(create_room(&mut s, A, request(), 0).is_ok());
    }
    assert_eq!(create_room(&mut s, A, request(), 0).unwrap_err(), Refusal::RateLimit);
    assert_eq!(create_room(&mut s, A, request(), 0).unwrap_err(), Refusal::RateLimit);
    for _ in 0..10 {
        assert!(create_room(&mut s, B, request(), 0).is_ok());
    }
}

#[test]
fn bursts_of_joins_and_polls_are_let_pass() {
    let mut s = state();
    let id = create_room(&mut s, A, request(), 0).unwrap().room_id;
    let q = PollQuery { after: 0 };
    for n in 0..5u8 {
        assert!(join_room(&mut s, A, &id, join_request(n)).is_ok());
        assert_eq!(poll_peers(&mut s, A, &id, None, &q).unwrap_err(), Refusal::MissingToken);
    }
    assert_eq!(s.registry.get(&id).unwrap().peers.len(), 5);
}

#[test]
fn floods_of_rooms_are_refused_per_address() {
    let mut s = state();
    let mut refused = 0;
    for _ in 0..100 {
        match create_room(&mut s, A, request(), 0) {
            Ok(_) => {}
            Err(e) => {
                assert_eq!(e, Refusal::RateLimit);
                refused += 1;
            }
        }
    }
    assert!(refused >= 80);
    assert!(create_room(&mut s, B, request(), 0).is_ok());
}

#[test]
fn floods_of_joins_and_polls_are_refused_per_address() {
    let mut s = state();
    let id = create_room(&mut s, A, request(), 0).unwrap().room_id;
    let mut joins = 0;
    let mut polls = 0;
    for n in 0..100u8 {
        if join_room(&mut s, A, &id, join_request(n)).is_ok() {
            joins += 1;
        }
        let q = PollQuery { after: 0 };
        if poll_peers(&mut s, A, &id, None, &q).unwrap_err() == Refusal::MissingToken {
            polls += 1;
        }
    }
    assert!(1 <= joins && joins <= 20);
    assert!(1 <= polls && polls <= 20);
    assert_eq!(s.registry.get(&id).unwrap().peers.len(), joins);
    assert!(join_room(&mut s, B, &id, join_request(0)).is_ok());
}

#[test]
fn bearer_tokens_follow_their_scheme() {
    assert_eq!(bearer_token(Some("Bearer abc")).as_deref(), Some("abc"));
    assert_eq!(bearer_token(Some("Bearer ")).as_deref(), Some(""));
    assert_eq!(bearer_token(Some("bearer abc")), None);
    assert_eq!(bearer_token(None), None);
}

#[test]
fn the_first_forwarded_address_counts() {
    assert_eq!(forwarded_for(" 203.0.113.9 , 10.0.0.1"), "203.0.113.9");
    assert_eq!(forwarded_for("203.0.113.9"), "203.0.113.9");
    assert_eq!(forwarded_for(""), "");
    assert_eq!(extract_ip(None), (4, 0x7f000001));
    assert_eq!(extract_ip(Some(B)), B);
}

#[test]
fn settings_have_defaults() {
    let c = Config::from_env(None, None, None, None, None);
    assert_eq!(c.listen_http, "0.0.0.0:8080");
    assert_eq!(c.listen_relay, "0.0.0.0:9090");
    assert_eq!(c.relay_addr, "127.0.0.1:9090");
    assert_eq!(c.base_url, "https://coord.minescale.example.com");
    assert_eq!(c.telemetry_log, None);
    let some = |s: &str| Some(s.to_string());
    let c = Config::from_env(some("a"), some("b"), some("c"), some("d"), some("e"));
    assert_eq!(c.listen_http, "a");
    assert_eq!(c.relay_addr, "b");
    assert_eq!(c.listen_relay, "c");
    assert_eq!(c.base_url, "d");
    assert_eq!(c.telemetry_log.as_deref(), Some("e"));
    assert_eq!(Config::from_env(None, None, None, None, some("")).telemetry_log, None);
    assert_eq!(health(), "ok");
}
