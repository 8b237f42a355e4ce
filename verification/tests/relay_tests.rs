use mc_share::client::relay as client;
use mc_share::client::relay::{HostPool, ParkEvent, ParkOutcome, PoolStep};
use mc_share::server::relay::{
    authorize, parse_auth, Arrival, LineReader, LineStep, Parkers, RelayError, Role, SniffStep,
    Sniffer,
};
use mc_share::server::rooms::{Registry, Room};

fn registry() -> Registry {
    let mut r = Registry::new();
    r.insert(Room {
        room_id: "swri3s".to_string(),
        host_token: "host".to_string(),
        relay_token: "tok".to_string(),
        host_pubkey: String::new(),
        host_stun: String::new(),
        cert_fingerprint: String::new(),
        peers: Vec::new(),
        created_at: 0,
    });
    r
}

fn read(bytes: &[u8]) -> Option<Result<String, ()>> {
    let mut reader = LineReader::new();
    for b in bytes {
        match reader.read_byte(*b) {
            LineStep::More => {}
            LineStep::Line(s) => return Some(Ok(s)),
            LineStep::TooLong => return Some(Err(())),
        }
    }
    None
}

#[test]
fn lines_end_at_their_newline() {
    assert_eq!(read(b"RELAY a host t\nrest"), Some(Ok("RELAY a host t".to_string())));
    assert_eq!(read(b"\n"), Some(Ok(String::new())));
    assert_eq!(read(b"no newline"), None);
    assert_eq!(read("ワールド\n".as_bytes()), Some(Ok("ワールド".to_string())));
    assert_eq!(read(b"\xff\n"), Some(Ok("\u{fffd}".to_string())));
}

#[test]
fn lines_of_256_bytes_are_the_longest() {
    let mut line = vec![b'a'; 256];
    line.push(b'\n');
    assert_eq!(read(&line), Some(Ok("a".repeat(256))));
    assert_eq!(read(&vec![b'a'; 257]), Some(Err(())));
    assert_eq!(read(&vec![b'a'; 256]), None);
}

#[test]
fn requests_are_understood_by_the_relay() {
    for role in [Role::Host, Role::Join] {
        let line = client::request_line("swri3s", role, "tok");
        let text = read(line.as_bytes()).unwrap().unwrap();
        let a = parse_auth(&text).unwrap();
        assert_eq!(a.room_id, "swri3s");
        assert_eq!(a.role, role);
        assert_eq!(a.token, "tok");
        let (outcome, reply) = authorize(&text, &registry());
        assert_eq!(outcome.unwrap().role, role);
        assert_eq!(reply, "OK\n");
        assert!(client::check_reply(reply.as_bytes()).is_ok());
    }
    assert_eq!(client::request_line("r", Role::Join, "t"), "RELAY r join t\n");
}

#[test]
fn every_line_is_answered() {
    let r = registry();
    let cases = [
        ("", RelayError::BadAuth, "ERROR bad auth\n"),
        ("RELAY swri3s host", RelayError::BadAuth, "ERROR bad auth\n"),
        ("RELAY swri3s host tok more", RelayError::BadAuth, "ERROR bad auth\n"),
        ("relay swri3s host tok", RelayError::BadAuth, "ERROR bad auth\n"),
        ("RELAY swri3s guest tok", RelayError::InvalidRole, "ERROR invalid role\n"),
        ("RELAY nobody host tok", RelayError::RoomNotFound, "ERROR room not found\n"),
        ("RELAY swri3s host no", RelayError::InvalidToken, "ERROR invalid token\n"),
    ];
    for (line, error, answer) in cases {
        let (outcome, reply) = authorize(line, &r);
        assert_eq!(outcome.unwrap_err(), error);
        assert_eq!(reply, answer);
        assert!(client::check_reply(reply.as_bytes()).is_err());
    }
    let (outcome, reply) = authorize("  RELAY\tswri3s  join tok \r", &r);
    assert_eq!(outcome.unwrap().room_id, "swri3s");
    assert_eq!(reply, "OK\n");
}

#[test]
fn each_line_is_answered_and_silence_is_not() {
    assert_eq!(RelayError::LineTooLong.reply(), Some("ERROR auth line too long\n"));
    assert_eq!(RelayError::BadAuth.reply(), Some("ERROR bad auth\n"));
    assert_eq!(RelayError::InvalidRole.reply(), Some("ERROR invalid role\n"));
    assert_eq!(RelayError::RoomNotFound.reply(), Some("ERROR room not found\n"));
    assert_eq!(RelayError::InvalidToken.reply(), Some("ERROR invalid token\n"));
    assert_eq!(RelayError::AuthTimeout.reply(), None);
    assert_eq!(RelayError::Eof.reply(), None);
    assert_eq!(RelayError::JoinClosed.reply(), None);
    assert_eq!(RelayError::NotMinecraft(1).reply(), None);
    let told = client::check_reply(RelayError::LineTooLong.reply().unwrap().as_bytes());
    assert_eq!(told.unwrap_err().message("h:1"), "relay auth failed: ERROR auth line too long");
}

#[test]
fn errors_have_their_messages() {
    assert_eq!(RelayError::AuthTimeout.message(), "auth timeout");
    assert_eq!(RelayError::Eof.message(), "eof during auth");
    assert_eq!(RelayError::LineTooLong.message(), "auth line too long");
    assert_eq!(RelayError::BadAuth.message(), "bad auth format");
    assert_eq!(RelayError::InvalidRole.message(), "invalid role");
    assert_eq!(RelayError::RoomNotFound.message(), "room not found");
    assert_eq!(RelayError::InvalidToken.message(), "invalid relay token");
    assert_eq!(RelayError::JoinClosed.message(), "join closed before handshake");
    assert_eq!(
        RelayError::NotMinecraft(0x0f).message(),
        "relay rejected non-MC traffic (pkt id 0x0f)"
    );
}

#[test]
fn partners_pair_first_come_first_served() {
    let mut p: Parkers<&str> = Parkers::new();
    assert!(matches!(p.arrive("a", Role::Host, "h1"), Arrival::Parked(_)));
    assert!(matches!(p.arrive("a", Role::Host, "h2"), Arrival::Parked(_)));
    assert!(matches!(p.arrive("b", Role::Join, "j0"), Arrival::Parked(_)));
    match p.arrive("a", Role::Join, "j1") {
        Arrival::Paired { host, join } => assert_eq!((host, join), ("h1", "j1")),
        _ => panic!("expected a pair"),
    }
    match p.arrive("a", Role::Join, "j2") {
        Arrival::Paired { host, join } => assert_eq!((host, join), ("h2", "j2")),
        _ => panic!("expected a pair"),
    }
    assert!(matches!(p.arrive("a", Role::Join, "j3"), Arrival::Parked(_)));
    match p.arrive("b", Role::Host, "h0") {
        Arrival::Paired { host, join } => assert_eq!((host, join), ("h0", "j0")),
        _ => panic!("expected a pair"),
    }
}

#[test]
fn a_timeout_takes_only_its_own_stream() {
    let mut p: Parkers<&str> = Parkers::new();
    p.arrive_as("a", Role::Host, 1, "h1");
    p.arrive_as("a", Role::Host, 2, "h2");
    assert!(!p.expire("a", Role::Join, 1));
    assert!(!p.expire("b", Role::Host, 1));
    assert!(!p.expire("a", Role::Host, 3));
    assert!(p.expire("a", Role::Host, 1));
    assert!(!p.expire("a", Role::Host, 1));
    match p.arrive_as("a", Role::Join, 9, "j") {
        Arrival::Paired { host, .. } => assert_eq!(host, "h2"),
        _ => panic!("expected a pair"),
    }
}

#[test]
fn only_handshakes_are_relayed() {
    let mut s = Sniffer::new();
    assert!(matches!(s.read(&[0x10]), SniffStep::More(2)));
    assert!(matches!(s.read(&[0x00, 0x47]), SniffStep::Relay));
    assert_eq!(s.head(), &[0x10, 0x00, 0x47]);
    let mut s = Sniffer::new();
    assert!(matches!(s.read(&[0x47, 0x45, 0x54]), SniffStep::Refuse(RelayError::NotMinecraft(0x45))));
    let mut s = Sniffer::new();
    assert!(matches!(s.read(&[]), SniffStep::Refuse(RelayError::JoinClosed)));
}

#[test]
fn relay_addresses_need_a_port() {
    assert_eq!(client::parse_relay_addr("relay.example.com:9090").unwrap(), "relay.example.com:9090");
    assert!(matches!(
        client::parse_relay_addr("relay.example.com"),
        Err(client::RelayError::MissingPort)
    ));
}

#[test]
fn replies_are_judged_by_their_start() {
    assert!(client::check_reply(b"OK\n").is_ok());
    assert!(client::check_reply(b"  OK then").is_ok());
    assert!(matches!(client::check_reply(b""), Err(client::RelayError::ClosedBeforeReply)));
    match client::check_reply(b"ERROR bad auth\n") {
        Err(client::RelayError::AuthFailed(t)) => assert_eq!(t, "ERROR bad auth"),
        _ => panic!("expected a refusal"),
    }
    match client::check_reply(b"\xff\n") {
        Err(client::RelayError::AuthFailed(t)) => assert_eq!(t, "\u{fffd}"),
        _ => panic!("expected a refusal"),
    }
    assert!(client::check_reply_text("ok").is_err());
}

#[test]
fn relay_failures_have_their_messages() {
    let addr = "relay.example.com:9090";
    let refused = client::check_reply(b"ERROR invalid token\n").unwrap_err();
    assert_eq!(refused.message(addr), "relay auth failed: ERROR invalid token");
    assert_eq!(
        client::RelayError::ConnectTimeout.message(addr),
        "relay connect timeout (addr=relay.example.com:9090)"
    );
    assert_eq!(client::RelayError::AuthTimeout.message(addr), "relay auth read timeout");
    assert_eq!(
        client::RelayError::ClosedBeforeReply.message(addr),
        "relay closed before auth response"
    );
    assert_eq!(client::RelayError::ClosedBeforePair.message(addr), "relay closed before pair");
    assert_eq!(
        client::parse_relay_addr("no\"port").unwrap_err().message("no\"port"),
        "relay address missing :port — \"no\\\"port\""
    );
}

#[test]
fn replies_are_read_up_to_their_newline() {
    let mut stream = b"OK\nhello".iter();
    let mut reader = client::ReplyReader::new();
    let verdict = loop {
        if let client::ReplyStep::Done(v) = reader.read_byte(*stream.next().unwrap()) {
            break v;
        }
    };
    assert!(verdict.is_ok());
    assert_eq!(stream.as_slice(), b"hello");

    let mut reader = client::ReplyReader::new();
    for b in [b'x'; 63] {
        assert!(matches!(reader.read_byte(b), client::ReplyStep::More));
    }
    match reader.read_byte(b'y') {
        client::ReplyStep::Done(Err(client::RelayError::AuthFailed(t))) => {
            assert_eq!(t, format!("{}y", "x".repeat(63)))
        }
        other => panic!("unexpected {:?}", other),
    }

    let reader = client::ReplyReader::new();
    assert!(matches!(reader.ended(), Err(client::RelayError::ClosedBeforeReply)));
    let mut reader = client::ReplyReader::new();
    assert!(matches!(reader.read_byte(b'O'), client::ReplyStep::More));
    assert!(matches!(reader.read_byte(b'K'), client::ReplyStep::More));
    assert!(reader.ended().is_ok());
}

#[test]
fn parked_connections_end_in_one_of_three_ways() {
    assert_eq!(client::park_one(ParkEvent::Readable(1)).unwrap(), ParkOutcome::Paired);
    assert_eq!(client::park_one(ParkEvent::Cancelled).unwrap(), ParkOutcome::Cancelled);
    assert!(matches!(
        client::park_one(ParkEvent::Readable(0)),
        Err(client::RelayError::ClosedBeforePair)
    ));
}

#[test]
fn the_pool_stays_full() {
    let mut p = HostPool::new(2);
    assert_eq!(p.step(false, false), PoolStep::Dial);
    assert_eq!(p.step(false, false), PoolStep::Dial);
    assert_eq!(p.step(false, false), PoolStep::Full);
    p.ended(ParkOutcome::Paired);
    assert_eq!(p.step(false, false), PoolStep::Dial);
    assert_eq!(p.step(true, false), PoolStep::Stop);
}

#[test]
fn failures_back_off_and_joiners_reset() {
    let mut p = HostPool::new(1);
    let mut waits = Vec::new();
    for _ in 0..8 {
        assert_eq!(p.step(false, true), PoolStep::Dial);
        p.ended(ParkOutcome::Failed);
        match p.step(false, false) {
            PoolStep::Wait(ms) => waits.push(ms),
            _ => panic!("expected a wait"),
        }
    }
    assert_eq!(waits, vec![500, 1000, 2000, 4000, 8000, 16000, 30000, 30000]);
    assert_eq!(p.step(false, true), PoolStep::Dial);
    p.ended(ParkOutcome::Cancelled);
    assert_eq!(p.step(false, false), PoolStep::Wait(30000));
    assert_eq!(p.step(false, true), PoolStep::Dial);
    p.ended(ParkOutcome::Paired);
    assert_eq!(p.step(false, false), PoolStep::Dial);
}

#[test]
fn the_first_joiner_is_announced_once() {
    let mut p = HostPool::new(4);
    let mut announced = 0;
    let mut warned = 0;
    for outcome in [
        ParkOutcome::Failed,
        ParkOutcome::Failed,
        ParkOutcome::Paired,
        ParkOutcome::Paired,
        ParkOutcome::Failed,
        ParkOutcome::Paired,
    ] {
        assert_eq!(p.step(false, true), PoolStep::Dial);
        let n = p.ended(outcome);
        announced += n.first_pair as u32;
        warned += n.warn as u32;
    }
    assert_eq!(announced, 1);
    assert_eq!(warned, 2);
}
