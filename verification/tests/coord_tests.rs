use mc_share::client::coord::{
    after_poll, check_reply, parse_room_id, read_poll_reply, wait_timed_out, Client, IndexedPeer,
    Method, PollReply, WaitStep,
};

fn peer(idx: usize) -> IndexedPeer {
    IndexedPeer { idx, join_pubkey: "k".to_string(), join_stun: "1.2.3.4:5".to_string() }
}

#[test]
fn calls_go_to_the_rooms_resources() {
    let c = Client::new("https://mcs.example.com//".to_string());
    let call = c.create_room();
    assert_eq!(call.method, Method::Post);
    assert_eq!(call.url, "https://mcs.example.com/api/v1/rooms");
    assert!(call.bearer.is_none());
    let call = c.poll_peers("swri3s", "tok", 10);
    assert_eq!(call.method, Method::Get);
    assert_eq!(call.url, "https://mcs.example.com/api/v1/rooms/swri3s/peers?after=10");
    assert_eq!(call.bearer.as_deref(), Some("tok"));
    let call = c.join_room("swri3s");
    assert_eq!(call.method, Method::Post);
    assert_eq!(call.url, "https://mcs.example.com/api/v1/rooms/swri3s/join");
}

#[test]
fn replies_outside_the_two_hundreds_are_errors() {
    assert!(check_reply("create_room", 200, "200 OK", "").is_ok());
    assert!(check_reply("create_room", 299, "299", "").is_ok());
    let e = check_reply("create_room", 429, "429 Too Many Requests", "rate limit exceeded");
    assert_eq!(
        e.unwrap_err().message,
        "create_room 429 Too Many Requests: rate limit exceeded"
    );
    assert!(check_reply("x", 199, "", "").is_err());
    assert!(check_reply("x", 300, "", "").is_err());
}

#[test]
fn a_missing_room_has_expired() {
    assert_eq!(read_poll_reply(200), PollReply::Peers);
    assert_eq!(read_poll_reply(404), PollReply::Expired);
    assert_eq!(read_poll_reply(401), PollReply::Failed);
    assert_eq!(read_poll_reply(500), PollReply::Failed);
}

#[test]
fn waits_poll_until_the_deadline() {
    let c = Client::new("http://h".to_string());
    match c.wait_for_peer("r", "t", 0, 9, 10) {
        WaitStep::Poll(call) => assert_eq!(call.url, "http://h/api/v1/rooms/r/peers?after=0"),
        _ => panic!("expected a poll"),
    }
    assert!(matches!(c.wait_for_peer("r", "t", 0, 10, 10), WaitStep::TimedOut));
    assert_eq!(wait_timed_out(), "Timed out waiting for someone to join");
}

#[test]
fn the_first_joiner_ends_a_wait() {
    assert!(matches!(after_poll(vec![]), WaitStep::Sleep(2000)));
    match after_poll(vec![peer(3), peer(4)]) {
        WaitStep::Found(p) => assert_eq!(p.idx, 3),
        _ => panic!("expected a joiner"),
    }
}

#[test]
fn links_and_codes_name_rooms() {
    assert_eq!(parse_room_id("https://mcs.example.com/8fk2lm"), "8fk2lm");
    assert_eq!(parse_room_id("https://mcs.example.com/8fk2lm///"), "8fk2lm");
    assert_eq!(parse_room_id("8fk2lm"), "8fk2lm");
    assert_eq!(parse_room_id("/"), "");
    assert_eq!(parse_room_id(""), "");
}
