use mc_share::client::system::Os;
use mc_share::client::telemetry::{
    classify_error, enabled, os_family, os_major, run_outcome, session_id_of, short, AppKind,
    Environment, Outcome, Phase, Reporter, Role,
};
use mc_share::client::{stun, tunnel};
use mc_share::server::telemetry::{ingest, settle, written, IngestError, JsonShape};

fn env() -> Environment {
    Environment {
        os: Os::Linux,
        os_detail: "ubuntu 22".to_string(),
        arch: "x86_64".to_string(),
        app_version: "1.0.0".to_string(),
    }
}

#[test]
fn opting_in_takes_the_flag_or_the_variable() {
    assert!(enabled(true, None));
    for v in ["1", "true", "yes", "on"] {
        assert!(enabled(false, Some(v)));
    }
    for v in ["", "0", "TRUE", "y", "1 "] {
        assert!(!enabled(false, Some(v)));
    }
    assert!(!enabled(false, None));
}

#[test]
fn nothing_is_sent_unless_opted_in() {
    let r = Reporter::new(false, "https://h".to_string(), Role::Host, AppKind::Cli, 0);
    assert!(r.send_start(&env(), 1, 2).is_none());
    assert!(r.send_event(Phase::Connected, &env(), 1, 2).is_none());
    assert!(r.send_result(Outcome::Success, None, &env(), 1, 2).is_none());
}

#[test]
fn reports_say_what_is_known() {
    let mut r = Reporter::new(true, "https://h//".to_string(), Role::Join, AppKind::Gui, 1_000_000);
    assert_eq!(r.url(), "https://h/api/v1/telemetry");
    assert_eq!(r.session_id.len(), 16);
    assert!(r.session_id.bytes().all(|b| b.is_ascii_digit() || (b'a'..=b'f').contains(&b)));
    let p = r.send_start(&env(), 77, 3_999_999).unwrap();
    assert_eq!(p.schema, 1);
    assert_eq!(p.ts_ms, 77);
    assert_eq!(p.duration_ms, 2);
    assert_eq!(p.phase.name(), "start");
    assert_eq!(p.role.name(), "join");
    assert_eq!(p.app_kind.name(), "gui");
    assert_eq!(p.room_id, None);
    assert_eq!(p.nat_type, None);
    assert_eq!(p.os, "linux");
    assert_eq!(p.os_detail, "ubuntu 22");
    r.set_room("swri3s");
    r.set_network("Cone NAT (P2P ready)", true);
    let p = r.send_result(Outcome::StunFailed, Some("detail"), &env(), 78, 0).unwrap();
    assert_eq!(p.room_id.as_deref(), Some("swri3s"));
    assert_eq!(p.nat_type.as_deref(), Some("Cone NAT (P2P ready)"));
    assert_eq!(p.ipv6_available, Some(true));
    assert_eq!(p.outcome.unwrap().name(), "stun_failed");
    assert_eq!(p.outcome_detail.as_deref(), Some("detail"));
    assert_eq!(p.duration_ms, 0);
    assert_eq!(p.session_id, r.session_id);
}

#[test]
fn session_ids_are_hexadecimal() {
    assert_eq!(session_id_of(&[0, 1, 0x9f, 0xa0, 0xff, 0x10, 0x7e, 0xcd]), "00019fa0ff107ecd");
}

#[test]
fn being_connected_is_reported_once() {
    let mut r = Reporter::new(true, String::new(), Role::Host, AppKind::Cli, 0);
    assert!(r.set_connected());
    assert!(!r.set_connected());
}

#[test]
fn names_are_in_snake_case() {
    let outcomes = [
        (Outcome::Success, "success"),
        (Outcome::StunFailed, "stun_failed"),
        (Outcome::CoordFailed, "coord_failed"),
        (Outcome::PunchFailed, "punch_failed"),
        (Outcome::QuicFailed, "quic_failed"),
        (Outcome::TlsFailed, "tls_failed"),
        (Outcome::Cancelled, "cancelled"),
        (Outcome::Other, "other"),
    ];
    for (o, name) in outcomes {
        assert_eq!(o.name(), name);
    }
    assert_eq!(Role::Host.name(), "host");
    assert_eq!(AppKind::Cli.name(), "cli");
    assert_eq!(Phase::Registered.name(), "registered");
    assert_eq!(Phase::Connected.name(), "connected");
    assert_eq!(Phase::Result.name(), "result");
    assert_eq!(os_family(Os::Macos), "macos");
    assert_eq!(os_family(Os::Windows), "windows");
    assert_eq!(os_family(Os::Other), "other");
}

#[test]
fn messages_are_classified_by_their_words() {
    assert_eq!(classify_error(&stun::gave_up_message("s:1")), Outcome::StunFailed);
    assert_eq!(classify_error(&stun::unresolved_message("s:1")), Outcome::StunFailed);
    assert_eq!(classify_error(&tunnel::timed_out_message()), Outcome::PunchFailed);
    assert_eq!(classify_error("create_room 500: oops"), Outcome::CoordFailed);
    assert_eq!(classify_error("HTTP status 502"), Outcome::CoordFailed);
    assert_eq!(classify_error("certificate fingerprint mismatch"), Outcome::TlsFailed);
    assert_eq!(classify_error("TLS server config: x"), Outcome::TlsFailed);
    assert_eq!(classify_error("QUIC endpoint closed"), Outcome::QuicFailed);
    assert_eq!(classify_error("Connection refused"), Outcome::QuicFailed);
    assert_eq!(classify_error("cancelled"), Outcome::Cancelled);
    assert_eq!(classify_error("anything else"), Outcome::Other);
    assert_eq!(classify_error("STUN via http"), Outcome::StunFailed);
}

#[test]
fn details_are_one_short_line() {
    assert_eq!(short("first\nsecond"), "first");
    assert_eq!(short("first\r\nsecond"), "first");
    assert_eq!(short(""), "");
    let long = "x".repeat(200);
    assert_eq!(short(&long), "x".repeat(120));
    let exact = "é".repeat(61);
    assert_eq!(short(&exact), "é".repeat(60));
    let torn = format!("x{}", "é".repeat(60));
    assert_eq!(short(&torn), format!("x{}", "é".repeat(59)));
    let wide = format!("xyz{}", "😀".repeat(40));
    assert_eq!(short(&wide), format!("xyz{}", "😀".repeat(29)));
    assert_eq!(short(&"漢".repeat(40)), "漢".repeat(40));
    assert_eq!(run_outcome(Some(&torn)).1, Some(format!("x{}", "é".repeat(59))));
}

#[test]
fn runs_end_in_success_or_a_failure() {
    assert_eq!(run_outcome(None), (Outcome::Success, None));
    let (o, d) = run_outcome(Some("Hole punching timed out after 20s\nmore"));
    assert_eq!(o, Outcome::PunchFailed);
    assert_eq!(d.as_deref(), Some("Hole punching timed out after 20s"));
}

#[test]
fn systems_are_labelled_by_their_major_version() {
    let release = "NAME=\"Ubuntu\"\nID=ubuntu\nVERSION_ID=\"22.04\"\n";
    assert_eq!(os_major(Os::Linux, "linux", Some(release)), "ubuntu 22");
    assert_eq!(os_major(Os::Linux, "linux", Some("ID=\"arch\"\n")), "arch");
    assert_eq!(os_major(Os::Linux, "linux", Some("VERSION_ID=9\n")), "Linux");
    assert_eq!(os_major(Os::Linux, "linux", None), "Linux");
    let plist = "<dict>\n\t<key>ProductVersion</key>\n\t<string>14.5.1</string>\n</dict>\n";
    assert_eq!(os_major(Os::Macos, "macos", Some(plist)), "macOS 14");
    assert_eq!(os_major(Os::Macos, "macos", Some("<key>ProductVersion</key>")), "macOS");
    assert_eq!(os_major(Os::Macos, "macos", None), "macOS");
    assert_eq!(os_major(Os::Windows, "windows", None), "Windows");
    assert_eq!(os_major(Os::Other, "freebsd", None), "freebsd");
}

#[test]
fn reports_are_stamped_and_kept_on_one_line() {
    let body = "{\"b\":1,\n \"a\":\"x\\ny\"}";
    let line = ingest(body, 123, true).unwrap().unwrap();
    let v: serde_json::Value = serde_json::from_str(&line).unwrap();
    assert_eq!(v["server_recv_ts_ms"], 123);
    assert_eq!(v["a"], "x\ny");
    assert_eq!(v["b"], 1);
    assert_eq!(v.as_object().unwrap().len(), 3);
    assert!(!line.contains('\n'));
    let again = ingest("{\"server_recv_ts_ms\":\"forged\"}", 7, true).unwrap().unwrap();
    assert_eq!(again, "{\"server_recv_ts_ms\":7}");
}

#[test]
fn reports_under_the_raw_value_token_are_what_the_token_holds() {
    let body = "{\"$serde_json::private::RawValue\":\"{}\"}";
    let line = ingest(body, 5, true).unwrap().unwrap();
    assert_eq!(line, "{\"server_recv_ts_ms\":5}");
    let body = "{\"a\":1,\"$serde_json::private::RawValue\":\"x\"}";
    let line = ingest(body, 6, true).unwrap().unwrap();
    assert_eq!(
        line,
        "{\"$serde_json::private::RawValue\":\"x\",\"a\":1,\"server_recv_ts_ms\":6}"
    );
}

#[test]
fn members_are_kept_as_they_are_written() {
    let line = ingest("{\"z\": 1.50, \"k\\n\": [1, {\"b\": null}]}", 9, true).unwrap().unwrap();
    assert_eq!(line, "{\"k\\n\":[1,{\"b\":null}],\"server_recv_ts_ms\":9,\"z\":1.5}");
}

#[test]
fn reports_are_dropped_where_no_log_is_kept() {
    assert_eq!(ingest("{}", 1, false), Ok(None));
    assert_eq!(ingest("[]", 1, false), Err(IngestError::NotAnObject));
}

#[test]
fn bad_reports_have_their_answers() {
    let long = format!("{{\"a\":\"{}\"}}", "x".repeat(4096));
    assert_eq!(ingest(&long, 1, true), Err(IngestError::TooLarge));
    let fits = format!("{{\"a\":\"{}\"}}", "x".repeat(4096 - 8));
    assert_eq!(fits.len(), 4096);
    assert!(ingest(&fits, 1, true).is_ok());
    assert_eq!(ingest("{", 1, true), Err(IngestError::InvalidJson));
    assert_eq!(ingest("3", 1, true), Err(IngestError::NotAnObject));
    assert_eq!(settle(1, JsonShape::Object, None, true), Err(IngestError::Serialize));
    assert_eq!(written(true), Ok(()));
    assert_eq!(written(false), Err(IngestError::Write));
    assert_eq!(IngestError::TooLarge.response(), (413, "too large"));
    assert_eq!(IngestError::InvalidJson.response(), (400, "invalid json"));
    assert_eq!(IngestError::NotAnObject.response(), (400, "not an object"));
    assert_eq!(IngestError::Serialize.response(), (500, "serialize"));
    assert_eq!(IngestError::Write.response(), (500, "write"));
}
