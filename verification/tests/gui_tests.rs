use mc_share::client::diag::{
    check_nat, detect_minecraft, mc_base_dir, os_detail, sort_versions, stun_servers, DiagResult,
    NatType,
};
use mc_share::client::stun::Endpoint;
use mc_share::client::system::Os;
use mc_share::client::telemetry::AppKind;
use mc_share::gui::app::{
    countdown, minecraft_rows, nat_hint, network_rows, parse_arguments, system_rows, App,
    DiagPanel, JoinPanel, Launch, Mode, RunState, Tone,
};
use mc_share::gui::log::{debug_message, EventLevel, GuiLayer, LogLevel};

const SECOND: u64 = 1_000_000_000;

fn names(list: &[&str]) -> Vec<String> {
    list.iter().map(|s| s.to_string()).collect()
}

fn endpoint(port: u16) -> Endpoint {
    Endpoint { ip: 0xCB00_7101, port }
}

fn diagnosis() -> DiagResult {
    DiagResult {
        ext_v4_primary: Some(endpoint(1)),
        ext_v4_secondary: Some(endpoint(2)),
        nat_type: NatType::Symmetric,
        ipv6_available: false,
        os_detail: "Ubuntu 22.04 LTS".to_string(),
        arch: "x86_64".to_string(),
        mc_dir: Some("/home/u/.minecraft".to_string()),
        mc_versions: names(&["1.20.1", "1.19"]),
    }
}

#[test]
fn nats_are_told_apart_by_their_ports() {
    let n = check_nat(Some(endpoint(1)), Some(endpoint(1)));
    assert_eq!(n.nat_type, NatType::Cone);
    assert!(n.nat_type.is_ok());
    let n = check_nat(Some(endpoint(1)), Some(endpoint(2)));
    assert_eq!(n.nat_type, NatType::Symmetric);
    assert_eq!(n.secondary, Some(endpoint(2)));
    let n = check_nat(Some(endpoint(1)), None);
    assert_eq!(n.nat_type, NatType::Indeterminate);
    assert_eq!(n.primary, Some(endpoint(1)));
    let n = check_nat(None, Some(endpoint(1)));
    assert_eq!(n.nat_type, NatType::Indeterminate);
    assert_eq!((n.primary, n.secondary), (None, Some(endpoint(1))));
    let n = check_nat(None, None);
    assert_eq!(n.nat_type, NatType::UdpBlocked);
    assert_eq!((n.primary, n.secondary), (None, None));
    assert!(!NatType::UdpBlocked.is_ok());
}

#[test]
fn nats_have_labels() {
    assert_eq!(NatType::UdpBlocked.label(), "UDP Blocked (P2P unavailable)");
    assert_eq!(NatType::Cone.label(), "Cone NAT (P2P ready)");
    assert_eq!(NatType::Symmetric.label(), "Symmetric NAT (relay mode)");
    assert_eq!(NatType::Indeterminate.label(), "Indeterminate (1 server only)");
    assert_eq!(stun_servers(), ("stun.l.google.com:19302", "stun.cloudflare.com:3478"));
}

#[test]
fn systems_are_named_in_full() {
    let release = "ID=ubuntu\nPRETTY_NAME=\"Ubuntu 22.04 LTS\"\nPRETTY_NAME=x\n";
    assert_eq!(os_detail(Os::Linux, "linux", Some(release)), "Ubuntu 22.04 LTS");
    assert_eq!(os_detail(Os::Linux, "linux", Some("ID=x\n")), "Linux");
    assert_eq!(os_detail(Os::Linux, "linux", None), "Linux");
    let plist = "<key>ProductName</key>\n  <string>macOS</string>\n<key>ProductVersion</key>\n  \
                 <string>14.5</string>\n";
    assert_eq!(os_detail(Os::Macos, "macos", Some(plist)), "macOS 14.5");
    let unnamed = "<key>ProductVersion</key>\n<string>14.5</string>\n";
    assert_eq!(os_detail(Os::Macos, "macos", Some(unnamed)), "macOS");
    let unversioned = "<key>ProductName</key>\n<string>Mac OS X</string>\n";
    assert_eq!(os_detail(Os::Macos, "macos", Some(unversioned)), "Mac OS X");
    let both = "<key>ProductName</key>\n<string>macOS</string>\n<key>ProductVersion</key>\n\
                <string>14.5</string>\n<key>ProductUserVisibleVersion</key>\n<string>14.6</string>";
    assert_eq!(os_detail(Os::Macos, "macos", Some(both)), "macOS 14.6");
    assert_eq!(os_detail(Os::Windows, "windows", Some(release)), "Windows");
    assert_eq!(os_detail(Os::Other, "freebsd", None), "freebsd");
}

#[test]
fn systems_are_known_by_their_names() {
    assert_eq!(Os::of("linux"), Os::Linux);
    assert_eq!(Os::of("macos"), Os::Macos);
    assert_eq!(Os::of("windows"), Os::Windows);
    assert_eq!(Os::of("freebsd"), Os::Other);
    assert_eq!(Os::Linux.version_file(), Some("/etc/os-release"));
    assert_eq!(Os::Windows.version_file(), None);
    assert!(Os::Macos.version_file().unwrap().ends_with("SystemVersion.plist"));
}

#[test]
fn minecraft_has_its_place() {
    assert_eq!(mc_base_dir(Os::Linux), Some(("HOME", ".minecraft")));
    assert_eq!(mc_base_dir(Os::Windows), Some(("APPDATA", ".minecraft")));
    assert_eq!(mc_base_dir(Os::Macos), Some(("HOME", "Library/Application Support/minecraft")));
    assert_eq!(mc_base_dir(Os::Other), None);
}

#[test]
fn releases_are_listed_newest_first() {
    let found = names(&["1.8.9", "fabric-loader", "1.20.1", "1.9", "", "23w13a_or_b", "1.20"]);
    assert_eq!(detect_minecraft(&found), names(&["1.20.1", "1.20", "1.9", "1.8.9", "23w13a_or_b"]));
}

#[test]
fn equally_new_versions_keep_their_order() {
    let given = names(&["1.20-b", "1.20-a", "1.20.1-x", "1.20", "2"]);
    // "20-b" is no number, so the first two count as 1.0.0; nor is "1-x".
    assert_eq!(sort_versions(&given), names(&["2", "1.20.1-x", "1.20", "1.20-b", "1.20-a"]));
    assert_eq!(sort_versions(&names(&["1.x.7", "1.6"])), names(&["1.x.7", "1.6"]));
    assert_eq!(sort_versions(&vec![]), names(&[]));
}

#[test]
fn the_sorted_list_is_the_same_for_every_order_of_distinct_versions() {
    let sorted = names(&["1.20.1", "1.20", "1.9", "1.8.9"]);
    assert_eq!(sort_versions(&names(&["1.9", "1.20", "1.8.9", "1.20.1"])), sorted);
    assert_eq!(sort_versions(&names(&["1.20.1", "1.8.9", "1.9", "1.20"])), sorted);
    assert_eq!(sort_versions(&sorted), sorted);
}

#[test]
fn own_events_are_logged() {
    let mut l = GuiLayer::new();
    l.on_event("mc_share::host", EventLevel::Info, "hello".to_string());
    l.on_event("mc_share_gui", EventLevel::Error, "bad".to_string());
    l.on_event("mc_share", EventLevel::Warn, "hm".to_string());
    l.on_event("mc_share", EventLevel::Debug, "quiet".to_string());
    l.on_event("mc_share", EventLevel::Trace, "quiet".to_string());
    l.on_event("quinn", EventLevel::Error, "other".to_string());
    l.on_event("mc_share", EventLevel::Info, String::new());
    let got: Vec<(LogLevel, &str)> = l.log.iter().map(|e| (e.0, e.1.as_str())).collect();
    assert_eq!(
        got,
        vec![(LogLevel::Info, "hello"), (LogLevel::Error, "bad"), (LogLevel::Warn, "hm")]
    );
    l.push_log(LogLevel::Info, "Stopped.");
    assert_eq!(l.log.last().unwrap().1, "Stopped.");
    l.clear();
    assert!(l.log.is_empty());
}

#[test]
fn the_log_is_bounded() {
    let mut l = GuiLayer::new();
    for i in 0..2000 {
        l.on_event("mc_share", EventLevel::Info, i.to_string());
    }
    assert_eq!(l.log.len(), 2000);
    l.on_event("mc_share", EventLevel::Info, "2000".to_string());
    assert_eq!(l.log.len(), 1601);
    assert_eq!(l.log[0].1, "400");
    assert_eq!(l.log[1600].1, "2000");
}

#[test]
fn quotes_around_messages_are_dropped() {
    assert_eq!(debug_message("\"hi\""), "hi");
    assert_eq!(debug_message("hi"), "hi");
    assert_eq!(LogLevel::Warn.rgb(), (255, 210, 60));
}

#[test]
fn inputs_become_configurations() {
    let mut a = App::new(false, Some("on"));
    assert!(a.telemetry_enabled);
    assert_eq!(a.coord_url, "https://mcs.markund.f5.si");
    a.mc_port = " 25570 ".to_string();
    a.coord_url = " https://h ".to_string();
    let c = a.start_host();
    assert_eq!(c.mc_port, 25570);
    assert_eq!(c.coord_url, "https://h");
    assert_eq!(c.stun_server, "stun.l.google.com:19302");
    assert_eq!(c.app_kind, AppKind::Gui);
    assert_eq!(a.state, RunState::Running);
    assert_eq!(a.stop(), "Stopped.");
    assert_eq!(a.state, RunState::Idle);
    a.mc_port = "99999".to_string();
    assert_eq!(a.start_host().mc_port, 0);
    a.stop();
    a.paste(" swri3s \n");
    let c = a.start_join();
    assert_eq!(c.target, "swri3s");
    assert_eq!(c.local_port, 25565);
    assert!(c.telemetry);
}

#[test]
fn the_countdown_starts_with_the_link() {
    let mut a = App::new(false, None);
    a.start_host();
    a.poll_cells(None, None, 0);
    assert!(a.show_host_panel(0).link.is_none());
    a.poll_cells(Some("https://h/swri3s"), None, 10 * SECOND);
    a.poll_cells(Some("https://h/other"), None, 20 * SECOND);
    let p = a.show_host_panel(10 * SECOND);
    assert!(!p.idle);
    assert_eq!(p.link.as_deref(), Some("https://h/swri3s"));
    let (tone, line) = p.countdown.unwrap();
    assert_eq!(tone, Tone::Gray);
    assert_eq!(line, "⏱  New joiners accepted for 15:00");
    a.start_host();
    assert!(a.show_host_panel(0).countdown.is_none());
}

#[test]
fn the_last_minute_stands_out() {
    assert_eq!(countdown(60 * SECOND, 0), (Tone::Gray, "⏱  New joiners accepted for 01:00".to_string()));
    assert_eq!(countdown(60 * SECOND, 1), (Tone::Orange, "⏱  New joiners accepted for 00:59".to_string()));
    assert_eq!(countdown(725 * SECOND, 0).1, "⏱  New joiners accepted for 12:05");
    let (tone, line) = countdown(60 * SECOND, 60 * SECOND);
    assert_eq!(tone, Tone::DarkRed);
    assert!(line.starts_with("⏱  Room expired"));
}

#[test]
fn the_join_panel_follows_the_tunnel() {
    let mut a = App::new(false, None);
    assert!(matches!(a.show_join_panel(), JoinPanel::Idle { can_join: false }));
    a.share_input = "  swri3s ".to_string();
    assert!(matches!(a.show_join_panel(), JoinPanel::Idle { can_join: true }));
    a.start_join();
    assert!(matches!(a.show_join_panel(), JoinPanel::Connecting));
    a.poll_cells(None, Some(40000), 0);
    a.poll_cells(None, Some(1), 0);
    match a.show_join_panel() {
        JoinPanel::Connected { address } => assert_eq!(address, "127.0.0.1:40000"),
        _ => panic!("expected a connection"),
    }
}

#[test]
fn tabs_are_locked_while_something_runs() {
    let mut a = App::new(false, None);
    a.select_mode(Mode::Join);
    assert_eq!(a.mode, Mode::Join);
    a.start_join();
    a.select_mode(Mode::Host);
    assert_eq!(a.mode, Mode::Join);
    a.select_mode(Mode::Diag);
    assert_eq!(a.mode, Mode::Diag);
}

#[test]
fn diagnostics_are_shown_line_by_line() {
    let mut d = diagnosis();
    let rows = network_rows(&d);
    let got: Vec<(&str, &str)> = rows.iter().map(|r| (r.label, r.value.as_str())).collect();
    assert_eq!(
        got,
        vec![
            ("External Address (IPv4)", "203.0.113.1:1"),
            ("External Address (STUN2)", "203.0.113.1:2"),
            ("NAT Type", "⚠️ Symmetric NAT (relay mode)"),
            ("UDP", "✅ Available"),
            ("IPv6", "— Unavailable"),
        ]
    );
    assert_eq!(rows[2].tone, Tone::Orange);
    assert!(nat_hint(d.nat_type).unwrap().1.starts_with("⚠ Symmetric NAT"));
    assert_eq!(system_rows(&d)[0].value, "Ubuntu 22.04 LTS");
    assert_eq!(minecraft_rows(&d)[1].value, "1.20.1, 1.19");
    d.ext_v4_primary = None;
    d.ext_v4_secondary = None;
    d.nat_type = NatType::UdpBlocked;
    d.ipv6_available = true;
    d.mc_dir = None;
    d.mc_versions = Vec::new();
    let rows = network_rows(&d);
    assert_eq!(rows.len(), 4);
    assert_eq!(rows[0].value, "Failed");
    assert_eq!(rows[1].value, "❌ UDP Blocked (P2P unavailable)");
    assert_eq!(rows[2].value, "❌ Blocked / Failed");
    assert_eq!(rows[3].value, "✅ Available");
    assert_eq!(minecraft_rows(&d)[0].value, "— Not found");
    assert_eq!(minecraft_rows(&d)[1].value, "— None detected");
    assert_eq!(minecraft_rows(&d)[1].tone.rgb(), Some((160, 160, 160)));
    assert!(nat_hint(NatType::Cone).is_none());
}

#[test]
fn diagnostics_end_with_their_result() {
    let mut a = App::new(false, None);
    assert!(matches!(a.show_diag_panel(None), DiagPanel::Ready));
    a.start_diag();
    assert!(matches!(a.show_diag_panel(None), DiagPanel::Running));
    match a.show_diag_panel(Some(&diagnosis())) {
        DiagPanel::Done { network, system, minecraft, hint } => {
            assert_eq!(network.len(), 5);
            assert_eq!(system.len(), 2);
            assert_eq!(minecraft.len(), 2);
            assert!(hint.is_some());
        }
        _ => panic!("expected a result"),
    }
    assert!(!a.diag_running);
}

#[test]
fn arguments_open_the_window_or_show_help() {
    assert_eq!(parse_arguments(&names(&["gui"])), Launch::Open { telemetry: false });
    assert_eq!(parse_arguments(&names(&["gui", "--telemetry"])), Launch::Open { telemetry: true });
    assert_eq!(parse_arguments(&names(&["gui", "--telemetry", "-h"])), Launch::Help);
    assert_eq!(parse_arguments(&names(&["gui", "--help"])), Launch::Help);
}
