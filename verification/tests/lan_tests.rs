use mc_share::client::lan::{
    announce_interfaces, announcement_text, choose_port, parse_announcement,
};

#[test]
fn announcements_have_minecrafts_form() {
    assert_eq!(
        announcement_text("MineScale World", 25565),
        "[MOTD]MineScale World[/MOTD][AD]25565[/AD]"
    );
}

#[test]
fn announced_worlds_are_detected() {
    for port in [0u16, 7, 25565, 65535] {
        let text = announcement_text("世界", port);
        assert_eq!(parse_announcement(text.as_bytes()), Some(port));
    }
}

#[test]
fn other_datagrams_announce_nothing() {
    assert_eq!(parse_announcement(b""), None);
    assert_eq!(parse_announcement(b"[AD]25565"), None);
    assert_eq!(parse_announcement(b"[AD]65536[/AD]"), None);
    assert_eq!(parse_announcement(b"[AD]x[/AD]"), None);
    assert_eq!(parse_announcement(&[0xff, 0xfe]), None);
}

#[test]
fn reversed_tags_announce_nothing() {
    assert_eq!(parse_announcement(b"[/AD]x[AD]25565"), None);
    assert_eq!(parse_announcement(b"[/AD][AD]25565"), None);
    assert_eq!(parse_announcement(b"[/AD]25565[AD]25566[/AD]"), None);
    let heard: [&[u8]; 2] = [b"[/AD]x[AD]25565", b"[MOTD]w[/MOTD][AD]25566[/AD]"];
    assert_eq!(heard.iter().find_map(|d| parse_announcement(d)), Some(25566));
}

#[test]
fn tagged_names_hide_the_port() {
    let text = announcement_text("a[AD]1[/AD]", 25565);
    assert_eq!(parse_announcement(text.as_bytes()), Some(1));
}

#[test]
fn ports_are_chosen_in_order() {
    assert_eq!(choose_port(1234, Some(5)), 1234);
    assert_eq!(choose_port(0, Some(5)), 5);
    assert_eq!(choose_port(0, None), 25565);
}

#[test]
fn some_interface_is_always_announced_on() {
    assert_eq!(announce_interfaces(vec![1, 2]), vec![1, 2]);
    assert_eq!(announce_interfaces(vec![]), vec![0]);
}
