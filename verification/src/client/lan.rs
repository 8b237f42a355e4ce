//! The LAN world announcements of Minecraft: reading them, and making them.
use crate::text;
use vstd::prelude::*;
use vstd::string::*;

verus! {

/// The multicast group that Minecraft announces LAN worlds to.
pub const MULTICAST_ADDR: u32 = 0xE000_023C;

pub const MULTICAST_PORT: u16 = 4445;

/// Minecraft expects announcements roughly every second.
pub const ANNOUNCE_INTERVAL_MS: u64 = 1500;

/// The port that is hosted where no LAN world is found.
pub const DEFAULT_MC_PORT: u16 = 25565;

/// The announcement of a world.
pub open spec fn announcement(motd: Seq<char>, port: u16) -> Seq<char> {
    "[MOTD]"@ + motd + "[/MOTD][AD]"@ + text::decimal(port as nat) + "[/AD]"@
}

/// The announced port in a text: what stands between the first opening and the
/// first closing tag, where the tags are in this order and enclose a port number.
pub open spec fn announced_port(s: Seq<char>) -> Option<int> {
    match (text::find(s, "[AD]"@), text::find(s, "[/AD]"@)) {
        (Some(a), Some(e)) => if a + 4 <= e {
            text::number(s.subrange(a + 4, e), 65535)
        } else {
            None
        },
        _ => None,
    }
}

/// The port that a datagram announces.
pub open spec fn datagram_port(data: Seq<u8>) -> Option<int> {
    if vstd::utf8::valid_utf8(data) {
        announced_port(vstd::utf8::decode_utf8(data))
    } else {
        None
    }
}

/// The announcement of a world.
pub fn announcement_text(motd: &str, port: u16) -> (r: String)
    ensures
        r@ == announcement(motd@, port),
{
    let mut out = String::from_str("[MOTD]");
    out.append(motd);
    out.append("[/MOTD][AD]");
    text::push_number(&mut out, port as u64);
    out.append("[/AD]");
    out
}

/// The port that a datagram announces.
pub fn parse_announcement(data: &[u8]) -> (r: Option<u16>)
    ensures
        match r {
            Some(port) => datagram_port(data@) == Some(port as int),
            None => datagram_port(data@) is None,
        },
{
    let s = match text::utf8_text(data) {
        Some(s) => s,
        None => {
            return None;
        },
    };
    let c = text::chars_of(s.as_str());
    let a = match text::find_text(c.as_slice(), "[AD]") {
        Some(a) => a,
        None => {
            return None;
        },
    };
    let e = match text::find_text(c.as_slice(), "[/AD]") {
        Some(e) => e,
        None => {
            return None;
        },
    };
    proof {
        text::lemma_find_from(c@, "[AD]"@, 0);
        text::lemma_find_from(c@, "[/AD]"@, 0);
        reveal_strlit("[AD]");
    }
    if e < 4 || e - 4 < a {
        return None;
    }
    text::parse_port(&c.as_slice()[a + 4..e])
}

/// The local addresses to announce on: every interface that a socket could be
/// pinned to, or the unspecified address where there is none.
pub fn announce_interfaces(pinned: Vec<u32>) -> (r: Vec<u32>)
    ensures
        pinned@.len() > 0 ==> r@ == pinned@,
        pinned@.len() == 0 ==> r@ == seq![0u32],
        r@.len() > 0,
{
    if pinned.len() == 0 {
        let r: Vec<u32> = vec![0u32];
        assert(r@ =~= seq![0u32]);
        r
    } else {
        pinned
    }
}

/// The port to host: the configured one, else the one of a LAN world, else
/// Minecraft's own.
pub open spec fn hosted_port(configured: u16, detected: Option<u16>) -> u16 {
    if configured != 0 {
        configured
    } else {
        match detected {
            Some(p) => p,
            None => DEFAULT_MC_PORT,
        }
    }
}

/// The port to host.
pub fn choose_port(configured: u16, detected: Option<u16>) -> (r: u16)
    ensures
        r == hosted_port(configured, detected),
{
    if configured != 0 {
        configured
    } else {
        match detected {
            Some(p) => p,
            None => DEFAULT_MC_PORT,
        }
    }
}

// ── Laws ─────────────────────────────────────────────────────────────────────

/// The name of the world holds neither of the tags that enclose the port.
pub open spec fn plain_motd(motd: Seq<char>) -> bool {
    !text::contains_text(motd, "[AD]"@) && !text::contains_text(motd, "[/AD]"@)
}

/// Where the opening tag before the port stands in an announcement.
spec fn open_at(motd: Seq<char>) -> int {
    13 + motd.len() as int
}

/// Where the closing tag behind the port stands in an announcement.
spec fn close_at(motd: Seq<char>, port: u16) -> int {
    17 + motd.len() as int + text::decimal(port as nat).len() as int
}

/// The parts of an announcement.
proof fn lemma_announcement_parts(motd: Seq<char>, port: u16)
    ensures
        ({
            let s = announcement(motd, port);
            let a = open_at(motd);
            let e = close_at(motd, port);
            &&& s.len() == e + 5
            &&& s.subrange(0, 6) == "[MOTD]"@
            &&& s.subrange(6, 6 + motd.len() as int) == motd
            &&& s.subrange(6 + motd.len() as int, a + 4) == "[/MOTD][AD]"@
            &&& s.subrange(a, a + 4) == "[AD]"@
            &&& s.subrange(a + 4, e) == text::decimal(port as nat)
            &&& s.subrange(e, e + 5) == "[/AD]"@
        }),
{
    reveal_strlit("[MOTD]");
    reveal_strlit("[/MOTD][AD]");
    reveal_strlit("[AD]");
    reveal_strlit("[/AD]");
    let s = announcement(motd, port);
    let a = open_at(motd);
    let e = close_at(motd, port);
    assert(s.subrange(0, 6) =~= "[MOTD]"@);
    assert(s.subrange(6, 6 + motd.len() as int) =~= motd);
    assert(s.subrange(6 + motd.len() as int, a + 4) =~= "[/MOTD][AD]"@);
    assert(s.subrange(a, a + 4) =~= "[AD]"@);
    assert(s.subrange(a + 4, e) =~= text::decimal(port as nat));
    assert(s.subrange(e, e + 5) =~= "[/AD]"@);
}

/// Which characters stand where in an announcement, outside the name.
proof fn lemma_announcement_chars(motd: Seq<char>, port: u16)
    ensures
        ({
            let s = announcement(motd, port);
            let n = motd.len() as int;
            let e = close_at(motd, port);
            &&& s.len() == e + 5
            &&& s[0] == '[' && s[1] == 'M' && s[2] == 'O' && s[3] == 'T' && s[4] == 'D'
            &&& s[5] == ']'
            &&& s[6 + n] == '[' && s[7 + n] == '/' && s[8 + n] == 'M' && s[9 + n] == 'O'
            &&& s[10 + n] == 'T' && s[11 + n] == 'D' && s[12 + n] == ']'
            &&& s[13 + n] == '[' && s[14 + n] == 'A' && s[15 + n] == 'D' && s[16 + n] == ']'
            &&& forall|k: int| 17 + n <= k < e ==> text::is_digit(#[trigger] s[k])
            &&& s[e] == '[' && s[e + 1] == '/'
        }),
{
    reveal_strlit("[MOTD]");
    reveal_strlit("[/MOTD][AD]");
    reveal_strlit("[/AD]");
    let s = announcement(motd, port);
    let n = motd.len() as int;
    let e = close_at(motd, port);
    let d = text::decimal(port as nat);
    text::lemma_decimal(port as nat);
    assert forall|k: int| 17 + n <= k < e implies text::is_digit(#[trigger] s[k]) by {
        assert(s[k] == d[k - 17 - n]);
    }
}

/// Before its own opening tag an announcement has only those of the name.
proof fn lemma_open_tags(motd: Seq<char>, port: u16, j: int)
    requires
        0 <= j < open_at(motd),
        text::occurs_at(announcement(motd, port), "[AD]"@, j),
    ensures
        6 <= j,
        text::occurs_at(motd, "[AD]"@, j - 6),
{
    lemma_announcement_chars(motd, port);
    lemma_announcement_parts(motd, port);
    let s = announcement(motd, port);
    let n = motd.len() as int;
    let w = s.subrange(j, j + 4);
    reveal_strlit("[AD]");
    assert(w[0] == s[j] && w[1] == s[j + 1] && w[2] == s[j + 2] && w[3] == s[j + 3]);
    assert(6 <= j);
    assert(j + 4 <= 6 + n);
    assert(motd.subrange(j - 6, j - 2) =~= s.subrange(6, 6 + n).subrange(j - 6, j - 2));
    assert(s.subrange(6, 6 + n).subrange(j - 6, j - 2) =~= w);
}

/// Before its own closing tag an announcement has only those of the name.
proof fn lemma_close_tags(motd: Seq<char>, port: u16, j: int)
    requires
        0 <= j < close_at(motd, port),
        text::occurs_at(announcement(motd, port), "[/AD]"@, j),
    ensures
        6 <= j,
        text::occurs_at(motd, "[/AD]"@, j - 6),
{
    lemma_announcement_chars(motd, port);
    lemma_announcement_parts(motd, port);
    let s = announcement(motd, port);
    let n = motd.len() as int;
    let w = s.subrange(j, j + 5);
    reveal_strlit("[/AD]");
    assert(w[0] == s[j] && w[1] == s[j + 1] && w[2] == s[j + 2] && w[3] == s[j + 3] && w[4] == s[j
        + 4]);
    assert(6 <= j);
    if 17 + n <= j {
        assert(text::is_digit(s[j]));
    }
    assert(j + 5 <= 6 + n);
    assert(motd.subrange(j - 6, j - 1) =~= s.subrange(6, 6 + n).subrange(j - 6, j - 1));
    assert(s.subrange(6, 6 + n).subrange(j - 6, j - 1) =~= w);
}

/// An occurrence of a tag in an announcement stands in the name of the world, or
/// is one of the two that enclose the port.
proof fn lemma_tags_of_announcement(motd: Seq<char>, port: u16)
    ensures
        ({
            let s = announcement(motd, port);
            let d = text::decimal(port as nat);
            let a = 13 + motd.len() as int;
            let e = a + 4 + d.len() as int;
            &&& text::occurs_at(s, "[AD]"@, a)
            &&& text::occurs_at(s, "[/AD]"@, e)
            &&& s.subrange(a + 4, e) == d
            &&& s.len() == e + 5
            &&& forall|j: int| 0 <= j < a && #[trigger] text::occurs_at(s, "[AD]"@, j) ==> 6 <= j
                && text::occurs_at(motd, "[AD]"@, j - 6)
            &&& forall|j: int| 0 <= j < e && #[trigger] text::occurs_at(s, "[/AD]"@, j) ==> 6 <= j
                && text::occurs_at(motd, "[/AD]"@, j - 6)
            &&& forall|j: int| #[trigger] text::occurs_at(motd, "[AD]"@, j) ==> text::occurs_at(
                s,
                "[AD]"@,
                j + 6,
            )
            &&& forall|j: int| #[trigger] text::occurs_at(motd, "[/AD]"@, j) ==> text::occurs_at(
                s,
                "[/AD]"@,
                j + 6,
            )
        }),
{
    let s = announcement(motd, port);
    let n = motd.len() as int;
    lemma_announcement_parts(motd, port);
    assert("[AD]"@.len() == 4) by {
        reveal_strlit("[AD]");
    }
    assert("[/AD]"@.len() == 5) by {
        reveal_strlit("[/AD]");
    }
    assert forall|j: int| 0 <= j < open_at(motd) && #[trigger]
        text::occurs_at(s, "[AD]"@, j) implies 6 <= j && text::occurs_at(motd, "[AD]"@, j - 6) by {
        lemma_open_tags(motd, port, j);
    }
    assert forall|j: int| 0 <= j < close_at(motd, port) && #[trigger]
        text::occurs_at(s, "[/AD]"@, j) implies 6 <= j && text::occurs_at(motd, "[/AD]"@, j - 6) by {
        lemma_close_tags(motd, port, j);
    }
    assert forall|j: int| #[trigger]
        text::occurs_at(motd, "[AD]"@, j) implies text::occurs_at(s, "[AD]"@, j + 6) by {
        assert(s.subrange(j + 6, j + 10) =~= s.subrange(6, 6 + n).subrange(j, j + 4));
    }
    assert forall|j: int| #[trigger]
        text::occurs_at(motd, "[/AD]"@, j) implies text::occurs_at(s, "[/AD]"@, j + 6) by {
        assert(s.subrange(j + 6, j + 11) =~= s.subrange(6, 6 + n).subrange(j, j + 5));
    }
}

/// What is announced is what is detected: an announcement is read back as the
/// port it was made for. The name of the world must hold no tag, or read as that
/// port itself.
pub proof fn law_announcement_is_detected(motd: Seq<char>, port: u16)
    requires
        plain_motd(motd) || announced_port(motd) == Some(port as int),
    ensures
        announced_port(announcement(motd, port)) == Some(port as int),
        datagram_port(vstd::utf8::encode_utf8(announcement(motd, port))) == Some(port as int),
{
    let s = announcement(motd, port);
    let d = text::decimal(port as nat);
    lemma_tags_of_announcement(motd, port);
    if plain_motd(motd) {
        let a = 13 + motd.len() as int;
        let e = a + 4 + d.len() as int;
        text::lemma_find_is(s, "[AD]"@, a);
        text::lemma_find_is(s, "[/AD]"@, e);
        text::lemma_number_of_decimal(port as nat, 65535);
    } else {
        let a = text::find(motd, "[AD]"@)->0;
        let e = text::find(motd, "[/AD]"@)->0;
        text::lemma_find_from(motd, "[AD]"@, 0);
        text::lemma_find_from(motd, "[/AD]"@, 0);
        assert(text::occurs_at(motd, "[AD]"@, a));
        assert(text::occurs_at(motd, "[/AD]"@, e));
        text::lemma_find_is(s, "[AD]"@, a + 6);
        text::lemma_find_is(s, "[/AD]"@, e + 6);
        reveal_strlit("[MOTD]");
        assert(s.subrange(a + 10, e + 6) =~= motd.subrange(a + 4, e));
    }
    vstd::utf8::encode_utf8_valid_utf8(s);
    vstd::utf8::encode_utf8_decode_utf8(s);
}

/// A text whose first closing tag begins before its first opening tag ends announces
/// nothing.
pub proof fn law_reversed_tags_announce_nothing(s: Seq<char>, a: int, e: int)
    requires
        text::find(s, "[AD]"@) == Some(a),
        text::find(s, "[/AD]"@) == Some(e),
        e < a + 4,
    ensures
        announced_port(s) is None,
        datagram_port(vstd::utf8::encode_utf8(s)) is None,
{
    vstd::utf8::encode_utf8_valid_utf8(s);
    vstd::utf8::encode_utf8_decode_utf8(s);
}

/// Where the name of the world holds a tag, and does not itself read as the port,
/// the announcement is not read back.
pub proof fn law_tagged_names_hide_the_port(motd: Seq<char>, port: u16)
    requires
        !plain_motd(motd),
        announced_port(motd) != Some(port as int),
    ensures
        announced_port(announcement(motd, port)) != Some(port as int),
{
    let s = announcement(motd, port);
    let d = text::decimal(port as nat);
    let n = motd.len() as int;
    let p = "[AD]"@;
    let q = "[/AD]"@;
    lemma_tags_of_announcement(motd, port);
    text::lemma_find_from(motd, p, 0);
    text::lemma_find_from(motd, q, 0);
    text::lemma_find_from(s, p, 0);
    text::lemma_find_from(s, q, 0);
    reveal_strlit("[MOTD]");
    reveal_strlit("[/MOTD][AD]");
    reveal_strlit("[AD]");
    reveal_strlit("[/AD]");
    match (text::find(motd, p), text::find(motd, q)) {
        (Some(a), Some(e)) => {
            text::lemma_find_is(s, p, a + 6);
            text::lemma_find_is(s, q, e + 6);
            if a + 4 <= e {
                assert(s.subrange(a + 10, e + 6) =~= motd.subrange(a + 4, e));
            }
        },
        (Some(a), None) => {
            let e = 13 + n + 4 + d.len() as int;
            text::lemma_find_is(s, p, a + 6);
            text::lemma_find_is(s, q, e);
            let w = s.subrange(a + 10, e);
            let k = 13 + n - (a + 10);
            assert(s[13 + n] == '[');
            assert(w[k] == '[');
            if text::number(w, 65535) is Some {
                if w[0] == '+' {
                    assert(w.skip(1)[k - 1] == '[');
                }
                assert(false);
            }
        },
        (None, Some(e)) => {
            text::lemma_find_is(s, p, 13 + n);
            text::lemma_find_is(s, q, e + 6);
        },
        (None, None) => {
            assert(plain_motd(motd)) by {
                assert forall|j: int| !text::occurs_at(motd, p, j) by {
                    if 0 <= j {
                    }
                }
                assert forall|j: int| !text::occurs_at(motd, q, j) by {
                    if 0 <= j {
                    }
                }
            }
        },
    }
}

/// The port to host: a configured one is taken whatever is heard; otherwise the port of
/// the world that is heard; and 25565 where none is.
pub proof fn law_configured_port_is_hosted(configured: u16, heard: u16, other: Option<u16>)
    ensures
        configured != 0 ==> hosted_port(configured, other) == configured,
        hosted_port(0, Some(heard)) == heard,
        hosted_port(0, None) == 25565,
{
}

/// The port of a world can be read out of any text around its tags that holds no such
/// tags itself.
pub proof fn law_port_is_read_between_its_tags(before: Seq<char>, port: u16, behind: Seq<char>)
    requires
        text::find(before + "[AD]"@ + text::decimal(port as nat) + "[/AD]"@ + behind, "[AD]"@)
            == Some(before.len() as int),
        text::find(before + "[AD]"@ + text::decimal(port as nat) + "[/AD]"@ + behind, "[/AD]"@)
            == Some(before.len() + 4 + text::decimal(port as nat).len() as int),
    ensures
        announced_port(before + "[AD]"@ + text::decimal(port as nat) + "[/AD]"@ + behind) == Some(
            port as int,
        ),
{
    reveal_strlit("[AD]");
    let d = text::decimal(port as nat);
    let s = before + "[AD]"@ + d + "[/AD]"@ + behind;
    let a = before.len() as int;
    assert(s.subrange(a + 4, a + 4 + d.len()) =~= d);
    text::lemma_number_of_decimal(port as nat, 65535);
}

/// What is between the tags must be a port: no text announces a number above 65535.
pub proof fn law_announced_numbers_are_ports(s: Seq<char>)
    ensures
        announced_port(s) matches Some(p) ==> 0 <= p <= 65535,
{
    match (text::find(s, "[AD]"@), text::find(s, "[/AD]"@)) {
        (Some(a), Some(e)) => {
            let w = s.subrange(a + 4, e);
            if a + 4 <= e && text::number(w, 65535) is Some {
                let d = if w.len() > 0 && w[0] == '+' {
                    w.skip(1)
                } else {
                    w
                };
                text::lemma_digits_value_grows(d, 0);
            }
        },
        _ => {},
    }
}

/// Worlds are announced where Minecraft looks for them: at port 4445 of 224.0.2.60, which
/// is an address for groups, and twice in three seconds.
pub proof fn law_worlds_are_announced_where_they_are_looked_for()
    ensures
        MULTICAST_ADDR / 0x100_0000 == 224,
        MULTICAST_ADDR / 0x1_0000 % 0x100 == 0,
        MULTICAST_ADDR / 0x100 % 0x100 == 2,
        MULTICAST_ADDR % 0x100 == 60,
        MULTICAST_PORT == 4445,
        2 * ANNOUNCE_INTERVAL_MS == 3000,
{
}

} // verus!
