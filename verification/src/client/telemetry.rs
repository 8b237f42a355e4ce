//! Opt-in telemetry: what is reported, and when.
//!
//! Disabled by default. Enabled via:
//!   - CLI flag `--telemetry`
//!   - env var `MC_SHARE_TELEMETRY=1`
//!
//! Privacy guarantees:
//!   - No external IP, hostname, user name, or installed Minecraft version
//!     list is included.
//!   - OS version is recorded only as family and major version.
//!   - A random `session_id` correlates events within a single run; it is
//!     not persisted across runs.
use crate::client::stun;
use crate::client::system;
use crate::client::system::Os;
use crate::client::tunnel;
use crate::entropy;
use crate::text;
use vstd::prelude::*;
use vstd::string::*;

verus! {

/// The version of the report's form.
pub const SCHEMA: u32 = 1;

/// How long the posting of a report may take, in seconds.
pub const POST_TIMEOUT_S: u64 = 5;

#[derive(Clone, Copy, Debug, PartialEq, Eq, Structural)]
pub enum Role {
    Host,
    Join,
}

impl Role {
    /// The role as reports write it.
    pub open spec fn word(self) -> Seq<char> {
        match self {
            Role::Host => "host"@,
            Role::Join => "join"@,
        }
    }

    /// The role as reports write it.
    pub fn name(self) -> (r: &'static str)
        ensures
            r@ == self.word(),
            r@ == (match self {
                Role::Host => "host"@,
                Role::Join => "join"@,
            }),
    {
        match self {
            Role::Host => "host",
            Role::Join => "join",
        }
    }
}

#[derive(Clone, Copy, Debug, PartialEq, Eq, Structural)]
pub enum AppKind {
    Cli,
    Gui,
}

impl AppKind {
    /// The kind as reports write it.
    pub open spec fn word(self) -> Seq<char> {
        match self {
            AppKind::Cli => "cli"@,
            AppKind::Gui => "gui"@,
        }
    }

    /// The kind as reports write it.
    pub fn name(self) -> (r: &'static str)
        ensures
            r@ == self.word(),
            r@ == (match self {
                AppKind::Cli => "cli"@,
                AppKind::Gui => "gui"@,
            }),
    {
        match self {
            AppKind::Cli => "cli",
            AppKind::Gui => "gui",
        }
    }
}

/// Where in a run a report is made.
#[derive(Clone, Copy, Debug, PartialEq, Eq, Structural)]
pub enum Phase {
    Start,
    /// The coordination server knows of the run.
    Registered,
    /// A peer has been reached.
    Connected,
    Result,
}

impl Phase {
    /// The phase as reports write it.
    pub open spec fn word(self) -> Seq<char> {
        match self {
            Phase::Start => "start"@,
            Phase::Registered => "registered"@,
            Phase::Connected => "connected"@,
            Phase::Result => "result"@,
        }
    }

    /// The phase as reports write it.
    pub fn name(self) -> (r: &'static str)
        ensures
            r@ == self.word(),
            r@ == (match self {
                Phase::Start => "start"@,
                Phase::Registered => "registered"@,
                Phase::Connected => "connected"@,
                Phase::Result => "result"@,
            }),
    {
        match self {
            Phase::Start => "start",
            Phase::Registered => "registered",
            Phase::Connected => "connected",
            Phase::Result => "result",
        }
    }
}

/// How a run has ended.
#[derive(Clone, Copy, Debug, PartialEq, Eq, Structural)]
pub enum Outcome {
    Success,
    StunFailed,
    CoordFailed,
    PunchFailed,
    QuicFailed,
    TlsFailed,
    Cancelled,
    Other,
}

impl Outcome {
    /// The outcome as reports write it.
    pub open spec fn word(self) -> Seq<char> {
        match self {
            Outcome::Success => "success"@,
            Outcome::StunFailed => "stun_failed"@,
            Outcome::CoordFailed => "coord_failed"@,
            Outcome::PunchFailed => "punch_failed"@,
            Outcome::QuicFailed => "quic_failed"@,
            Outcome::TlsFailed => "tls_failed"@,
            Outcome::Cancelled => "cancelled"@,
            Outcome::Other => "other"@,
        }
    }

    /// The outcome as reports write it.
    pub fn name(self) -> (r: &'static str)
        ensures
            r@ == self.word(),
            r@ == (match self {
                Outcome::Success => "success"@,
                Outcome::StunFailed => "stun_failed"@,
                Outcome::CoordFailed => "coord_failed"@,
                Outcome::PunchFailed => "punch_failed"@,
                Outcome::QuicFailed => "quic_failed"@,
                Outcome::TlsFailed => "tls_failed"@,
                Outcome::Cancelled => "cancelled"@,
                Outcome::Other => "other"@,
            }),
    {
        match self {
            Outcome::Success => "success",
            Outcome::StunFailed => "stun_failed",
            Outcome::CoordFailed => "coord_failed",
            Outcome::PunchFailed => "punch_failed",
            Outcome::QuicFailed => "quic_failed",
            Outcome::TlsFailed => "tls_failed",
            Outcome::Cancelled => "cancelled",
            Outcome::Other => "other",
        }
    }
}

// ── Opting in ────────────────────────────────────────────────────────────────

/// Whether the flag or the variable opts in.
pub open spec fn opted_in(cli_flag: bool, variable: Option<Seq<char>>) -> bool {
    cli_flag || (variable matches Some(v) && (v == "1"@ || v == "true"@ || v == "yes"@ || v
        == "on"@))
}

/// Resolve effective telemetry opt-in from CLI flag and the value of the variable
/// `MC_SHARE_TELEMETRY`.
pub fn enabled(cli_flag: bool, variable: Option<&str>) -> (r: bool)
    ensures
        r == opted_in(
            cli_flag,
            match variable {
                Some(v) => Some(v@),
                None => None,
            },
        ),
{
    if cli_flag {
        return true;
    }
    match variable {
        Some(v) => text::same_text(v, "1") || text::same_text(v, "true") || text::same_text(
            v,
            "yes",
        ) || text::same_text(v, "on"),
        None => false,
    }
}

// ── Reports ──────────────────────────────────────────────────────────────────

/// What a report says of the machine and the program.
#[derive(Debug)]
pub struct Environment {
    pub os: Os,
    /// The coarse label of the system: family and major version.
    pub os_detail: String,
    pub arch: String,
    pub app_version: String,
}

/// A report.
#[derive(Debug)]
pub struct Payload {
    pub schema: u32,
    pub ts_ms: u64,
    pub session_id: String,
    pub room_id: Option<String>,
    pub role: Role,
    pub phase: Phase,
    pub outcome: Option<Outcome>,
    pub outcome_detail: Option<String>,
    pub duration_ms: u64,
    pub nat_type: Option<String>,
    pub ipv6_available: Option<bool>,
    pub os: &'static str,
    pub os_detail: String,
    pub arch: String,
    pub app_version: String,
    pub app_kind: AppKind,
}

/// Makes the reports of one run.
#[derive(Debug)]
pub struct Reporter {
    pub enabled: bool,
    pub base_url: String,
    pub session_id: String,
    pub role: Role,
    pub app_kind: AppKind,
    /// When the run began, in nanoseconds of the program's clock.
    pub started: u64,
    /// Network snapshot — filled in once at start.
    pub nat_type: Option<String>,
    pub ipv6_available: Option<bool>,
    /// Pairing key (room ID) — set as soon as it is known.
    pub room_id: Option<String>,
    /// The `Connected` checkpoint has been passed.
    pub connected: bool,
}

/// The name of an operating system's family.
pub open spec fn family(os: Os) -> Seq<char> {
    match os {
        Os::Macos => "macos"@,
        Os::Linux => "linux"@,
        Os::Windows => "windows"@,
        Os::Other => "other"@,
    }
}

/// The name of an operating system's family.
pub fn os_family(os: Os) -> (r: &'static str)
    ensures
        r@ == family(os),
{
    match os {
        Os::Macos => "macos",
        Os::Linux => "linux",
        Os::Windows => "windows",
        Os::Other => "other",
    }
}

/// Eight bytes, as 16 hexadecimal digits, tell one run from another.
pub open spec fn is_session_id(id: Seq<char>) -> bool {
    id.len() == 16 && forall|i: int|
        0 <= i < id.len() ==> text::is_digit(#[trigger] id[i]) || 'a' <= id[i] <= 'f'
}

/// The session id that eight bytes make.
pub fn session_id_of(bytes: &[u8]) -> (r: String)
    requires
        bytes@.len() == 8,
    ensures
        r@ == text::hex(bytes@),
        is_session_id(r@),
{
    proof {
        text::lemma_hex(bytes@);
    }
    text::hex_text(bytes)
}

/// A random session id.
fn random_session_id() -> (r: String)
    ensures
        is_session_id(r@),
{
    let b = entropy::random_bytes(8);
    session_id_of(b.as_slice())
}

/// A copy of an optional text.
fn copied(s: &Option<String>) -> (r: Option<String>)
    ensures
        r == *s,
{
    match s {
        Some(t) => Some(t.clone()),
        None => None,
    }
}

impl Reporter {
    /// A reporter under the given session id, for a run that begins now.
    pub fn with_session(
        enabled: bool,
        base_url: String,
        role: Role,
        app_kind: AppKind,
        session_id: String,
        now: u64,
    ) -> (r: Self)
        ensures
            r == (Reporter {
                enabled,
                base_url,
                session_id,
                role,
                app_kind,
                started: now,
                nat_type: None,
                ipv6_available: None,
                room_id: None,
                connected: false,
            }),
    {
        Self {
            enabled,
            base_url,
            session_id,
            role,
            app_kind,
            started: now,
            nat_type: None,
            ipv6_available: None,
            room_id: None,
            connected: false,
        }
    }

    /// A reporter under a random session id, for a run that begins now.
    pub fn new(enabled: bool, base_url: String, role: Role, app_kind: AppKind, now: u64) -> (r: Self)
        ensures
            is_session_id(r.session_id@),
            r == (Reporter {
                enabled,
                base_url,
                session_id: r.session_id,
                role,
                app_kind,
                started: now,
                nat_type: None,
                ipv6_available: None,
                room_id: None,
                connected: false,
            }),
    {
        Self::with_session(enabled, base_url, role, app_kind, random_session_id(), now)
    }

    /// Notes the room.
    pub fn set_room(&mut self, room_id: &str)
        ensures
            final(self).room_id matches Some(id) && id@ == room_id@,
            *final(self) == (Reporter { room_id: final(self).room_id, ..*old(self) }),
    {
        self.room_id = Some(String::from_str(room_id));
    }

    /// Notes what the network is like.
    pub fn set_network(&mut self, label: &str, ipv6: bool)
        ensures
            final(self).nat_type matches Some(n) && n@ == label@,
            *final(self) == (Reporter {
                nat_type: final(self).nat_type,
                ipv6_available: Some(ipv6),
                ..*old(self)
            }),
    {
        self.nat_type = Some(String::from_str(label));
        self.ipv6_available = Some(ipv6);
    }

    /// A peer has been reached; tells whether this is the first time, which is to
    /// be reported.
    pub fn set_connected(&mut self) -> (r: bool)
        ensures
            r == !old(self).connected,
            *final(self) == (Reporter { connected: true, ..*old(self) }),
    {
        let first = !self.connected;
        self.connected = true;
        first
    }

    /// How long the run has lasted, in milliseconds.
    pub open spec fn duration_ms(self, now: u64) -> u64 {
        if now >= self.started {
            ((now - self.started) / 1_000_000) as u64
        } else {
            0
        }
    }

    /// The report `p` says of the run what is known of it, and nothing else.
    pub open spec fn describes(
        self,
        p: Payload,
        phase: Phase,
        outcome: Option<Outcome>,
        detail: Option<&str>,
        env: Environment,
        ts_ms: u64,
        now: u64,
    ) -> bool {
        &&& p.schema == SCHEMA
        &&& p.ts_ms == ts_ms
        &&& p.session_id == self.session_id
        &&& p.room_id == self.room_id
        &&& p.role == self.role
        &&& p.phase == phase
        &&& p.outcome == outcome
        &&& match p.outcome_detail {
            Some(d) => detail matches Some(t) && d@ == t@,
            None => detail is None,
        }
        &&& p.duration_ms == self.duration_ms(now)
        &&& p.nat_type == self.nat_type
        &&& p.ipv6_available == self.ipv6_available
        &&& p.os@ == family(env.os)
        &&& p.os_detail == env.os_detail
        &&& p.arch == env.arch
        &&& p.app_version == env.app_version
        &&& p.app_kind == self.app_kind
    }

    /// A report of this moment: `ts_ms` is the time of day, `now` the time of the
    /// program's clock.
    fn base_payload(
        &self,
        phase: Phase,
        outcome: Option<Outcome>,
        detail: Option<&str>,
        env: &Environment,
        ts_ms: u64,
        now: u64,
    ) -> (r: Payload)
        ensures
            self.describes(r, phase, outcome, detail, *env, ts_ms, now),
    {
        Payload {
            schema: SCHEMA,
            ts_ms,
            session_id: self.session_id.clone(),
            room_id: copied(&self.room_id),
            role: self.role,
            phase,
            outcome,
            outcome_detail: match detail {
                Some(d) => Some(String::from_str(d)),
                None => None,
            },
            duration_ms: now.saturating_sub(self.started) / 1_000_000,
            nat_type: copied(&self.nat_type),
            ipv6_available: self.ipv6_available,
            os: os_family(env.os),
            os_detail: env.os_detail.clone(),
            arch: env.arch.clone(),
            app_version: env.app_version.clone(),
            app_kind: self.app_kind,
        }
    }

    /// The report to send at a checkpoint of the run, if reports are sent at all.
    pub fn send_event(&self, phase: Phase, env: &Environment, ts_ms: u64, now: u64) -> (r: Option<
        Payload,
    >)
        ensures
            match r {
                Some(p) => self.enabled && self.describes(p, phase, None, None, *env, ts_ms, now),
                None => !self.enabled,
            },
    {
        if !self.enabled {
            return None;
        }
        Some(self.base_payload(phase, None, None, env, ts_ms, now))
    }

    /// The report to send at the start, if reports are sent at all.
    pub fn send_start(&self, env: &Environment, ts_ms: u64, now: u64) -> (r: Option<Payload>)
        ensures
            match r {
                Some(p) => self.enabled && self.describes(
                    p,
                    Phase::Start,
                    None,
                    None,
                    *env,
                    ts_ms,
                    now,
                ),
                None => !self.enabled,
            },
    {
        self.send_event(Phase::Start, env, ts_ms, now)
    }

    /// The report to send at the end, if reports are sent at all.
    pub fn send_result(
        &self,
        outcome: Outcome,
        detail: Option<&str>,
        env: &Environment,
        ts_ms: u64,
        now: u64,
    ) -> (r: Option<Payload>)
        ensures
            match r {
                Some(p) => self.enabled && self.describes(
                    p,
                    Phase::Result,
                    Some(outcome),
                    detail,
                    *env,
                    ts_ms,
                    now,
                ),
                None => !self.enabled,
            },
    {
        if !self.enabled {
            return None;
        }
        Some(self.base_payload(Phase::Result, Some(outcome), detail, env, ts_ms, now))
    }

    /// Where reports are posted.
    pub fn url(&self) -> (r: String)
        ensures
            r@ == report_url(self.base_url@),
            r@ == text::without_trailing(self.base_url@, '/') + "/api/v1/telemetry"@,
    {
        let c = text::chars_of(self.base_url.as_str());
        let t = text::trim_end_char(c.as_slice(), '/');
        let mut url = text::string_of(t.as_slice());
        url.append("/api/v1/telemetry");
        url
    }
}

/// Where reports are posted.
pub open spec fn report_url(base_url: Seq<char>) -> Seq<char> {
    text::without_trailing(base_url, '/') + "/api/v1/telemetry"@
}

// ── The label of the system ──────────────────────────────────────────────────

/// The label of a Linux system from the lines of its os-release file.
pub open spec fn linux_label(lines: Seq<Seq<char>>) -> Seq<char> {
    match system::last_value(lines, "ID="@) {
        None => "Linux"@,
        Some(id) => match system::last_value(lines, "VERSION_ID="@) {
            None => id,
            Some(v) => id + " "@ + system::major(v),
        },
    }
}

/// The label of a macOS system from the lines of its version file.
pub open spec fn macos_label(lines: Seq<Seq<char>>) -> Seq<char> {
    match system::plist_value(lines, "<key>ProductVersion</key>"@) {
        None => "macOS"@,
        Some(v) => "macOS "@ + system::major(v),
    }
}

/// The coarse label of a system. `file` is the content of the file that tells its
/// version, and `name` what the system is called.
pub open spec fn coarse_label(os: Os, name: Seq<char>, file: Option<Seq<char>>) -> Seq<char> {
    match os {
        Os::Macos => match file {
            Some(c) => macos_label(text::lines(c)),
            None => "macOS"@,
        },
        Os::Linux => match file {
            Some(c) => linux_label(text::lines(c)),
            None => "Linux"@,
        },
        Os::Windows => "Windows"@,
        Os::Other => name,
    }
}

/// An optional text.
pub open spec fn str_view(s: Option<&str>) -> Option<Seq<char>> {
    match s {
        Some(t) => Some(t@),
        None => None,
    }
}

/// Coarse OS version label (major only — no minor/build numbers).
pub fn os_major(os: Os, name: &str, file: Option<&str>) -> (r: String)
    ensures
        r@ == coarse_label(os, name@, str_view(file)),
{
    match os {
        Os::Macos => {
            let content = match file {
                Some(c) => c,
                None => {
                    return String::from_str("macOS");
                },
            };
            let chars = text::chars_of(content);
            let lines = text::split_lines(chars.as_slice());
            match system::find_plist_value(&lines, "<key>ProductVersion</key>") {
                None => String::from_str("macOS"),
                Some(v) => {
                    let major = text::string_of(system::major_part(v.as_slice()).as_slice());
                    let mut out = String::from_str("macOS ");
                    out.append(major.as_str());
                    out
                },
            }
        },
        Os::Linux => {
            let content = match file {
                Some(c) => c,
                None => {
                    return String::from_str("Linux");
                },
            };
            let chars = text::chars_of(content);
            let lines = text::split_lines(chars.as_slice());
            match system::find_last_value(&lines, "ID=") {
                None => String::from_str("Linux"),
                Some(id) => {
                    let mut out = text::string_of(id.as_slice());
                    if let Some(v) = system::find_last_value(&lines, "VERSION_ID=") {
                        let major = text::string_of(system::major_part(v.as_slice()).as_slice());
                        out.append(" ");
                        out.append(major.as_str());
                    }
                    out
                },
            }
        },
        Os::Windows => String::from_str("Windows"),
        Os::Other => String::from_str(name),
    }
}

// ── Errors ───────────────────────────────────────────────────────────────────

/// What kind of failure a message tells of, by the words in it.
pub open spec fn failure_kind(msg: Seq<char>) -> Outcome {
    let m = text::lowered(msg);
    if text::contains_text(m, "stun"@) {
        Outcome::StunFailed
    } else if text::contains_text(m, "coord"@) || text::contains_text(m, "room"@)
        || text::contains_text(m, "http"@) {
        Outcome::CoordFailed
    } else if text::contains_text(m, "punch"@) || text::contains_text(m, "hole"@) {
        Outcome::PunchFailed
    } else if text::contains_text(m, "tls"@) || text::contains_text(m, "certificate"@) {
        Outcome::TlsFailed
    } else if text::contains_text(m, "quic"@) || text::contains_text(m, "connect"@) {
        Outcome::QuicFailed
    } else if text::contains_text(m, "cancel"@) {
        Outcome::Cancelled
    } else {
        Outcome::Other
    }
}

/// What kind of failure a message tells of, by the words in it.
pub fn classify_error(msg: &str) -> (r: Outcome)
    ensures
        r == failure_kind(msg@),
{
    let chars = text::chars_of(msg);
    let lower = text::lower_case(chars.as_slice());
    let m = lower.as_slice();
    if text::has_text(m, "stun") {
        Outcome::StunFailed
    } else if text::has_text(m, "coord") || text::has_text(m, "room") || text::has_text(m, "http") {
        Outcome::CoordFailed
    } else if text::has_text(m, "punch") || text::has_text(m, "hole") {
        Outcome::PunchFailed
    } else if text::has_text(m, "tls") || text::has_text(m, "certificate") {
        Outcome::TlsFailed
    } else if text::has_text(m, "quic") || text::has_text(m, "connect") {
        Outcome::QuicFailed
    } else if text::has_text(m, "cancel") {
        Outcome::Cancelled
    } else {
        Outcome::Other
    }
}

/// The longest detail of a report, in bytes.
pub const MAX_DETAIL: usize = 120;

/// The first line of a message.
pub open spec fn first_line(msg: Seq<char>) -> Seq<char> {
    let l = text::lines(msg);
    if l.len() > 0 {
        l[0]
    } else {
        seq![]
    }
}

/// The longest beginning of a text that takes at most 120 bytes.
pub open spec fn capped(s: Seq<char>) -> Seq<char>
    decreases s.len(),
{
    if s.len() == 0 || vstd::utf8::encode_utf8(s).len() <= MAX_DETAIL {
        s
    } else {
        capped(s.drop_last())
    }
}

/// The first line of a message, capped at 120 bytes.
pub open spec fn shortened(msg: Seq<char>) -> Seq<char> {
    capped(first_line(msg))
}

/// The first line of a message.
fn head_line(msg: &str) -> (r: String)
    ensures
        r@ == first_line(msg@),
{
    let chars = text::chars_of(msg);
    let lines = text::split_lines(chars.as_slice());
    proof {
        assert(text::pieces(lines@).len() == lines@.len());
        if lines@.len() > 0 {
            assert(text::pieces(lines@)[0] == lines@[0]@);
        }
    }
    if lines.len() > 0 {
        text::string_of(lines[0].as_slice())
    } else {
        String::new()
    }
}

/// How many bytes a character takes.
fn char_width(c: char) -> (r: usize)
    ensures
        r == vstd::utf8::encode_scalar(c as u32).len(),
        1 <= r <= 4,
{
    let u: u32 = c as u32;
    if u <= 0x7f {
        1
    } else if u <= 0x7ff {
        2
    } else if u <= 0xffff {
        3
    } else {
        4
    }
}

proof fn lemma_encoding_grows(s: Seq<char>, i: int, j: int)
    requires
        0 <= i <= j <= s.len(),
    ensures
        vstd::utf8::encode_utf8(s.take(i)).len() <= vstd::utf8::encode_utf8(s.take(j)).len(),
{
    assert(s.take(j) =~= s.take(i) + s.subrange(i, j));
    text::lemma_encode_concat(s.take(i), s.subrange(i, j));
}

proof fn lemma_encode_next(s: Seq<char>, k: int)
    requires
        0 <= k < s.len(),
    ensures
        vstd::utf8::encode_utf8(s.take(k + 1)).len() == vstd::utf8::encode_utf8(s.take(k)).len()
            + vstd::utf8::encode_scalar(s[k] as u32).len(),
{
    let one = seq![s[k]];
    assert(s.take(k + 1) =~= s.take(k) + one);
    text::lemma_encode_concat(s.take(k), one);
    assert(one.drop_first() =~= Seq::<char>::empty());
    assert(vstd::utf8::encode_utf8(one.drop_first()).len() == 0);
    assert(vstd::utf8::encode_utf8(one) =~= vstd::utf8::encode_scalar(s[k] as u32));
}

proof fn lemma_capped(s: Seq<char>)
    ensures
        capped(s).len() <= s.len(),
        capped(s) == s.take(capped(s).len() as int),
        vstd::utf8::encode_utf8(capped(s)).len() <= MAX_DETAIL,
        capped(s).len() < s.len() ==> vstd::utf8::encode_utf8(
            s.take(capped(s).len() as int + 1),
        ).len() > MAX_DETAIL,
    decreases s.len(),
{
    assert(s.take(s.len() as int) =~= s);
    if s.len() > 0 && vstd::utf8::encode_utf8(s).len() > MAX_DETAIL {
        let t = s.drop_last();
        let n = capped(t).len() as int;
        lemma_capped(t);
        assert(t.take(n) =~= s.take(n));
        if n < t.len() {
            assert(t.take(n + 1) =~= s.take(n + 1));
        }
    }
}

/// First line, capped at 120 bytes — no IPs or external addresses get
/// printed by our error types, so this is safe to forward.
pub fn short(msg: &str) -> (r: String)
    ensures
        r@ == shortened(msg@),
{
    let line = head_line(msg);
    let c = text::chars_of(line.as_str());
    let mut k: usize = 0;
    let mut used: usize = 0;
    assert(c@.take(0) =~= Seq::<char>::empty());
    while k < c.len()
        invariant_except_break
            used == vstd::utf8::encode_utf8(c@.take(k as int)).len(),
        invariant
            k <= c@.len(),
            vstd::utf8::encode_utf8(c@.take(k as int)).len() <= MAX_DETAIL,
        ensures
            k < c@.len() ==> vstd::utf8::encode_utf8(c@.take(k + 1)).len() > MAX_DETAIL,
        decreases c@.len() - k,
    {
        let w: usize = char_width(c[k]);
        proof {
            lemma_encode_next(c@, k as int);
        }
        if used + w > MAX_DETAIL {
            break;
        }
        used = used + w;
        k = k + 1;
    }
    proof {
        let n = capped(c@).len() as int;
        lemma_capped(c@);
        if n < k {
            lemma_encoding_grows(c@, n + 1, k as int);
        }
        if k < n {
            lemma_encoding_grows(c@, k + 1, n);
        }
        assert(c@.subrange(0, k as int) =~= c@.take(k as int));
    }
    let head = text::part(c.as_slice(), 0, k);
    text::string_of(head.as_slice())
}

/// What the end of a run is reported as: success, or the failure that its message
/// tells of.
pub open spec fn reported(error: Option<Seq<char>>) -> (Outcome, Option<Seq<char>>) {
    match error {
        None => (Outcome::Success, None),
        Some(msg) => (failure_kind(msg), Some(shortened(msg))),
    }
}

/// What the end of a run is reported as: success, or the failure that its message
/// tells of.
pub fn run_outcome(error: Option<&str>) -> (r: (Outcome, Option<String>))
    ensures
        reported(str_view(error)) == (
            r.0,
            match r.1 {
                Some(d) => Some(d@),
                None => None,
            },
        ),
        match error {
            None => r.0 == Outcome::Success && r.1 is None,
            Some(msg) => {
                &&& r.0 == failure_kind(msg@)
                &&& r.1 matches Some(d) && d@ == shortened(msg@)
            },
        },
{
    match error {
        None => (Outcome::Success, None),
        Some(msg) => (classify_error(msg), Some(short(msg))),
    }
}

// ── Laws ─────────────────────────────────────────────────────────────────────

/// The label of a system tells no more of its version than the part before the
/// first dot.
pub proof fn law_labels_hide_minor_versions(version: Seq<char>)
    ensures
        !system::major(version).contains('.'),
{
    text::lemma_index_of_char(version, '.');
    let m = system::major(version);
    assert forall|i: int| 0 <= i < m.len() implies #[trigger] m[i] != '.' by {
        assert(m[i] == version[i]);
    }
}

/// A failed STUN query is reported as such, whichever server was asked.
pub proof fn law_stun_failures_are_told_apart(server: Seq<char>)
    ensures
        failure_kind(stun::gave_up(server)) == Outcome::StunFailed,
        failure_kind(stun::unresolved(server)) == Outcome::StunFailed,
{
    reveal_strlit("stun");
    reveal_strlit("STUN failed after 3 attempts (server: ");
    reveal_strlit("Could not resolve STUN server: ");
    reveal_strlit(")");
    let a = text::lowered(stun::gave_up(server));
    assert(a.subrange(0, 4) =~= "stun"@);
    assert(text::occurs_at(a, "stun"@, 0));
    let b = text::lowered(stun::unresolved(server));
    assert(b.subrange(18, 22) =~= "stun"@);
    assert(text::occurs_at(b, "stun"@, 18));
}

/// A message that speaks of a room, as those on refused calls do, is never reported
/// as a failure of hole punching, of TLS or of QUIC.
pub proof fn law_room_failures_are_told_apart(before: Seq<char>, after: Seq<char>)
    ensures
        ({
            let kind = failure_kind(before + "room"@ + after);
            kind == Outcome::CoordFailed || kind == Outcome::StunFailed
        }),
{
    reveal_strlit("room");
    let m = text::lowered(before + "room"@ + after);
    let k = before.len() as int;
    assert(m.subrange(k, k + 4) =~= "room"@);
    assert(text::occurs_at(m, "room"@, k));
}

/// Whatever the message, its detail is a beginning of the first line that takes at
/// most 120 bytes: the line itself where that fits, and otherwise as many whole
/// characters as do.
pub proof fn law_details_are_capped(msg: Seq<char>)
    ensures
        ({
            let line = first_line(msg);
            let n = shortened(msg).len() as int;
            &&& n <= line.len()
            &&& shortened(msg) == line.take(n)
            &&& vstd::utf8::encode_utf8(shortened(msg)).len() <= 120
            &&& vstd::utf8::encode_utf8(line).len() <= 120 ==> shortened(msg) == line
            &&& n < line.len() ==> vstd::utf8::encode_utf8(line.take(n + 1)).len() > 120
        }),
{
    lemma_capped(first_line(msg));
}

/// Of a first line of ASCII characters the first 120 are kept.
pub proof fn law_ascii_details_have_120_characters(msg: Seq<char>)
    requires
        vstd::utf8::is_ascii_chars(first_line(msg)),
    ensures
        shortened(msg) == first_line(msg).take(if first_line(msg).len() <= MAX_DETAIL {
            first_line(msg).len() as int
        } else {
            MAX_DETAIL as int
        }),
{
    let line = first_line(msg);
    let n = capped(line).len() as int;
    lemma_capped(line);
    assert forall|i: int| 0 <= i <= line.len() implies vstd::utf8::encode_utf8(
        #[trigger] line.take(i),
    ).len() == i by {
        let head = line.take(i);
        assert forall|j: int| 0 <= j < head.len() implies '\0' <= #[trigger] head[j]
            <= '\u{7f}' by {
            assert(head[j] == line[j]);
        }
        vstd::utf8::is_ascii_chars_encode_utf8(head);
    }
    assert(vstd::utf8::encode_utf8(line.take(n)).len() == n);
    if n < line.len() {
        assert(vstd::utf8::encode_utf8(line.take(n + 1)).len() == n + 1);
    }
}

/// Telemetry is off unless it is asked for: by the flag, or by one of four values of the
/// variable.
pub proof fn law_telemetry_is_opt_in(flag: bool, value: Seq<char>)
    ensures
        opted_in(true, Some(value)),
        opted_in(true, None),
        !opted_in(false, None),
        opted_in(flag, Some(value)) <==> flag || value == "1"@ || value == "true"@ || value
            == "yes"@ || value == "on"@,
{
}

/// The duration of a run is told in whole milliseconds, never more than have passed, and
/// nothing is told to have passed by a clock that went back.
pub proof fn law_durations_are_whole_milliseconds(r: Reporter, now: u64)
    ensures
        now >= r.started ==> r.duration_ms(now) * 1_000_000 <= now - r.started && now - r.started
            < (r.duration_ms(now) + 1) * 1_000_000,
        now < r.started ==> r.duration_ms(now) == 0,
{
}

/// A report says what is known of the run, and of the machine no more than its family,
/// its coarse label and its architecture.
pub proof fn law_reports_say_what_is_known(
    r: Reporter,
    p: Payload,
    phase: Phase,
    outcome: Option<Outcome>,
    detail: Option<&str>,
    env: Environment,
    ts_ms: u64,
    now: u64,
)
    requires
        r.describes(p, phase, outcome, detail, env, ts_ms, now),
    ensures
        p.schema == 1,
        p.ts_ms == ts_ms,
        p.session_id == r.session_id,
        p.room_id == r.room_id,
        p.role == r.role,
        p.phase == phase,
        p.outcome == outcome,
        p.outcome_detail is Some <==> detail is Some,
        p.outcome_detail matches Some(d) ==> d@ == detail->0@,
        p.nat_type == r.nat_type,
        p.ipv6_available == r.ipv6_available,
        p.os_detail == env.os_detail,
        p.arch == env.arch,
        p.app_version == env.app_version,
        p.app_kind == r.app_kind,
        p.duration_ms * 1_000_000 <= (if now >= r.started {
            now - r.started
        } else {
            0
        }),
{
}

/// The families of systems have names of their own, and a system that is told by its
/// name is reported under it.
pub proof fn law_families_go_by_their_name(a: Os, b: Os, name: Seq<char>)
    ensures
        family(a) == family(b) ==> a == b,
        Os::named(name) != Os::Other ==> family(Os::named(name)) == name,
{
    reveal_strlit("macos");
    reveal_strlit("linux");
    reveal_strlit("windows");
    reveal_strlit("other");
    assert("macos"@[0] == 'm' && "linux"@[0] == 'l' && "windows"@[0] == 'w' && "other"@[0] == 'o');
}

/// A message is sorted by the first of these that it speaks of, in whatever case: STUN;
/// the coordination server, a room or HTTP; punching holes; TLS or a certificate; QUIC
/// or a connection; a cancellation.
pub proof fn law_failures_are_sorted_by_their_words(msg: Seq<char>)
    ensures
        ({
            let m = text::lowered(msg);
            let stun = text::contains_text(m, "stun"@);
            let coord = text::contains_text(m, "coord"@) || text::contains_text(m, "room"@)
                || text::contains_text(m, "http"@);
            let punch = text::contains_text(m, "punch"@) || text::contains_text(m, "hole"@);
            let tls = text::contains_text(m, "tls"@) || text::contains_text(m, "certificate"@);
            let quic = text::contains_text(m, "quic"@) || text::contains_text(m, "connect"@);
            let cancel = text::contains_text(m, "cancel"@);
            let kind = failure_kind(msg);
            &&& kind == Outcome::StunFailed <==> stun
            &&& kind == Outcome::CoordFailed <==> !stun && coord
            &&& kind == Outcome::PunchFailed <==> !stun && !coord && punch
            &&& kind == Outcome::TlsFailed <==> !stun && !coord && !punch && tls
            &&& kind == Outcome::QuicFailed <==> !stun && !coord && !punch && !tls && quic
            &&& kind == Outcome::Cancelled <==> !stun && !coord && !punch && !tls && !quic
                && cancel
            &&& kind != Outcome::Success
            &&& failure_kind(m) == kind
        }),
{
    let m = text::lowered(msg);
    assert(text::lowered(m) =~= m);
}

/// Punching that took too long is reported as a failure of punching.
pub proof fn law_punching_failures_are_told_apart()
    ensures
        failure_kind(tunnel::timed_out()) == Outcome::PunchFailed,
{
    reveal_strlit("Hole punching timed out after 20s");
    reveal_strlit("punch");
    reveal_strlit("stun");
    reveal_strlit("coord");
    reveal_strlit("room");
    reveal_strlit("http");
    let m = text::lowered(tunnel::timed_out());
    assert(m.subrange(5, 10) =~= "punch"@);
    assert(text::occurs_at(m, "punch"@, 5));
    assert forall|i: int| !text::occurs_at(m, "stun"@, i) by {
        if text::occurs_at(m, "stun"@, i) {
            assert(m.subrange(i, i + 4)[0] == 's');
            assert(m.subrange(i, i + 4)[3] == 'n');
            assert(m[i] == 's');
        }
    }
    assert forall|i: int| !text::occurs_at(m, "coord"@, i) by {
        if text::occurs_at(m, "coord"@, i) {
            assert(m.subrange(i, i + 5)[0] == 'c');
            assert(m.subrange(i, i + 5)[1] == 'o');
        }
    }
    assert forall|i: int| !text::occurs_at(m, "room"@, i) by {
        if text::occurs_at(m, "room"@, i) {
            assert(m.subrange(i, i + 4)[0] == 'r');
            assert(m.subrange(i, i + 4)[1] == 'o');
        }
    }
    assert forall|i: int| !text::occurs_at(m, "http"@, i) by {
        if text::occurs_at(m, "http"@, i) {
            assert(m.subrange(i, i + 4)[0] == 'h');
            assert(m.subrange(i, i + 4)[1] == 't');
        }
    }
}

/// The label of a Linux system is its name and its major version, however the file puts
/// them in quotes, and never its minor version.
pub proof fn law_linux_labels_are_coarse(
    name: Seq<char>,
    major_version: Seq<char>,
    minor: Seq<char>,
    q: nat,
)
    requires
        name.len() > 0,
        name[0] != '"',
        name.last() != '"',
        major_version.len() > 0,
        major_version[0] != '"',
        forall|i: int| 0 <= i < major_version.len() ==> #[trigger] major_version[i] != '.',
        minor.len() > 0,
        minor.last() != '"',
    ensures
        ({
            let quotes = Seq::new(q, |i: int| '"');
            let version = major_version + seq!['.'] + minor;
            let file = seq![
                "ID="@ + (quotes + name + quotes),
                "VERSION_ID="@ + (quotes + version + quotes),
            ];
            &&& linux_label(file) == name + " "@ + major_version
            &&& linux_label(file.take(1)) == name
        }),
{
    reveal_strlit("ID=");
    reveal_strlit("VERSION_ID=");
    let quotes = Seq::new(q, |i: int| '"');
    let version = major_version + seq!['.'] + minor;
    let a = "ID="@ + (quotes + name + quotes);
    let b = "VERSION_ID="@ + (quotes + version + quotes);
    let none = Seq::<Seq<char>>::empty();
    assert(!text::begins_with(b, "ID="@)) by {
        if text::begins_with(b, "ID="@) {
            assert(b.subrange(0, 3)[0] == b[0]);
        }
    }
    assert(!text::begins_with(a, "VERSION_ID="@)) by {
        if text::begins_with(a, "VERSION_ID="@) {
            assert(a.subrange(0, 11)[0] == a[0]);
        }
    }
    system::law_lines_with_the_prefix_count(none, "ID="@, quotes + name + quotes, b);
    system::law_lines_with_the_prefix_count(none.push(a), "ID="@, seq![], b);
    system::law_lines_with_the_prefix_count(
        none.push(a),
        "VERSION_ID="@,
        quotes + version + quotes,
        a,
    );
    system::law_lines_with_the_prefix_count(none, "VERSION_ID="@, seq![], a);
    assert(seq![a, b] =~= none.push(a).push(b));
    assert(seq![a, b].take(1) =~= none.push(a));
    text::law_marks_around_are_taken_off(name, '"', q, q);
    text::law_marks_around_are_taken_off(version, '"', q, q);
    system::law_major_versions_end_at_the_dot(major_version, minor);
}

/// Where there is no file, or it says nothing, a system is labelled by its family alone.
/// On Windows there is none.
pub proof fn law_unknown_systems_are_labelled_by_family(name: Seq<char>)
    ensures
        coarse_label(Os::Linux, name, None) == "Linux"@,
        coarse_label(Os::Macos, name, None) == "macOS"@,
        coarse_label(Os::Other, name, None) == name,
        coarse_label(Os::Windows, name, None) == "Windows"@,
        linux_label(seq![]) == "Linux"@,
        macos_label(seq![]) == "macOS"@,
{
}

/// The label of a macOS system is its major version, from the line behind the key.
pub proof fn law_macos_labels_are_coarse(major_version: Seq<char>, minor: Seq<char>)
    requires
        forall|i: int| 0 <= i < major_version.len() ==> #[trigger] major_version[i] != '.',
        !text::begins_with(
            major_version + seq!['.'] + minor + "</string>"@,
            "<string>"@,
        ),
        !text::occurs_at(
            major_version + seq!['.'] + minor,
            "</string>"@,
            (major_version + seq!['.'] + minor).len() - 9,
        ),
    ensures
        ({
            let version = major_version + seq!['.'] + minor;
            macos_label(
                seq![
                    "<key>ProductVersion</key>"@,
                    "<string>"@ + version + "</string>"@,
                ],
            ) == "macOS "@ + major_version
        }),
{
    reveal_strlit("<key>ProductVersion</key>");
    let key = "<key>ProductVersion</key>"@;
    let none = Seq::<char>::empty();
    let version = major_version + seq!['.'] + minor;
    let line = "<string>"@ + version + "</string>"@;
    assert(key[0] == '<' && key.last() == '>');
    text::law_trimmed_is_what_stands_between(none, key, none);
    assert(none + key + none =~= key);
    system::law_strings_stand_between_their_tags(none, version, none);
    assert(none + line + none =~= line);
    assert(none + ("<string>"@ + version + "</string>"@) + none =~= line);
    assert(system::plist_value(seq![key, line], key) == Some(system::plist_string(line)));
    system::law_major_versions_end_at_the_dot(major_version, minor);
}

/// A detail is the first line of a message, whatever lines follow.
pub proof fn law_details_are_the_first_line(line: Seq<char>, rest: Seq<char>)
    requires
        forall|i: int| 0 <= i < line.len() ==> #[trigger] line[i] != '\n',
        line.len() > 0 ==> line.last() != '\r',
    ensures
        first_line(line + seq!['\n'] + rest) == line,
        first_line(line + seq!['\r', '\n'] + rest) == line,
        first_line(line) == line,
{
    text::law_lines_are_ended_by_line_feeds(line, rest);
    if line.len() == 0 {
        assert(line =~= Seq::<char>::empty());
    }
}

/// A session id is sixteen lower-case hexadecimal digits: what eight bytes make, and
/// nothing that holds another character.
pub proof fn law_session_ids_are_hexadecimal(id: Seq<char>, i: int)
    ensures
        is_session_id(id) ==> id.len() == 16,
        is_session_id(id) && 0 <= i < 16 ==> {
            ||| 0 <= id[i] as int - '0' as int <= 9
            ||| 0 <= id[i] as int - 'a' as int <= 5
        },
        id.len() == 16 && (forall|k: int|
            0 <= k < 16 ==> (48 <= #[trigger] id[k] as int <= 57 || 97 <= id[k] as int <= 102))
            ==> is_session_id(id),
{
    if is_session_id(id) && 0 <= i < 16 {
        assert(text::is_digit(id[i]) || 'a' <= id[i] <= 'f');
    }
    if id.len() == 16 && (forall|k: int|
        0 <= k < 16 ==> (48 <= #[trigger] id[k] as int <= 57 || 97 <= id[k] as int <= 102)) {
        assert forall|k: int| 0 <= k < id.len() implies text::is_digit(#[trigger] id[k]) || 'a'
            <= id[k] <= 'f' by {
            assert(48 <= id[k] as int <= 57 || 97 <= id[k] as int <= 102);
        }
    }
}

/// Reports are posted below the server's address, however many slashes end it.
pub proof fn law_reports_are_posted_below_the_server(base: Seq<char>, n: nat)
    requires
        base.len() > 0,
        base[0] != '/',
        base.last() != '/',
    ensures
        report_url(base + Seq::new(n, |i: int| '/')) == base + "/api/v1/telemetry"@,
{
    text::law_marks_around_are_taken_off(base, '/', n, 0);
}

/// A run is reported as a success if and only if there is no error, and then without a
/// detail; the detail of a failure is the first line of its message where that is short.
pub proof fn law_runs_are_reported_as_they_end(line: Seq<char>, rest: Seq<char>)
    requires
        forall|i: int| 0 <= i < line.len() ==> #[trigger] line[i] != '\n',
        line.len() > 0 ==> line.last() != '\r',
        vstd::utf8::encode_utf8(line).len() <= 120,
    ensures
        reported(None) == (Outcome::Success, None::<Seq<char>>),
        reported(Some(line + seq!['\n'] + rest)).1 == Some(line),
        reported(Some(line)).1 == Some(line),
        reported(Some(line)).0 != Outcome::Success,
{
    law_details_are_the_first_line(line, rest);
}

/// Reports write what they tell of in these words.
pub proof fn law_reports_are_written_in_words(role: Role, kind: AppKind, phase: Phase)
    ensures
        role.word() == "host"@ || role == Role::Join,
        role.word() == "join"@ || role == Role::Host,
        kind.word() == "cli"@ || kind == AppKind::Gui,
        kind.word() == "gui"@ || kind == AppKind::Cli,
        phase == Phase::Start ==> phase.word() == "start"@,
        phase == Phase::Registered ==> phase.word() == "registered"@,
        phase == Phase::Connected ==> phase.word() == "connected"@,
        phase == Phase::Result ==> phase.word() == "result"@,
{
}

/// A failure is written as what failed.
pub proof fn law_failures_are_written_as_what_failed()
    ensures
        Outcome::StunFailed.word() == "stun"@ + "_failed"@,
        Outcome::CoordFailed.word() == "coord"@ + "_failed"@,
        Outcome::PunchFailed.word() == "punch"@ + "_failed"@,
        Outcome::QuicFailed.word() == "quic"@ + "_failed"@,
        Outcome::TlsFailed.word() == "tls"@ + "_failed"@,
        Outcome::Success.word() == "success"@,
        Outcome::Cancelled.word() == "cancelled"@,
        Outcome::Other.word() == "other"@,
{
    reveal_strlit("_failed");
    reveal_strlit("stun");
    reveal_strlit("stun_failed");
    reveal_strlit("coord");
    reveal_strlit("coord_failed");
    reveal_strlit("punch");
    reveal_strlit("punch_failed");
    reveal_strlit("quic");
    reveal_strlit("quic_failed");
    reveal_strlit("tls");
    reveal_strlit("tls_failed");
    assert("stun_failed"@ =~= "stun"@ + "_failed"@);
    assert("coord_failed"@ =~= "coord"@ + "_failed"@);
    assert("punch_failed"@ =~= "punch"@ + "_failed"@);
    assert("quic_failed"@ =~= "quic"@ + "_failed"@);
    assert("tls_failed"@ =~= "tls"@ + "_failed"@);
}

} // verus!
