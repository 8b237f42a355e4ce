//! The state of the window.
use crate::client::diag::{DiagResult, NatType};
use crate::client::host;
use crate::client::host::{HostAction, HostConfig, HostStage};
use crate::client::join::JoinConfig;
use crate::client::lan;
use crate::client::telemetry;
use crate::client::telemetry::AppKind;
use crate::gui::log::LogLevel;
use crate::server::rooms;
use crate::text;
use vstd::prelude::*;
use vstd::string::*;

verus! {

/// How long new joiners are accepted, in nanoseconds.
pub const ROOM_TIME_NS: u64 = 900_000_000_000;

/// The coordination server that the window begins with.
pub open spec fn default_coord() -> Seq<char> {
    "https://mcs.markund.f5.si"@
}

/// The STUN server that is asked.
pub open spec fn default_stun() -> Seq<char> {
    "stun.l.google.com:19302"@
}

// ── State ────────────────────────────────────────────────────────────────────

#[derive(Clone, Copy, Debug, PartialEq, Eq, Structural)]
pub enum Mode {
    Host,
    Join,
    Diag,
}

#[derive(Clone, Copy, Debug, PartialEq, Eq, Structural)]
pub enum RunState {
    Idle,
    Running,
}

/// The colours that tell good from bad.
#[derive(Clone, Copy, Debug, PartialEq, Eq, Structural)]
pub enum Tone {
    /// The colour of ordinary text.
    Plain,
    Green,
    Yellow,
    Orange,
    Red,
    DarkRed,
    Gray,
}

impl Tone {
    /// The colour, as red, green and blue.
    pub open spec fn color(self) -> Option<(u8, u8, u8)> {
        match self {
            Tone::Plain => None,
            Tone::Green => Some((100, 220, 100)),
            Tone::Yellow => Some((255, 210, 60)),
            Tone::Orange => Some((255, 160, 50)),
            Tone::Red => Some((255, 90, 90)),
            Tone::DarkRed => Some((200, 80, 80)),
            Tone::Gray => Some((160, 160, 160)),
        }
    }

    /// The colour, as red, green and blue.
    pub fn rgb(self) -> (r: Option<(u8, u8, u8)>)
        ensures
            r == self.color(),
    {
        match self {
            Tone::Plain => None,
            Tone::Green => Some((100, 220, 100)),
            Tone::Yellow => Some((255, 210, 60)),
            Tone::Orange => Some((255, 160, 50)),
            Tone::Red => Some((255, 90, 90)),
            Tone::DarkRed => Some((200, 80, 80)),
            Tone::Gray => Some((160, 160, 160)),
        }
    }
}

/// The state of the window.
#[derive(Debug)]
pub struct App {
    pub mode: Mode,
    pub state: RunState,
    // inputs
    pub coord_url: String,
    pub mc_port: String,
    pub share_input: String,
    // outputs
    pub share_url: String,
    pub local_port: u16,
    /// When the host room expires (15 min after share URL appears), in
    /// nanoseconds of the program's clock.
    pub room_expires_at: Option<u64>,
    pub diag_running: bool,
    /// Opt-in telemetry flag (set via CLI flag or env var at startup).
    pub telemetry_enabled: bool,
}

/// The port that a text gives, spaces aside, or a default.
pub open spec fn port_input(input: Seq<char>, default: u16) -> u16 {
    match text::number(text::trimmed(input), 65535) {
        Some(n) => n as u16,
        None => default,
    }
}

/// The port that a text gives, spaces aside, or a default.
fn read_port(input: &str, default: u16) -> (r: u16)
    ensures
        r == port_input(input@, default),
{
    let c = text::chars_of(input);
    let t = text::trim(c.as_slice());
    match text::parse_port(t.as_slice()) {
        Some(p) => p,
        None => default,
    }
}

/// A text without the spaces around it.
fn trimmed_text(s: &str) -> (r: String)
    ensures
        r@ == text::trimmed(s@),
{
    let c = text::chars_of(s);
    let t = text::trim(c.as_slice());
    text::string_of(t.as_slice())
}

impl App {
    /// The outputs are as they are before a start.
    pub open spec fn outputs_reset(self) -> bool {
        self.share_url@.len() == 0 && self.local_port == 0 && self.room_expires_at is None
    }

    /// The inputs and the settings are those of `other`.
    pub open spec fn same_inputs(self, other: App) -> bool {
        &&& self.mode == other.mode
        &&& self.coord_url == other.coord_url
        &&& self.mc_port == other.mc_port
        &&& self.share_input == other.share_input
        &&& self.diag_running == other.diag_running
        &&& self.telemetry_enabled == other.telemetry_enabled
    }

    /// The window as it opens. The CLI flag opts in to telemetry; otherwise the
    /// value of `MC_SHARE_TELEMETRY` does.
    pub fn new(telemetry_cli_flag: bool, variable: Option<&str>) -> (r: Self)
        ensures
            r.mode == Mode::Host,
            r.state == RunState::Idle,
            r.coord_url@ == default_coord(),
            r.mc_port@.len() == 0,
            r.share_input@.len() == 0,
            r.outputs_reset(),
            !r.diag_running,
            r.telemetry_enabled == telemetry::opted_in(
                telemetry_cli_flag,
                telemetry::str_view(variable),
            ),
    {
        App {
            mode: Mode::Host,
            state: RunState::Idle,
            coord_url: String::from_str("https://mcs.markund.f5.si"),
            mc_port: String::new(),
            share_input: String::new(),
            share_url: String::new(),
            local_port: 0,
            room_expires_at: None,
            diag_running: false,
            telemetry_enabled: telemetry::enabled(telemetry_cli_flag, variable),
        }
    }

    /// Forgets what the last run has brought.
    fn reset_outputs(&mut self)
        ensures
            final(self).outputs_reset(),
            final(self).same_inputs(*old(self)),
            final(self).state == old(self).state,
    {
        self.share_url = String::new();
        self.local_port = 0;
        self.room_expires_at = None;
    }

    /// The configuration is what the inputs say about hosting.
    pub open spec fn asks_to_host(self, r: HostConfig) -> bool {
        &&& r.mc_port == port_input(self.mc_port@, 0)
        &&& r.coord_url@ == text::trimmed(self.coord_url@)
        &&& r.stun_server@ == default_stun()
        &&& r.telemetry == self.telemetry_enabled
        &&& r.app_kind == AppKind::Gui
    }

    /// The configuration is what the inputs say about joining.
    pub open spec fn asks_to_join(self, r: JoinConfig) -> bool {
        &&& r.target@ == text::trimmed(self.share_input@)
        &&& r.local_port == port_input(self.mc_port@, 25565)
        &&& r.coord_url@ == text::trimmed(self.coord_url@)
        &&& r.stun_server@ == default_stun()
        &&& r.telemetry == self.telemetry_enabled
        &&& r.app_kind == AppKind::Gui
    }

    /// The outputs follow those of `before`, given what the run has brought.
    pub open spec fn took_in(
        self,
        before: App,
        share_url: Option<Seq<char>>,
        local_port: Option<u16>,
        now: u64,
    ) -> bool {
        &&& match share_url {
            Some(url) if before.share_url@.len() == 0 => {
                &&& self.share_url@ == url
                &&& self.room_expires_at == Some((now + ROOM_TIME_NS) as u64)
            },
            _ => {
                &&& self.share_url == before.share_url
                &&& self.room_expires_at == before.room_expires_at
            },
        }
        &&& self.local_port == (match local_port {
            Some(p) if before.local_port == 0 => p,
            _ => before.local_port,
        })
    }

    /// The window after a tab has been chosen.
    pub open spec fn turned_to(self, mode: Mode) -> App {
        if mode == Mode::Diag || self.state == RunState::Idle {
            App { mode, ..self }
        } else {
            self
        }
    }

    /// The host panel shows the state of the window.
    pub open spec fn on_host_panel(self, now: u64, r: HostPanel) -> bool {
        &&& r.idle == (self.state == RunState::Idle)
        &&& match r.link {
            Some(url) => url == self.share_url && url@.len() > 0,
            None => self.share_url@.len() == 0,
        }
        &&& match r.countdown {
            Some((tone, line)) => {
                &&& self.share_url@.len() > 0
                &&& self.room_expires_at matches Some(t)
                &&& tone == countdown_tone(t, now)
                &&& line@ == countdown_text(t, now)
            },
            None => self.share_url@.len() == 0 || self.room_expires_at is None,
        }
    }

    /// The join panel shows the state of the window.
    pub open spec fn on_join_panel(self, r: JoinPanel) -> bool {
        match r {
            JoinPanel::Idle { can_join } => {
                &&& self.state == RunState::Idle
                &&& can_join == (text::trimmed(self.share_input@).len() > 0)
            },
            JoinPanel::Connecting => self.state == RunState::Running && self.local_port == 0,
            JoinPanel::Connected { address } => {
                &&& self.state == RunState::Running
                &&& self.local_port != 0
                &&& address@ == "127.0.0.1:"@ + text::decimal(self.local_port as nat)
            },
        }
    }

    /// Starts hosting; gives the configuration of the run.
    pub fn start_host(&mut self) -> (r: HostConfig)
        ensures
            old(self).asks_to_host(r),
            final(self).outputs_reset(),
            final(self).same_inputs(*old(self)),
            final(self).state == RunState::Running,
            r.mc_port == port_input(old(self).mc_port@, 0),
            r.coord_url@ == text::trimmed(old(self).coord_url@),
            r.stun_server@ == default_stun(),
            r.telemetry == old(self).telemetry_enabled,
            r.app_kind == AppKind::Gui,
    {
        self.reset_outputs();
        self.state = RunState::Running;
        HostConfig {
            mc_port: read_port(self.mc_port.as_str(), 0),
            coord_url: trimmed_text(self.coord_url.as_str()),
            stun_server: String::from_str("stun.l.google.com:19302"),
            telemetry: self.telemetry_enabled,
            app_kind: AppKind::Gui,
        }
    }

    /// Starts joining; gives the configuration of the run.
    pub fn start_join(&mut self) -> (r: JoinConfig)
        ensures
            old(self).asks_to_join(r),
            final(self).outputs_reset(),
            final(self).same_inputs(*old(self)),
            final(self).state == RunState::Running,
            r.target@ == text::trimmed(old(self).share_input@),
            r.local_port == port_input(old(self).mc_port@, 25565),
            r.coord_url@ == text::trimmed(old(self).coord_url@),
            r.stun_server@ == default_stun(),
            r.telemetry == old(self).telemetry_enabled,
            r.app_kind == AppKind::Gui,
    {
        self.reset_outputs();
        self.state = RunState::Running;
        JoinConfig {
            target: trimmed_text(self.share_input.as_str()),
            local_port: read_port(self.mc_port.as_str(), 25565),
            coord_url: trimmed_text(self.coord_url.as_str()),
            stun_server: String::from_str("stun.l.google.com:19302"),
            telemetry: self.telemetry_enabled,
            app_kind: AppKind::Gui,
        }
    }

    /// Stops what runs; gives the entry for the log.
    pub fn stop(&mut self) -> (r: &'static str)
        ensures
            *final(self) == (App { state: RunState::Idle, ..*old(self) }),
            r@ == "Stopped."@,
    {
        self.state = RunState::Idle;
        "Stopped."
    }

    /// Takes in what the run has brought: the link, and the local port. The first
    /// link counts, and starts the countdown of the room.
    pub fn poll_cells(&mut self, share_url: Option<&str>, local_port: Option<u16>, now: u64)
        requires
            now <= u64::MAX - ROOM_TIME_NS,
        ensures
            final(self).took_in(*old(self), telemetry::str_view(share_url), local_port, now),
            final(self).same_inputs(*old(self)),
            final(self).state == old(self).state,
            match share_url {
                Some(url) if old(self).share_url@.len() == 0 => {
                    &&& final(self).share_url@ == url@
                    &&& final(self).room_expires_at == Some((now + ROOM_TIME_NS) as u64)
                },
                _ => {
                    &&& final(self).share_url == old(self).share_url
                    &&& final(self).room_expires_at == old(self).room_expires_at
                },
            },
            final(self).local_port == (match local_port {
                Some(p) if old(self).local_port == 0 => p,
                _ => old(self).local_port,
            }),
    {
        if self.share_url.as_str().unicode_len() == 0 {
            if let Some(url) = share_url {
                self.share_url = String::from_str(url);
                self.room_expires_at = Some(now + ROOM_TIME_NS);
            }
        }
        if self.local_port == 0 {
            if let Some(p) = local_port {
                self.local_port = p;
            }
        }
    }

    /// Chooses a tab. While something runs, only the diagnostics can be turned to.
    pub fn select_mode(&mut self, mode: Mode)
        ensures
            *final(self) == old(self).turned_to(mode),
            *final(self) == (if mode == Mode::Diag || old(self).state == RunState::Idle {
                App { mode, ..*old(self) }
            } else {
                *old(self)
            }),
    {
        if mode == Mode::Diag || self.state == RunState::Idle {
            self.mode = mode;
        }
    }

    /// Takes over what is pasted into the field for the link, spaces aside.
    pub fn paste(&mut self, clipboard: &str)
        ensures
            final(self).share_input@ == text::trimmed(clipboard@),
            *final(self) == (App { share_input: final(self).share_input, ..*old(self) }),
    {
        self.share_input = trimmed_text(clipboard);
    }

    /// The inputs can be edited.
    pub fn is_idle(&self) -> (r: bool)
        ensures
            r == (self.state == RunState::Idle),
    {
        self.state == RunState::Idle
    }

    /// There is something to join.
    pub fn can_join(&self) -> (r: bool)
        ensures
            r == (text::trimmed(self.share_input@).len() > 0),
    {
        let c = text::chars_of(self.share_input.as_str());
        let t = text::trim(c.as_slice());
        t.len() > 0
    }
}

// ── The host panel ───────────────────────────────────────────────────────────

/// A number below 100 in two digits.
pub open spec fn two_digits(n: nat) -> Seq<char> {
    if n < 10 {
        "0"@ + text::decimal(n)
    } else {
        text::decimal(n)
    }
}

/// The whole seconds that are left.
pub open spec fn seconds_left(expires_at: u64, now: u64) -> nat {
    if now < expires_at {
        ((expires_at - now) / 1_000_000_000) as nat
    } else {
        0
    }
}

/// The line on how long new joiners are accepted.
pub open spec fn countdown_text(expires_at: u64, now: u64) -> Seq<char> {
    if now < expires_at {
        let s = seconds_left(expires_at, now);
        "⏱  New joiners accepted for "@ + two_digits(s / 60) + ":"@ + two_digits(s % 60)
    } else {
        "⏱  Room expired — new joiners cannot connect (existing players stay connected)"@
    }
}

/// The colour of that line.
pub open spec fn countdown_tone(expires_at: u64, now: u64) -> Tone {
    if now >= expires_at {
        Tone::DarkRed
    } else if seconds_left(expires_at, now) < 60 {
        Tone::Orange
    } else {
        Tone::Gray
    }
}

/// Appends a number in at least two digits.
fn push_two_digits(out: &mut String, n: u64)
    ensures
        final(out)@ == old(out)@ + two_digits(n as nat),
{
    if n < 10 {
        out.append("0");
    }
    text::push_number(out, n);
    assert(out@ =~= old(out)@ + two_digits(n as nat));
}

/// The line on how long new joiners are accepted.
pub fn countdown(expires_at: u64, now: u64) -> (r: (Tone, String))
    ensures
        r.0 == countdown_tone(expires_at, now),
        r.1@ == countdown_text(expires_at, now),
{
    if now < expires_at {
        let s: u64 = (expires_at - now) / 1_000_000_000;
        let tone = if s < 60 {
            Tone::Orange
        } else {
            Tone::Gray
        };
        let mut out = String::from_str("⏱  New joiners accepted for ");
        push_two_digits(&mut out, s / 60);
        out.append(":");
        push_two_digits(&mut out, s % 60);
        (tone, out)
    } else {
        (
            Tone::DarkRed,
            String::from_str(
                "⏱  Room expired — new joiners cannot connect (existing players stay connected)",
            ),
        )
    }
}

/// What the host panel shows.
#[derive(Debug)]
pub struct HostPanel {
    /// The inputs can be edited, and the button starts sharing; otherwise it stops.
    pub idle: bool,
    /// The link, once it is there.
    pub link: Option<String>,
    /// The line on how long new joiners are accepted.
    pub countdown: Option<(Tone, String)>,
}

impl App {
    /// What the host panel shows.
    pub fn show_host_panel(&self, now: u64) -> (r: HostPanel)
        ensures
            self.on_host_panel(now, r),
            r.idle == (self.state == RunState::Idle),
            match r.link {
                Some(url) => url == self.share_url && url@.len() > 0,
                None => self.share_url@.len() == 0,
            },
            match r.countdown {
                Some((tone, line)) => {
                    &&& self.share_url@.len() > 0
                    &&& self.room_expires_at matches Some(t)
                    &&& tone == countdown_tone(t, now)
                    &&& line@ == countdown_text(t, now)
                },
                None => self.share_url@.len() == 0 || self.room_expires_at is None,
            },
    {
        let idle = self.is_idle();
        if self.share_url.as_str().unicode_len() == 0 {
            return HostPanel { idle, link: None, countdown: None };
        }
        let line = match self.room_expires_at {
            Some(t) => Some(countdown(t, now)),
            None => None,
        };
        HostPanel { idle, link: Some(self.share_url.clone()), countdown: line }
    }
}

// ── The join panel ───────────────────────────────────────────────────────────

/// What the join panel shows below its inputs.
#[derive(Debug)]
pub enum JoinPanel {
    /// A button that joins, if there is something to join.
    Idle { can_join: bool },
    /// The tunnel is being set up; a button disconnects.
    Connecting,
    /// The tunnel is up, under this address; a button disconnects.
    Connected { address: String },
}

impl App {
    /// What the join panel shows below its inputs.
    pub fn show_join_panel(&self) -> (r: JoinPanel)
        ensures
            self.on_join_panel(r),
            match r {
                JoinPanel::Idle { can_join } => {
                    &&& self.state == RunState::Idle
                    &&& can_join == (text::trimmed(self.share_input@).len() > 0)
                },
                JoinPanel::Connecting => self.state == RunState::Running && self.local_port == 0,
                JoinPanel::Connected { address } => {
                    &&& self.state == RunState::Running
                    &&& self.local_port != 0
                    &&& address@ == "127.0.0.1:"@ + text::decimal(self.local_port as nat)
                },
            },
    {
        match self.state {
            RunState::Idle => JoinPanel::Idle { can_join: self.can_join() },
            RunState::Running => if self.local_port != 0 {
                let mut address = String::from_str("127.0.0.1:");
                text::push_number(&mut address, self.local_port as u64);
                JoinPanel::Connected { address }
            } else {
                JoinPanel::Connecting
            },
        }
    }
}

// ── The diagnostics panel ────────────────────────────────────────────────────

/// A line of the diagnostics: what it is about, what it says, and how.
#[derive(Debug)]
pub struct DiagRow {
    pub label: &'static str,
    pub value: String,
    pub tone: Tone,
    /// Shown in a typeface of fixed width.
    pub monospace: bool,
}

/// The content of a line of the diagnostics.
pub struct DiagRowView {
    pub label: Seq<char>,
    pub value: Seq<char>,
    pub tone: Tone,
    pub monospace: bool,
}

impl View for DiagRow {
    type V = DiagRowView;

    open spec fn view(&self) -> DiagRowView {
        DiagRowView {
            label: self.label@,
            value: self.value@,
            tone: self.tone,
            monospace: self.monospace,
        }
    }
}

/// The contents of lines of the diagnostics.
pub open spec fn rows(v: Seq<DiagRow>) -> Seq<DiagRowView> {
    v.map_values(|r: DiagRow| r@)
}

/// A line of the diagnostics.
pub open spec fn row_view(
    label: Seq<char>,
    value: Seq<char>,
    tone: Tone,
    monospace: bool,
) -> DiagRowView {
    DiagRowView { label, value, tone, monospace }
}

/// The line on the NAT.
pub open spec fn nat_row(t: NatType) -> DiagRowView {
    let (icon, tone) = match t {
        NatType::Cone => ("✅ "@, Tone::Green),
        NatType::Indeterminate => ("⚠️ "@, Tone::Yellow),
        NatType::UdpBlocked => ("❌ "@, Tone::Red),
        NatType::Symmetric => ("⚠️ "@, Tone::Orange),
    };
    row_view("NAT Type"@, icon + t.text(), tone, false)
}

/// The line on the first external address.
pub open spec fn primary_row(r: DiagResult) -> DiagRowView {
    match r.ext_v4_primary {
        Some(a) => row_view("External Address (IPv4)"@, a.text(), Tone::Plain, true),
        None => row_view("External Address (IPv4)"@, "Failed"@, Tone::Red, false),
    }
}

/// The line on UDP.
pub open spec fn udp_row(r: DiagResult) -> DiagRowView {
    if r.ext_v4_primary is Some {
        row_view("UDP"@, "✅ Available"@, Tone::Green, false)
    } else {
        row_view("UDP"@, "❌ Blocked / Failed"@, Tone::Red, false)
    }
}

/// The line on IPv6.
pub open spec fn ipv6_row(r: DiagResult) -> DiagRowView {
    if r.ipv6_available {
        row_view("IPv6"@, "✅ Available"@, Tone::Green, false)
    } else {
        row_view("IPv6"@, "— Unavailable"@, Tone::Gray, false)
    }
}

/// The lines on the network.
pub open spec fn network_lines(r: DiagResult) -> Seq<DiagRowView> {
    let rest = seq![nat_row(r.nat_type), udp_row(r), ipv6_row(r)];
    match r.ext_v4_secondary {
        Some(b) => seq![
            primary_row(r),
            row_view("External Address (STUN2)"@, b.text(), Tone::Plain, true),
        ] + rest,
        None => seq![primary_row(r)] + rest,
    }
}

/// The lines on the network.
pub fn network_rows(r: &DiagResult) -> (v: Vec<DiagRow>)
    ensures
        rows(v@) == network_lines(*r),
{
    let mut v: Vec<DiagRow> = Vec::new();
    match r.ext_v4_primary {
        Some(a) => {
            v.push(
                DiagRow {
                    label: "External Address (IPv4)",
                    value: a.to_text(),
                    tone: Tone::Plain,
                    monospace: true,
                },
            );
        },
        None => {
            v.push(
                DiagRow {
                    label: "External Address (IPv4)",
                    value: String::from_str("Failed"),
                    tone: Tone::Red,
                    monospace: false,
                },
            );
        },
    }
    if let Some(b) = r.ext_v4_secondary {
        v.push(
            DiagRow {
                label: "External Address (STUN2)",
                value: b.to_text(),
                tone: Tone::Plain,
                monospace: true,
            },
        );
    }
    let (icon, tone) = match r.nat_type {
        NatType::Cone => ("✅ ", Tone::Green),
        NatType::Indeterminate => ("⚠️ ", Tone::Yellow),
        NatType::UdpBlocked => ("❌ ", Tone::Red),
        NatType::Symmetric => ("⚠️ ", Tone::Orange),
    };
    let mut nat_text = String::from_str(icon);
    nat_text.append(r.nat_type.label());
    v.push(DiagRow { label: "NAT Type", value: nat_text, tone, monospace: false });
    if r.ext_v4_primary.is_some() {
        v.push(
            DiagRow {
                label: "UDP",
                value: String::from_str("✅ Available"),
                tone: Tone::Green,
                monospace: false,
            },
        );
    } else {
        v.push(
            DiagRow {
                label: "UDP",
                value: String::from_str("❌ Blocked / Failed"),
                tone: Tone::Red,
                monospace: false,
            },
        );
    }
    if r.ipv6_available {
        v.push(
            DiagRow {
                label: "IPv6",
                value: String::from_str("✅ Available"),
                tone: Tone::Green,
                monospace: false,
            },
        );
    } else {
        v.push(
            DiagRow {
                label: "IPv6",
                value: String::from_str("— Unavailable"),
                tone: Tone::Gray,
                monospace: false,
            },
        );
    }
    assert(rows(v@) =~= network_lines(*r));
    v
}

/// The advice that goes with a NAT.
pub open spec fn nat_advice(t: NatType) -> Option<(Tone, Seq<char>)> {
    match t {
        NatType::Symmetric => Some(
            (
                Tone::Orange,
                "⚠ Symmetric NAT — P2P is difficult.\nRelay will be used automatically when connecting."@,
            ),
        ),
        NatType::UdpBlocked => Some(
            (Tone::Red, "❌ UDP is blocked. Check your firewall settings."@),
        ),
        _ => None,
    }
}

/// The advice that goes with a NAT.
pub fn nat_hint(t: NatType) -> (r: Option<(Tone, &'static str)>)
    ensures
        match r {
            Some((tone, s)) => nat_advice(t) == Some((tone, s@)),
            None => nat_advice(t) is None,
        },
{
    match t {
        NatType::Symmetric => Some(
            (
                Tone::Orange,
                "⚠ Symmetric NAT — P2P is difficult.\nRelay will be used automatically when connecting.",
            ),
        ),
        NatType::UdpBlocked => Some(
            (Tone::Red, "❌ UDP is blocked. Check your firewall settings."),
        ),
        _ => None,
    }
}

/// The lines on the system.
pub open spec fn system_lines(r: DiagResult) -> Seq<DiagRowView> {
    seq![
        row_view("OS"@, r.os_detail@, Tone::Plain, false),
        row_view("Architecture"@, r.arch@, Tone::Plain, true),
    ]
}

/// The lines on the system.
pub fn system_rows(r: &DiagResult) -> (v: Vec<DiagRow>)
    ensures
        rows(v@) == system_lines(*r),
        rows(v@) == seq![
            row_view("OS"@, r.os_detail@, Tone::Plain, false),
            row_view("Architecture"@, r.arch@, Tone::Plain, true),
        ],
{
    let mut v: Vec<DiagRow> = Vec::new();
    v.push(
        DiagRow {
            label: "OS",
            value: r.os_detail.clone(),
            tone: Tone::Plain,
            monospace: false,
        },
    );
    v.push(
        DiagRow {
            label: "Architecture",
            value: r.arch.clone(),
            tone: Tone::Plain,
            monospace: true,
        },
    );
    assert(rows(v@) =~= seq![
        row_view("OS"@, r.os_detail@, Tone::Plain, false),
        row_view("Architecture"@, r.arch@, Tone::Plain, true),
    ]);
    v
}

/// Texts with a comma and a space between them.
pub open spec fn comma_list(names: Seq<String>) -> Seq<char>
    decreases names.len(),
{
    if names.len() == 0 {
        seq![]
    } else if names.len() == 1 {
        names[0]@
    } else {
        comma_list(names.drop_last()) + ", "@ + names.last()@
    }
}

/// Texts with a comma and a space between them.
fn join_names(names: &Vec<String>) -> (r: String)
    ensures
        r@ == comma_list(names@),
{
    let mut out = String::new();
    let mut i: usize = 0;
    assert(names@.take(0) =~= seq![]);
    while i < names.len()
        invariant
            i <= names@.len(),
            out@ == comma_list(names@.take(i as int)),
        decreases names@.len() - i,
    {
        proof {
            let head = names@.take(i + 1);
            assert(head.drop_last() =~= names@.take(i as int));
            assert(head.last() == names@[i as int]);
        }
        if i > 0 {
            out.append(", ");
        }
        out.append(names[i].as_str());
        proof {
            let head = names@.take(i + 1);
            if i == 0 {
                assert(out@ =~= head[0]@);
            }
        }
        i = i + 1;
    }
    assert(names@.take(i as int) =~= names@);
    out
}

/// The lines on Minecraft.
pub open spec fn minecraft_lines(r: DiagResult) -> Seq<DiagRowView> {
    seq![
        match r.mc_dir {
            Some(d) => row_view("Data folder"@, d@, Tone::Plain, true),
            None => row_view("Data folder"@, "— Not found"@, Tone::Gray, false),
        },
        if r.mc_versions@.len() == 0 {
            row_view("Installed versions"@, "— None detected"@, Tone::Gray, false)
        } else {
            row_view("Installed versions"@, comma_list(r.mc_versions@), Tone::Plain, false)
        },
    ]
}

/// The lines on Minecraft.
pub fn minecraft_rows(r: &DiagResult) -> (v: Vec<DiagRow>)
    ensures
        rows(v@) == minecraft_lines(*r),
{
    let mut v: Vec<DiagRow> = Vec::new();
    match &r.mc_dir {
        Some(d) => {
            v.push(
                DiagRow {
                    label: "Data folder",
                    value: d.clone(),
                    tone: Tone::Plain,
                    monospace: true,
                },
            );
        },
        None => {
            v.push(
                DiagRow {
                    label: "Data folder",
                    value: String::from_str("— Not found"),
                    tone: Tone::Gray,
                    monospace: false,
                },
            );
        },
    }
    if r.mc_versions.len() == 0 {
        v.push(
            DiagRow {
                label: "Installed versions",
                value: String::from_str("— None detected"),
                tone: Tone::Gray,
                monospace: false,
            },
        );
    } else {
        v.push(
            DiagRow {
                label: "Installed versions",
                value: join_names(&r.mc_versions),
                tone: Tone::Plain,
                monospace: false,
            },
        );
    }
    assert(rows(v@) =~= minecraft_lines(*r));
    v
}

/// What the diagnostics panel shows.
#[derive(Debug)]
pub enum DiagPanel {
    /// The diagnostics are under way.
    Running,
    /// Nothing has been diagnosed yet.
    Ready,
    /// This has been found.
    Done {
        network: Vec<DiagRow>,
        hint: Option<(Tone, &'static str)>,
        system: Vec<DiagRow>,
        minecraft: Vec<DiagRow>,
    },
}

impl App {
    /// Starts the diagnostics.
    pub fn start_diag(&mut self)
        ensures
            *final(self) == (App { diag_running: true, ..*old(self) }),
    {
        self.diag_running = true;
    }

    /// What the diagnostics panel shows, given what has been found so far. A result
    /// ends the diagnostics.
    pub fn show_diag_panel(&mut self, result: Option<&DiagResult>) -> (r: DiagPanel)
        ensures
            *final(self) == (App {
                diag_running: old(self).diag_running && result is None,
                ..*old(self)
            }),
            match r {
                DiagPanel::Running => result is None && old(self).diag_running,
                DiagPanel::Ready => result is None && !old(self).diag_running,
                DiagPanel::Done { network, hint, system, minecraft } => {
                    &&& result matches Some(d)
                    &&& rows(network@) == network_lines(*d)
                    &&& match hint {
                        Some((tone, s)) => nat_advice(d.nat_type) == Some((tone, s@)),
                        None => nat_advice(d.nat_type) is None,
                    }
                    &&& rows(system@) == seq![
                        row_view("OS"@, d.os_detail@, Tone::Plain, false),
                        row_view("Architecture"@, d.arch@, Tone::Plain, true),
                    ]
                    &&& rows(minecraft@) == minecraft_lines(*d)
                },
            },
    {
        match result {
            None => if self.diag_running {
                DiagPanel::Running
            } else {
                DiagPanel::Ready
            },
            Some(d) => {
                self.diag_running = false;
                DiagPanel::Done {
                    network: network_rows(d),
                    hint: nat_hint(d.nat_type),
                    system: system_rows(d),
                    minecraft: minecraft_rows(d),
                }
            },
        }
    }
}

// ── Arguments ────────────────────────────────────────────────────────────────

/// What the arguments of the window ask for.
#[derive(Clone, Copy, Debug, PartialEq, Eq, Structural)]
pub enum Launch {
    /// Show the help and exit.
    Help,
    /// Open the window.
    Open { telemetry: bool },
}

/// One of the arguments is `a`.
pub open spec fn has_argument(args: Seq<String>, a: Seq<char>) -> bool {
    exists|i: int| 0 <= i < args.len() && (#[trigger] args[i])@ == a
}

/// Tests whether one of the arguments is `a`.
fn find_argument(args: &Vec<String>, a: &str) -> (r: bool)
    ensures
        r == has_argument(args@, a@),
{
    let mut i: usize = 0;
    while i < args.len()
        invariant
            i <= args@.len(),
            forall|k: int| 0 <= k < i ==> (#[trigger] args@[k])@ != a@,
        decreases args@.len() - i,
    {
        if text::same_text(args[i].as_str(), a) {
            assert(args@[i as int]@ == a@);
            return true;
        }
        i = i + 1;
    }
    false
}

/// What the arguments of the window ask for.
pub open spec fn launch(args: Seq<String>) -> Launch {
    if has_argument(args, "--help"@) || has_argument(args, "-h"@) {
        Launch::Help
    } else {
        Launch::Open { telemetry: has_argument(args, "--telemetry"@) }
    }
}

/// Reads the arguments of the window.
pub fn parse_arguments(args: &Vec<String>) -> (r: Launch)
    ensures
        r == launch(args@),
        r == (if has_argument(args@, "--help"@) || has_argument(args@, "-h"@) {
            Launch::Help
        } else {
            Launch::Open { telemetry: has_argument(args@, "--telemetry"@) }
        }),
{
    if find_argument(args, "--help") || find_argument(args, "-h") {
        Launch::Help
    } else {
        Launch::Open { telemetry: find_argument(args, "--telemetry") }
    }
}

// ── Laws ─────────────────────────────────────────────────────────────────────

/// The countdown is true: a room whose link appeared at `shown` is said to have
/// expired exactly from 15 minutes later on, and its last minute stands out.
pub proof fn law_countdown_runs_fifteen_minutes(shown: u64, now: u64)
    requires
        shown <= now,
        shown <= u64::MAX - ROOM_TIME_NS,
    ensures
        ({
            let expires_at = (shown + ROOM_TIME_NS) as u64;
            &&& countdown_tone(expires_at, now) == Tone::DarkRed <==> now - shown >= 15 * 60
                * 1_000_000_000
            &&& countdown_tone(expires_at, now) == Tone::Gray <==> now - shown <= 14 * 60
                * 1_000_000_000
            &&& seconds_left(expires_at, now) <= 900
        }),
{
}

/// A port that is entered counts, whatever space stands around it and with a plus sign
/// or without one. Where nothing is entered, or what is no port, the default counts.
pub proof fn law_entered_port_counts(
    a: Seq<char>,
    b: Seq<char>,
    n: nat,
    plus: bool,
    default: u16,
)
    requires
        text::all_space(a),
        text::all_space(b),
    ensures
        ({
            let d = if plus {
                seq!['+'] + text::decimal(n)
            } else {
                text::decimal(n)
            };
            &&& n <= 65535 ==> port_input(a + d + b, default) == n
            &&& n > 65535 ==> port_input(a + d + b, default) == default
            &&& port_input(a + b, default) == default
        }),
{
    text::lemma_decimal(n);
    let t = text::decimal(n);
    let d = if plus {
        seq!['+'] + t
    } else {
        t
    };
    assert(text::is_digit(t[0]));
    assert(text::is_digit(t[t.len() - 1]));
    text::law_ascii_space(d[0]);
    text::law_ascii_space(d.last());
    text::law_trimmed_is_what_stands_between(a, d, b);
    text::law_numbers_are_digits(t, 65535);
    let none = Seq::<char>::empty();
    text::law_trimmed_is_what_stands_between(a, none, b);
    assert(a + none + b =~= a + b);
}

/// What is entered is hosted: the world on the port in the field, or, where the field is
/// blank, the one that is found on the network. The server's address is what stands in
/// its field, spaces aside.
pub proof fn law_window_hosts_what_is_entered(
    app: App,
    config: HostConfig,
    a: Seq<char>,
    b: Seq<char>,
    port: u16,
    url: Seq<char>,
)
    requires
        app.asks_to_host(config),
        text::all_space(a),
        text::all_space(b),
        url.len() > 0,
        !text::is_space(url[0]),
        !text::is_space(url.last()),
        app.coord_url@ == a + url + b,
    ensures
        port != 0 && app.mc_port@ == a + text::decimal(port as nat) + b ==> host::first_step(
            config,
        ).0 == (HostStage::QueryingStun { mc_port: port }),
        app.mc_port@ == a + b ==> host::first_step(config).1 == HostAction::DetectLanWorld,
        config.coord_url@ == url,
        config.stun_server@ == "stun.l.google.com:19302"@,
        config.telemetry <==> app.telemetry_enabled,
        config.app_kind == AppKind::Gui,
{
    law_entered_port_counts(a, b, port as nat, false, 0);
    text::law_trimmed_is_what_stands_between(a, url, b);
}

/// What is entered is joined, under the port in the field, or, where the field is blank,
/// under the port of Minecraft itself.
pub proof fn law_window_joins_what_is_entered(
    app: App,
    config: JoinConfig,
    a: Seq<char>,
    b: Seq<char>,
    port: u16,
    url: Seq<char>,
    link: Seq<char>,
)
    requires
        app.asks_to_join(config),
        text::all_space(a),
        text::all_space(b),
        url.len() > 0,
        !text::is_space(url[0]),
        !text::is_space(url.last()),
        link.len() > 0,
        !text::is_space(link[0]),
        !text::is_space(link.last()),
        app.coord_url@ == a + url + b,
        app.share_input@ == a + link + b,
    ensures
        app.mc_port@ == a + text::decimal(port as nat) + b ==> config.local_port == port,
        app.mc_port@ == a + b ==> config.local_port == lan::DEFAULT_MC_PORT,
        config.target@ == link,
        config.coord_url@ == url,
        config.stun_server@ == "stun.l.google.com:19302"@,
        config.telemetry <==> app.telemetry_enabled,
        config.app_kind == AppKind::Gui,
{
    law_entered_port_counts(a, b, port as nat, false, 25565);
    text::law_trimmed_is_what_stands_between(a, url, b);
    text::law_trimmed_is_what_stands_between(a, link, b);
}

/// The link is shown as it came, and stays when another one comes: the countdown runs
/// from when the first one came, for as long as the server keeps the room.
pub proof fn law_first_link_is_shown(
    start: App,
    first: App,
    second: App,
    url: Seq<char>,
    other: Option<Seq<char>>,
    at: u64,
    later: u64,
    now: u64,
    panel: HostPanel,
)
    requires
        start.outputs_reset(),
        url.len() > 0,
        at <= u64::MAX - rooms::ROOM_EXPIRY_NS,
        first.took_in(start, Some(url), None, at),
        second.took_in(first, other, None, later),
        second.on_host_panel(now, panel),
    ensures
        panel.link matches Some(link) && link@ == url,
        panel.countdown matches Some((tone, line)) && (tone == Tone::DarkRed <==> now - at
            >= rooms::ROOM_EXPIRY_NS),
        second.local_port == 0,
{
}

/// Before there is a link the host panel shows none, and no countdown.
pub proof fn law_no_link_before_it_comes(
    start: App,
    after: App,
    port: Option<u16>,
    now: u64,
    panel: HostPanel,
)
    requires
        start.outputs_reset(),
        after.took_in(start, None, port, now),
        after.on_host_panel(now, panel),
    ensures
        panel.link is None,
        panel.countdown is None,
        panel.idle <==> after.state == RunState::Idle,
{
}

/// The first port that the tunnel listens on is shown, on this machine, as long as the
/// run goes on; until there is one the window says that it is connecting.
pub proof fn law_first_port_is_shown(
    start: App,
    first: App,
    second: App,
    port: u16,
    other: Option<u16>,
    now: u64,
    panel: JoinPanel,
)
    requires
        start.outputs_reset(),
        first.took_in(start, None, Some(port), now),
        second.took_in(first, None, other, now),
        second.on_join_panel(panel),
        second.state == RunState::Running,
    ensures
        port != 0 ==> (panel matches JoinPanel::Connected { address } && text::begins_with(
            address@,
            "127.0.0.1"@,
        ) && text::number(text::after_last(address@, ':'), 65535) == Some(port as int)),
        port == 0 && (other is None || other == Some(0u16)) ==> panel is Connecting,
{
    if port != 0 {
        let address = panel->address;
        let d = text::decimal(port as nat);
        let ip = "127.0.0.1"@;
        text::lemma_decimal(port as nat);
        text::lemma_number_of_decimal(port as nat, 65535);
        assert forall|i: int| 0 <= i < d.len() implies #[trigger] d[i] != ':' by {
            assert(text::is_digit(d[i]));
        }
        reveal_strlit("127.0.0.1:");
        reveal_strlit("127.0.0.1");
        assert("127.0.0.1:"@ =~= ip + seq![':']);
        assert(address@ =~= ip + seq![':'] + d);
        text::law_last_piece_is_found(ip, ':', d);
        text::law_texts_are_found_where_they_stand(seq![], ip, seq![':'] + d);
        assert(address@ =~= ip + (seq![':'] + d));
    }
}

/// Without a run the join panel offers to join if and only if something other than space
/// stands in the field for the link.
pub proof fn law_joining_needs_a_link(
    app: App,
    panel: JoinPanel,
    a: Seq<char>,
    link: Seq<char>,
    b: Seq<char>,
)
    requires
        app.on_join_panel(panel),
        app.state == RunState::Idle,
        text::all_space(a),
        text::all_space(b),
        link.len() > 0 ==> !text::is_space(link[0]) && !text::is_space(link.last()),
        app.share_input@ == a + link + b,
    ensures
        panel == (JoinPanel::Idle { can_join: link.len() > 0 }),
{
    text::law_trimmed_is_what_stands_between(a, link, b);
}

/// A run keeps its tab but for the diagnostics, which can always be turned to; without a
/// run every tab can. Nothing but the tab changes.
pub proof fn law_runs_keep_their_tab(app: App, mode: Mode)
    ensures
        app.turned_to(Mode::Diag).mode == Mode::Diag,
        app.state == RunState::Idle ==> app.turned_to(mode).mode == mode,
        app.state == RunState::Running && mode != Mode::Diag ==> app.turned_to(mode).mode
            == app.mode,
        (App { mode: app.mode, ..app.turned_to(mode) }) == app,
{
}

/// The countdown shows minutes and seconds: the seconds in two digits, the minutes in
/// two or more, and together they are the whole seconds that are left.
pub proof fn law_countdown_shows_minutes_and_seconds(
    expires_at: u64,
    now: u64,
    minutes: nat,
    seconds: nat,
    rest: nat,
)
    requires
        seconds < 60,
        rest < 1_000_000_000,
        now < expires_at,
        expires_at - now == (60 * minutes + seconds) * 1_000_000_000 + rest,
    ensures
        ({
            let line = countdown_text(expires_at, now);
            let head = "⏱  New joiners accepted for "@;
            let s = text::after_last(line, ':');
            let m = line.subrange(head.len() as int, line.len() - 3);
            &&& line == head + m + seq![':'] + s
            &&& s.len() == 2
            &&& m.len() >= 2
            &&& minutes < 100 ==> m.len() == 2
            &&& text::number(s, 59) == Some(seconds as int)
            &&& text::number(m, minutes as int) == Some(minutes as int)
            &&& countdown_tone(expires_at, now) == Tone::Orange <==> minutes == 0
        }),
{
    let line = countdown_text(expires_at, now);
    let head = "⏱  New joiners accepted for "@;
    let left = seconds_left(expires_at, now);
    assert(left == 60 * minutes + seconds);
    assert(left / 60 == minutes && left % 60 == seconds);
    let m = two_digits(minutes);
    let s = two_digits(seconds);
    lemma_two_digits(minutes);
    lemma_two_digits(seconds);
    reveal_strlit(":");
    assert(":"@ =~= seq![':']);
    assert(line =~= (head + m) + seq![':'] + s);
    text::law_last_piece_is_found(head + m, ':', s);
    assert(line.subrange(head.len() as int, line.len() - 3) =~= m);
}

/// A number in at least two digits stands for itself.
proof fn lemma_two_digits(n: nat)
    ensures
        two_digits(n).len() >= 2,
        n < 100 ==> two_digits(n).len() == 2,
        text::all_digits(two_digits(n)),
        forall|max: int| n <= max ==> #[trigger] text::number(two_digits(n), max) == Some(n as int),
        forall|i: int| 0 <= i < two_digits(n).len() ==> #[trigger] two_digits(n)[i] != ':',
{
    reveal_strlit("0");
    let d = text::decimal(n);
    let t = two_digits(n);
    text::lemma_decimal(n);
    if n < 10 {
        assert(d.len() == 1);
        assert(t =~= seq!['0'].push(d[0]));
        text::law_digits_are_read_to_the_base_ten(seq!['0'], d[0]);
        text::law_digits_are_read_to_the_base_ten(seq![], '0');
        text::law_digits_are_read_to_the_base_ten(seq![], d[0]);
        assert(seq!['0'] =~= Seq::<char>::empty().push('0'));
        assert(d =~= Seq::<char>::empty().push(d[0]));
        assert(text::is_digit(d[0]));
    } else {
        text::lemma_decimal(n / 10);
        assert(d.len() == text::decimal(n / 10).len() + 1);
    }
    assert(text::is_digit(t[0]));
    assert forall|max: int| n <= max implies #[trigger] text::number(t, max) == Some(n as int) by {
        text::law_numbers_are_digits(t, max);
    }
    assert forall|i: int| 0 <= i < t.len() implies #[trigger] t[i] != ':' by {
        assert(text::is_digit(t[i]));
    }
}

/// Each address is shown on a line of its own, as the servers saw it; UDP is said to work
/// if and only if the first server has answered, and IPv6 if and only if there is a way.
pub proof fn law_network_is_shown_as_found(r: DiagResult)
    ensures
        ({
            let v = network_lines(r);
            let n = v.len() as int;
            &&& n == (if r.ext_v4_secondary is Some {
                5int
            } else {
                4int
            })
            &&& v[0].label == "External Address (IPv4)"@
            &&& r.ext_v4_primary matches Some(a) ==> v[0].value == a.text() && v[0].tone
                == Tone::Plain
            &&& r.ext_v4_primary is None ==> v[0].value == "Failed"@ && v[0].tone == Tone::Red
            &&& r.ext_v4_secondary matches Some(b) ==> v[1].value == b.text() && v[1].label
                == "External Address (STUN2)"@ && v[1].tone == Tone::Plain
            &&& v[n - 3].label == "NAT Type"@
            &&& text::contains_text(v[n - 3].value, r.nat_type.text())
            &&& v[n - 2].label == "UDP"@
            &&& v[n - 2].tone == Tone::Green <==> r.ext_v4_primary is Some
            &&& v[n - 2].tone == Tone::Red <==> r.ext_v4_primary is None
            &&& v[n - 1].label == "IPv6"@
            &&& v[n - 1].tone == Tone::Green <==> r.ipv6_available
            &&& v[n - 1].tone == Tone::Gray <==> !r.ipv6_available
            &&& v[n - 1].value == "✅ Available"@ <==> r.ipv6_available
            &&& v[n - 2].value == "✅ Available"@ <==> r.ext_v4_primary is Some
            &&& forall|i: int|
                0 <= i < n ==> ((#[trigger] v[i]).monospace <==> v[i].tone == Tone::Plain)
        }),
{
    let icon = match r.nat_type {
        NatType::Cone => "✅ "@,
        NatType::Indeterminate => "⚠️ "@,
        NatType::UdpBlocked => "❌ "@,
        NatType::Symmetric => "⚠️ "@,
    };
    let t = r.nat_type.text();
    text::law_texts_are_found_where_they_stand(icon, t, seq![]);
    assert(icon + t + seq![] =~= icon + t);
    reveal_strlit("✅ Available");
    reveal_strlit("❌ Blocked / Failed");
    reveal_strlit("— Unavailable");
    assert("✅ Available"@[0] == '✅');
    assert("❌ Blocked / Failed"@[0] == '❌');
    assert("— Unavailable"@[0] == '—');
}

/// A cone is good and a blocked network is bad; the NATs that need the relay, or have not
/// been told, are between. Advice comes with those that stand in the way, in the colour
/// of the line on the NAT.
pub proof fn law_nats_are_coloured_by_their_trouble(t: NatType)
    ensures
        nat_row(t).tone == Tone::Green <==> t == NatType::Cone,
        nat_row(t).tone == Tone::Red <==> t == NatType::UdpBlocked,
        nat_row(t).tone == Tone::Orange <==> t == NatType::Symmetric,
        nat_row(t).tone == Tone::Yellow <==> t == NatType::Indeterminate,
        nat_advice(t) is Some <==> t == NatType::Symmetric || t == NatType::UdpBlocked,
        nat_advice(t) matches Some((tone, s)) ==> tone == nat_row(t).tone,
{
}

/// A run touches no input and no setting: the window differs from what it was in its
/// state and its outputs alone.
pub proof fn law_inputs_are_kept(before: App, after: App)
    requires
        after.same_inputs(before),
    ensures
        after == (App {
            state: after.state,
            share_url: after.share_url,
            local_port: after.local_port,
            room_expires_at: after.room_expires_at,
            ..before
        }),
{
}

/// Names are listed in their order, each after the first behind a comma and a space.
pub proof fn law_names_are_listed_in_order(names: Seq<String>, name: String)
    ensures
        comma_list(Seq::<String>::empty()) == Seq::<char>::empty(),
        comma_list(seq![name]) == name@,
        names.len() > 0 ==> comma_list(names.push(name)) == comma_list(names) + seq![',', ' ']
            + name@,
{
    reveal_strlit(", ");
    assert(", "@ =~= seq![',', ' ']);
    assert(names.push(name).drop_last() =~= names);
}

/// The folder and the versions are shown as found; what has not been found is said to be
/// missing, in gray.
pub proof fn law_minecraft_is_shown_as_found(r: DiagResult)
    ensures
        ({
            let v = minecraft_lines(r);
            &&& v.len() == 2
            &&& v[0].label == "Data folder"@
            &&& v[1].label == "Installed versions"@
            &&& r.mc_dir matches Some(d) ==> v[0].value == d@ && v[0].monospace
            &&& r.mc_dir is None ==> v[0].value == "— Not found"@
            &&& v[0].tone == Tone::Gray <==> r.mc_dir is None
            &&& r.mc_versions@.len() == 1 ==> v[1].value == r.mc_versions@[0]@
            &&& r.mc_versions@.len() == 2 ==> v[1].value == r.mc_versions@[0]@ + ", "@
                + r.mc_versions@[1]@
            &&& r.mc_versions@.len() > 0 ==> v[1].value == comma_list(r.mc_versions@)
            &&& r.mc_versions@.len() == 0 ==> v[1].value == "— None detected"@
            &&& v[1].tone == Tone::Gray <==> r.mc_versions@.len() == 0
            &&& v[0].tone == Tone::Plain <==> r.mc_dir is Some
            &&& v[1].tone == Tone::Plain <==> r.mc_versions@.len() > 0
        }),
{
    let names = r.mc_versions@;
    if names.len() == 2 {
        assert(names.drop_last() =~= seq![names[0]]);
        assert(comma_list(names.drop_last()) == names[0]@);
    }
}

/// The colours tell the tones apart, and are those of the log.
pub proof fn law_tones_are_told_apart(a: Tone, b: Tone)
    ensures
        a.color() == b.color() ==> a == b,
        a.color() is None <==> a == Tone::Plain,
        ({
            let c = Tone::Green.color()->0;
            c.1 > 2 * c.0 && c.1 > 2 * c.2
        }),
        ({
            let c = Tone::DarkRed.color()->0;
            c.0 > 2 * c.1 && c.0 > 2 * c.2 && c.0 < 255
        }),
        ({
            let c = Tone::Gray.color()->0;
            c.0 == c.1 && c.1 == c.2
        }),
        ({
            let c = Tone::Orange.color()->0;
            c.0 > c.1 && c.1 > 3 * c.2
        }),
        Tone::Red.color() == Some(LogLevel::Error.color()),
        Tone::Yellow.color() == Some(LogLevel::Warn.color()),
{
}

/// Asking for help brings it, wherever it stands among the arguments; otherwise the
/// window opens, with telemetry if and only if one of the arguments asks for it. Other
/// arguments change nothing.
pub proof fn law_arguments_are_obeyed(a: Seq<String>, x: String, b: Seq<String>)
    ensures
        ({
            let with = launch(a + seq![x] + b);
            let without = launch(a + b);
            &&& x@ == "--help"@ || x@ == "-h"@ ==> with == Launch::Help
            &&& x@ == "--telemetry"@ ==> with == (if without == Launch::Help {
                Launch::Help
            } else {
                Launch::Open { telemetry: true }
            })
            &&& x@ != "--help"@ && x@ != "-h"@ && x@ != "--telemetry"@ ==> with == without
        }),
        launch(Seq::<String>::empty()) == (Launch::Open { telemetry: false }),
{
    lemma_has_argument(a, x, b, "--help"@);
    lemma_has_argument(a, x, b, "-h"@);
    lemma_has_argument(a, x, b, "--telemetry"@);
    reveal_strlit("--help");
    reveal_strlit("-h");
    reveal_strlit("--telemetry");
    assert("--help"@.len() == 6 && "-h"@.len() == 2 && "--telemetry"@.len() == 11);
}

/// One argument more is found, and hides no other.
proof fn lemma_has_argument(a: Seq<String>, x: String, b: Seq<String>, arg: Seq<char>)
    ensures
        has_argument(a + seq![x] + b, arg) <==> x@ == arg || has_argument(a + b, arg),
{
    let w = a + seq![x] + b;
    let v = a + b;
    let n = a.len() as int;
    if has_argument(w, arg) {
        let i = choose|i: int| 0 <= i < w.len() && (#[trigger] w[i])@ == arg;
        if i < n {
            assert(v[i] == w[i]);
        } else if i > n {
            assert(v[i - 1] == w[i]);
        }
    }
    if x@ == arg {
        assert(w[n] == x);
    }
    if has_argument(v, arg) {
        let i = choose|i: int| 0 <= i < v.len() && (#[trigger] v[i])@ == arg;
        if i < n {
            assert(w[i] == v[i]);
        } else {
            assert(w[i + 1] == v[i]);
        }
    }
}

/// The system and its architecture are shown as found, each on its line.
pub proof fn law_system_is_shown_as_found(r: DiagResult)
    ensures
        system_lines(r).len() == 2,
        system_lines(r)[0].label == "OS"@,
        system_lines(r)[0].value == r.os_detail@,
        system_lines(r)[1].label == "Architecture"@,
        system_lines(r)[1].value == r.arch@,
        system_lines(r)[0].tone == Tone::Plain && system_lines(r)[1].tone == Tone::Plain,
        system_lines(r)[1].monospace && !system_lines(r)[0].monospace,
{
}

} // verus!
