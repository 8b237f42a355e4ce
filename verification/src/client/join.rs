//! Joining: from a link to a world in the multiplayer list.
use crate::client::cli::JoinArgs;
use crate::client::coord;
use crate::client::coord::{JoinRoomRequest, JoinRoomResponse};
use crate::client::crypto;
use crate::client::crypto::Keypair;
use crate::client::host::HostIdentity;
use crate::client::lan;
use crate::client::relay;
use crate::client::telemetry;
use crate::client::telemetry::AppKind;
use crate::client::tunnel;
use crate::encoding;
use crate::server::api;
use crate::server::relay as server_relay;
use crate::server::rooms;
use crate::server::rooms::RoomView;
use crate::text;
use vstd::prelude::*;
use vstd::string::*;

verus! {

// ── Public config ────────────────────────────────────────────────────────────

#[derive(Debug)]
pub struct JoinConfig {
    pub target: String,
    pub local_port: u16,
    pub coord_url: String,
    pub stun_server: String,
    /// Opt-in connection diagnostics. Off by default.
    pub telemetry: bool,
    pub app_kind: AppKind,
}

impl JoinConfig {
    /// The configuration that the command line asks for.
    pub open spec fn of_args(a: JoinArgs, variable: Option<Seq<char>>) -> JoinConfig {
        JoinConfig {
            target: a.target,
            local_port: a.port,
            coord_url: a.coord_url,
            stun_server: a.stun_server,
            telemetry: telemetry::opted_in(a.telemetry, variable),
            app_kind: AppKind::Cli,
        }
    }

    /// The configuration that the command line asks for. `variable` is the value
    /// of `MC_SHARE_TELEMETRY`.
    pub fn from_args(a: JoinArgs, variable: Option<&str>) -> (r: Self)
        ensures
            r == JoinConfig::of_args(a, telemetry::str_view(variable)),
            r == (JoinConfig {
                target: a.target,
                local_port: a.port,
                coord_url: a.coord_url,
                stun_server: a.stun_server,
                telemetry: telemetry::opted_in(a.telemetry, telemetry::str_view(variable)),
                app_kind: AppKind::Cli,
            }),
    {
        let telemetry = telemetry::enabled(a.telemetry, variable);
        Self {
            target: a.target,
            local_port: a.port,
            coord_url: a.coord_url,
            stun_server: a.stun_server,
            telemetry,
            app_kind: AppKind::Cli,
        }
    }
}

// ── Identity ─────────────────────────────────────────────────────────────────

/// What a joiner is known by: an ephemeral key pair, and what is registered of it.
pub struct JoinIdentity {
    pub keypair: Keypair,
    pub pubkey_b64: String,
}

impl JoinIdentity {
    /// What is registered belongs to the key pair.
    pub open spec fn wf(self) -> bool {
        &&& self.pubkey_b64@ == encoding::standard(self.keypair.public_key())
        &&& encoding::standard_decoded(self.pubkey_b64@) == Some(self.keypair.public_key())
    }

    /// The identity of a key pair.
    pub fn of(keypair: Keypair) -> (r: Self)
        ensures
            r.wf(),
            r.keypair == keypair,
    {
        let public = keypair.public_bytes();
        let pubkey_b64 = encoding::standard_encode(public.as_slice());
        JoinIdentity { keypair, pubkey_b64 }
    }

    /// A fresh identity.
    pub fn generate() -> (r: Self)
        ensures
            r.wf(),
    {
        Self::of(Keypair::generate())
    }
}

/// The fingerprint that a host has registered cannot be read.
#[derive(Debug)]
pub enum JoinError {
    Fingerprint(base64::DecodeError),
}

/// The fingerprint that a host has registered.
pub fn read_fingerprint(b64: &str) -> (r: Result<Vec<u8>, JoinError>)
    ensures
        match r {
            Ok(fp) => encoding::standard_decoded(b64@) == Some(fp@),
            Err(_) => encoding::standard_decoded(b64@) is None,
        },
{
    match encoding::standard_decode(b64) {
        Ok(fp) => Ok(fp),
        Err(e) => Err(JoinError::Fingerprint(e)),
    }
}

// ── The session ──────────────────────────────────────────────────────────────

/// How far a session has come.
pub enum JoinStage {
    /// Discovering the external address.
    QueryingStun,
    /// Joining the room.
    Joining,
    /// Punching holes with the host.
    Punching { room: JoinRoomResponse },
    /// Looking for a free local port.
    Binding { room: JoinRoomResponse },
    /// The tunnel is being set up or used.
    Tunnelling,
    Ended,
}

/// What a session's last action has led to.
pub enum JoinEvent {
    /// The external address.
    AddressFound(String),
    Joined(JoinRoomResponse),
    Punched,
    /// A local port is free.
    PortFound(u16),
    /// The user has stopped.
    Cancelled,
    /// The action has failed, with this message.
    Failed(String),
}

/// What the relay takes, where the direct way is closed.
pub struct RelayFallback {
    pub addr: String,
    pub room_id: String,
    pub token: String,
}

/// What tunnelling takes.
pub struct JoinPlan {
    pub local_port: u16,
    /// The external address of the host.
    pub host_addr: String,
    /// The fingerprint of the host's certificate, in Base64.
    pub cert_fingerprint: String,
    pub relay: Option<RelayFallback>,
}

/// What a session does next.
pub enum JoinAction {
    QueryStun { server: String },
    JoinRoom { room_id: String, request: JoinRoomRequest },
    /// Report the registration, and punch holes.
    Punch { addr: String },
    /// Look for a free port, this one first.
    BindLocal { preferred: u16 },
    /// Announce the world on the LAN, say so, and connect to the host.
    Tunnel(JoinPlan),
    /// The session is over.
    Finish(Result<(), String>),
}

/// The event can come at this stage.
pub open spec fn fits(stage: JoinStage, event: JoinEvent) -> bool {
    match event {
        JoinEvent::AddressFound(_) => stage is QueryingStun,
        JoinEvent::Joined(_) => stage is Joining,
        JoinEvent::Punched => stage is Punching,
        JoinEvent::PortFound(_) => stage is Binding,
        JoinEvent::Cancelled => stage is Tunnelling,
        JoinEvent::Failed(_) => !(stage is Ended),
    }
}

/// Tests whether an event can follow in a stage.
pub fn can_follow(stage: &JoinStage, event: &JoinEvent) -> (r: bool)
    ensures
        r == fits(*stage, *event),
{
    match (event, stage) {
        (JoinEvent::AddressFound(_), JoinStage::QueryingStun) => true,
        (JoinEvent::Joined(_), JoinStage::Joining) => true,
        (JoinEvent::Punched, JoinStage::Punching { .. }) => true,
        (JoinEvent::PortFound(_), JoinStage::Binding { .. }) => true,
        (JoinEvent::Cancelled, JoinStage::Tunnelling) => true,
        (JoinEvent::Failed(_), JoinStage::Ended) => false,
        (JoinEvent::Failed(_), _) => true,
        _ => false,
    }
}

/// `plan` is what tunnelling to the host of this room takes.
pub open spec fn plans(plan: JoinPlan, config: JoinConfig, room: JoinRoomResponse, port: u16) -> bool {
    &&& plan.local_port == port
    &&& plan.host_addr == room.host_stun
    &&& plan.cert_fingerprint == room.cert_fingerprint
    &&& match plan.relay {
        Some(f) => {
            &&& text::contains_text(room.relay_addr@, ":"@)
            &&& f.addr == room.relay_addr
            &&& f.room_id@ == coord::room_of(config.target@)
            &&& f.token == room.relay_token
        },
        None => !text::contains_text(room.relay_addr@, ":"@),
    }
}

/// How a session goes on.
pub open spec fn follows(
    stage: JoinStage,
    event: JoinEvent,
    config: JoinConfig,
    identity: JoinIdentity,
    next: JoinStage,
    action: JoinAction,
) -> bool {
    match event {
        JoinEvent::AddressFound(addr) => {
            &&& next is Joining
            &&& action matches JoinAction::JoinRoom { room_id, request }
            &&& room_id@ == coord::room_of(config.target@)
            &&& request == (JoinRoomRequest { join_pubkey: identity.pubkey_b64, join_stun: addr })
        },
        JoinEvent::Joined(room) => {
            &&& next == (JoinStage::Punching { room })
            &&& action == (JoinAction::Punch { addr: room.host_stun })
        },
        JoinEvent::Punched => {
            &&& next == (JoinStage::Binding { room: stage->Punching_room })
            &&& action == (JoinAction::BindLocal { preferred: config.local_port })
        },
        JoinEvent::PortFound(port) => {
            &&& next is Tunnelling
            &&& action matches JoinAction::Tunnel(plan)
            &&& plans(plan, config, stage->Binding_room, port)
        },
        JoinEvent::Cancelled => next is Ended && action == JoinAction::Finish(Ok(())),
        JoinEvent::Failed(msg) => next is Ended && action == JoinAction::Finish(Err(msg)),
    }
}

/// How a session begins.
pub open spec fn first_step(config: JoinConfig) -> (JoinStage, JoinAction) {
    (JoinStage::QueryingStun, JoinAction::QueryStun { server: config.stun_server })
}

/// Begins a session.
pub fn begin(config: &JoinConfig) -> (r: (JoinStage, JoinAction))
    ensures
        r == first_step(*config),
        r == (JoinStage::QueryingStun, JoinAction::QueryStun { server: config.stun_server }),
{
    (JoinStage::QueryingStun, JoinAction::QueryStun { server: config.stun_server.clone() })
}

/// Goes on with a session.
pub fn advance(
    stage: JoinStage,
    event: JoinEvent,
    config: &JoinConfig,
    identity: &JoinIdentity,
) -> (r: (JoinStage, JoinAction))
    requires
        fits(stage, event),
    ensures
        follows(stage, event, *config, *identity, r.0, r.1),
{
    match event {
        JoinEvent::AddressFound(addr) => {
            let room_id = coord::parse_room_id(config.target.as_str());
            let request = JoinRoomRequest {
                join_pubkey: identity.pubkey_b64.clone(),
                join_stun: addr,
            };
            (JoinStage::Joining, JoinAction::JoinRoom { room_id, request })
        },
        JoinEvent::Joined(room) => {
            let addr = room.host_stun.clone();
            (JoinStage::Punching { room }, JoinAction::Punch { addr })
        },
        JoinEvent::Punched => match stage {
            JoinStage::Punching { room } => (
                JoinStage::Binding { room },
                JoinAction::BindLocal { preferred: config.local_port },
            ),
            _ => (JoinStage::Ended, JoinAction::Finish(Ok(()))),
        },
        JoinEvent::PortFound(port) => match stage {
            JoinStage::Binding { room } => {
                let relay = match relay::parse_relay_addr(room.relay_addr.as_str()) {
                    Ok(_) => Some(
                        RelayFallback {
                            addr: room.relay_addr,
                            room_id: coord::parse_room_id(config.target.as_str()),
                            token: room.relay_token,
                        },
                    ),
                    Err(_) => None,
                };
                let plan = JoinPlan {
                    local_port: port,
                    host_addr: room.host_stun,
                    cert_fingerprint: room.cert_fingerprint,
                    relay,
                };
                (JoinStage::Tunnelling, JoinAction::Tunnel(plan))
            },
            _ => (JoinStage::Ended, JoinAction::Finish(Ok(()))),
        },
        JoinEvent::Cancelled => (JoinStage::Ended, JoinAction::Finish(Ok(()))),
        JoinEvent::Failed(msg) => (JoinStage::Ended, JoinAction::Finish(Err(msg))),
    }
}

/// The port to ask the system for, where 0 stands for any.
pub open spec fn asked_port(preferred: u16, taken: bool) -> u16 {
    if preferred != 0 && !taken {
        preferred
    } else {
        0
    }
}

/// The port to ask the system for: the preferred one, or any (0) where none is
/// preferred or the preferred one is taken.
pub fn resolve_local_port(preferred: u16, taken: bool) -> (r: u16)
    ensures
        r == asked_port(preferred, taken),
        r == (if preferred != 0 && !taken {
            preferred
        } else {
            0
        }),
{
    if preferred != 0 && !taken {
        preferred
    } else {
        0
    }
}

/// The way that Minecraft's traffic takes.
#[derive(Clone, Copy, Debug, PartialEq, Eq, Structural)]
pub enum Transport {
    Quic,
    Relay,
}

/// The way that Minecraft's traffic takes.
pub open spec fn transport(quic_connected: bool, has_relay: bool) -> Option<Transport> {
    if quic_connected {
        Some(Transport::Quic)
    } else if has_relay {
        Some(Transport::Relay)
    } else {
        None
    }
}

/// The way that Minecraft's traffic takes: the direct one where the host has been
/// reached, otherwise the relay where there is one.
pub fn choose_transport(quic_connected: bool, has_relay: bool) -> (r: Option<Transport>)
    ensures
        r == transport(quic_connected, has_relay),
        r == (if quic_connected {
            Some(Transport::Quic)
        } else if has_relay {
            Some(Transport::Relay)
        } else {
            None
        }),
{
    if quic_connected {
        Some(Transport::Quic)
    } else if has_relay {
        Some(Transport::Relay)
    } else {
        None
    }
}

// ── UI helpers ───────────────────────────────────────────────────────────────

/// What is shown once the tunnel is ready. The port is named where it is not the
/// one that Minecraft takes by itself.
pub open spec fn connected_text(port: u16) -> Seq<char> {
    "\n  ┌──────────────────────────────────────────────────────────┐\n"@
        + "  │  Connected!                                               │\n"@
        + "  │                                                            │\n"@
        + "  │  Open Minecraft → Multiplayer.                            │\n"@
        + "  │  The world should appear automatically in the list.       │\n"@ + (if port
        != lan::DEFAULT_MC_PORT {
        "  │                                                            │\n"@
            + "  │  Or connect directly to:  127.0.0.1:"@ + text::decimal(port as nat)
            + "                │\n"@
    } else {
        seq![]
    }) + "  └──────────────────────────────────────────────────────────┘\n\n"@
}

/// What is shown once the tunnel is ready.
pub fn connected_banner(port: u16) -> (r: String)
    ensures
        r@ == connected_text(port),
{
    let mut out = String::from_str(
        "\n  ┌──────────────────────────────────────────────────────────┐\n",
    );
    out.append("  │  Connected!                                               │\n");
    out.append("  │                                                            │\n");
    out.append("  │  Open Minecraft → Multiplayer.                            │\n");
    out.append("  │  The world should appear automatically in the list.       │\n");
    let ghost head = out@;
    if port != lan::DEFAULT_MC_PORT {
        out.append("  │                                                            │\n");
        out.append("  │  Or connect directly to:  127.0.0.1:");
        text::push_number(&mut out, port as u64);
        out.append("                │\n");
    }
    out.append("  └──────────────────────────────────────────────────────────┘\n\n");
    assert(out@ =~= connected_text(port));
    out
}

// ── Laws ─────────────────────────────────────────────────────────────────────

/// How far a stage is.
pub open spec fn progress(stage: JoinStage) -> nat {
    match stage {
        JoinStage::QueryingStun => 0,
        JoinStage::Joining => 1,
        JoinStage::Punching { .. } => 2,
        JoinStage::Binding { .. } => 3,
        JoinStage::Tunnelling => 4,
        JoinStage::Ended => 5,
    }
}

/// A session never goes back: every event takes it further.
pub proof fn law_sessions_move_on(
    stage: JoinStage,
    event: JoinEvent,
    config: JoinConfig,
    identity: JoinIdentity,
    next: JoinStage,
    action: JoinAction,
)
    requires
        fits(stage, event),
        follows(stage, event, config, identity, next, action),
    ensures
        progress(next) > progress(stage),
{
}

/// The joiner accepts the certificate of the host that registered, and refuses every
/// certificate with another fingerprint.
pub proof fn law_only_the_registered_host_is_accepted(
    host: HostIdentity,
    fingerprint: Seq<u8>,
    cert_der: Seq<u8>,
)
    requires
        host.wf(),
        encoding::standard_decoded(host.fingerprint_b64@) == Some(fingerprint),
    ensures
        tunnel::is_pinned(host.cert.cert_der@, fingerprint),
        crypto::sha256(cert_der) != crypto::sha256(host.cert.cert_der@) ==> !tunnel::is_pinned(
            cert_der,
            fingerprint,
        ),
{
}

/// A session does what it is for, from its start to the tunnel: it asks the configured
/// STUN server, joins the room that its target names under its own key and with the
/// address that it was told, punches holes with the room's host, asks for the
/// configured port, and tunnels from the port that it got to the host, whose
/// certificate it knows by the fingerprint that the room tells.
pub proof fn law_sessions_lead_to_the_tunnel(
    config: JoinConfig,
    identity: JoinIdentity,
    addr: String,
    room: JoinRoomResponse,
    port: u16,
    s1: (JoinStage, JoinAction),
    s2: (JoinStage, JoinAction),
    s3: (JoinStage, JoinAction),
    s4: (JoinStage, JoinAction),
)
    requires
        follows(
            first_step(config).0,
            JoinEvent::AddressFound(addr),
            config,
            identity,
            s1.0,
            s1.1,
        ),
        follows(s1.0, JoinEvent::Joined(room), config, identity, s2.0, s2.1),
        follows(s2.0, JoinEvent::Punched, config, identity, s3.0, s3.1),
        follows(s3.0, JoinEvent::PortFound(port), config, identity, s4.0, s4.1),
    ensures
        fits(first_step(config).0, JoinEvent::AddressFound(addr)),
        fits(s1.0, JoinEvent::Joined(room)),
        fits(s2.0, JoinEvent::Punched),
        fits(s3.0, JoinEvent::PortFound(port)),
        fits(s4.0, JoinEvent::Cancelled),
        first_step(config).1 matches JoinAction::QueryStun { server } && server
            == config.stun_server,
        s1.1 matches JoinAction::JoinRoom { room_id, request } && room_id@ == coord::room_of(
            config.target@,
        ) && request.join_stun == addr && request.join_pubkey == identity.pubkey_b64,
        s2.1 matches JoinAction::Punch { addr: target } && target == room.host_stun,
        s3.1 matches JoinAction::BindLocal { preferred } && preferred == config.local_port,
        s4.1 matches JoinAction::Tunnel(plan) && {
            &&& plan.local_port == port
            &&& plan.host_addr == room.host_stun
            &&& plan.cert_fingerprint == room.cert_fingerprint
            &&& plan.relay is Some <==> text::contains_text(room.relay_addr@, ":"@)
            &&& plan.relay matches Some(f) ==> f.addr == room.relay_addr && f.token
                == room.relay_token && f.room_id@ == coord::room_of(config.target@)
        },
{
}

/// The configured port is had where it is free: the session asks for it first, and
/// where the system gives what is asked for, the tunnel's plan carries it, and so does
/// the announcement of the world, whatever the world is called.
pub proof fn law_configured_port_is_had(
    config: JoinConfig,
    identity: JoinIdentity,
    room: JoinRoomResponse,
    given: u16,
    bound: (JoinStage, JoinAction),
    planned: (JoinStage, JoinAction),
    motd: Seq<char>,
)
    requires
        config.local_port != 0,
        follows(
            JoinStage::Punching { room },
            JoinEvent::Punched,
            config,
            identity,
            bound.0,
            bound.1,
        ),
        given == asked_port(bound.1->BindLocal_preferred, false),
        follows(bound.0, JoinEvent::PortFound(given), config, identity, planned.0, planned.1),
        lan::plain_motd(motd),
    ensures
        planned.1 matches JoinAction::Tunnel(plan) && plan.local_port == config.local_port
            && lan::announced_port(lan::announcement(motd, plan.local_port)) == Some(
            config.local_port as int,
        ),
{
    lan::law_announcement_is_detected(motd, config.local_port);
}

/// The preferred port is asked for wherever there is one and it is free, and any port
/// otherwise.
pub proof fn law_preferred_port_is_asked_for(preferred: u16)
    ensures
        asked_port(preferred, false) == preferred,
        asked_port(preferred, true) == 0,
{
}

/// The command line is obeyed: the STUN server that it names is asked, the room that
/// its target names is joined, and the port that it names is asked for.
pub proof fn law_command_line_is_obeyed(
    a: JoinArgs,
    variable: Option<Seq<char>>,
    identity: JoinIdentity,
    addr: String,
    room: JoinRoomResponse,
    joining: (JoinStage, JoinAction),
    binding: (JoinStage, JoinAction),
)
    requires
        follows(
            JoinStage::QueryingStun,
            JoinEvent::AddressFound(addr),
            JoinConfig::of_args(a, variable),
            identity,
            joining.0,
            joining.1,
        ),
        follows(
            JoinStage::Punching { room },
            JoinEvent::Punched,
            JoinConfig::of_args(a, variable),
            identity,
            binding.0,
            binding.1,
        ),
    ensures
        ({
            let config = JoinConfig::of_args(a, variable);
            &&& first_step(config).1 matches JoinAction::QueryStun { server } && server
                == a.stun_server
            &&& joining.1 matches JoinAction::JoinRoom { room_id, .. } && room_id@
                == coord::room_of(a.target@)
            &&& binding.1 matches JoinAction::BindLocal { preferred } && preferred == a.port
            &&& config.coord_url == a.coord_url
            &&& config.app_kind == AppKind::Cli
            &&& a.telemetry ==> config.telemetry
            &&& !a.telemetry && variable is None ==> !config.telemetry
        }),
{
}

/// The link of a room leads into that room: whoever is given the share URL joins the
/// room that it was made for, whatever the server's URL.
pub proof fn law_link_is_followed(
    config: JoinConfig,
    identity: JoinIdentity,
    addr: String,
    base_url: Seq<char>,
    id: Seq<char>,
    next: (JoinStage, JoinAction),
)
    requires
        rooms::is_room_id(id),
        config.target@ == api::share_url(base_url, id),
        follows(
            JoinStage::QueryingStun,
            JoinEvent::AddressFound(addr),
            config,
            identity,
            next.0,
            next.1,
        ),
    ensures
        next.1 matches JoinAction::JoinRoom { room_id, .. } && room_id@ == id,
{
    api::law_share_url_leads_to_its_room(base_url, id);
}

/// The relay lets the joiner in with what its plan holds, wherever the room that its
/// target names is open with the relay's token that the joiner was told.
pub proof fn law_relay_lets_the_joiner_in(
    rooms: Map<Seq<char>, RoomView>,
    config: JoinConfig,
    identity: JoinIdentity,
    room: JoinRoomResponse,
    port: u16,
    next: (JoinStage, JoinAction),
)
    requires
        rooms::is_room_id(coord::room_of(config.target@)),
        rooms::is_token(room.relay_token@),
        rooms.contains_key(coord::room_of(config.target@)),
        rooms[coord::room_of(config.target@)].relay_token == room.relay_token@,
        follows(
            JoinStage::Binding { room },
            JoinEvent::PortFound(port),
            config,
            identity,
            next.0,
            next.1,
        ),
    ensures
        next.1 matches JoinAction::Tunnel(plan) && (plan.relay matches Some(f) ==>
            server_relay::authorized(
            relay::request(f.room_id@, server_relay::Role::Join, f.token@),
            rooms,
        ) == Ok::<(Seq<char>, server_relay::Role), server_relay::RelayError>(
            (coord::room_of(config.target@), server_relay::Role::Join),
        )),
{
    relay::law_token_holders_are_let_in(
        rooms,
        coord::room_of(config.target@),
        server_relay::Role::Join,
    );
}

/// A session that fails is over with its failure's message; one that is stopped in the
/// tunnel is over without a failure.
pub proof fn law_sessions_end_as_they_should(
    stage: JoinStage,
    msg: String,
    config: JoinConfig,
    identity: JoinIdentity,
    failed: (JoinStage, JoinAction),
    stopped: (JoinStage, JoinAction),
)
    requires
        follows(stage, JoinEvent::Failed(msg), config, identity, failed.0, failed.1),
        follows(
            JoinStage::Tunnelling,
            JoinEvent::Cancelled,
            config,
            identity,
            stopped.0,
            stopped.1,
        ),
    ensures
        failed.0 is Ended,
        failed.1 matches JoinAction::Finish(r) && r == Err::<(), String>(msg),
        stopped.0 is Ended,
        stopped.1 matches JoinAction::Finish(r) && r is Ok,
{
}

/// Traffic goes the direct way wherever the host was reached, over the relay only where
/// it was not, and nowhere only where there is no relay either.
pub proof fn law_direct_way_comes_first(quic_connected: bool, has_relay: bool)
    ensures
        transport(quic_connected, has_relay) == Some(Transport::Quic) <==> quic_connected,
        transport(quic_connected, has_relay) == Some(Transport::Relay) <==> !quic_connected
            && has_relay,
        transport(quic_connected, has_relay) is None <==> !quic_connected && !has_relay,
{
}

/// The banner names the port just where Minecraft would not try it by itself.
pub proof fn law_banner_names_the_port(port: u16)
    ensures
        port != 25565 ==> text::contains_text(
            connected_text(port),
            "127.0.0.1:"@ + text::decimal(port as nat),
        ),
{
    if port != 25565 {
        reveal_strlit("  │  Or connect directly to:  127.0.0.1:");
        reveal_strlit("127.0.0.1:");
        let a = "\n  ┌──────────────────────────────────────────────────────────┐\n"@
            + "  │  Connected!                                               │\n"@
            + "  │                                                            │\n"@
            + "  │  Open Minecraft → Multiplayer.                            │\n"@
            + "  │  The world should appear automatically in the list.       │\n"@
            + "  │                                                            │\n"@;
        let b = "  │  Or connect directly to:  127.0.0.1:"@;
        let p = "127.0.0.1:"@ + text::decimal(port as nat);
        let k = a.len() + b.len() - 10;
        assert(connected_text(port).subrange(k, k + p.len()) =~= p);
        assert(text::occurs_at(connected_text(port), p, k));
    }
}

/// What a joiner registers is the public half of its pair, in Base64.
pub proof fn law_identities_lead_to_what_is_held(id: JoinIdentity)
    requires
        id.wf(),
    ensures
        encoding::standard_decoded(id.pubkey_b64@) matches Some(key) && {
            &&& key == id.keypair.public_key()
            &&& id.pubkey_b64@ == encoding::standard(key)
        },
{
}

} // verus!
