//! Hosting: from a running world to a link that friends can use.
use crate::client::cli::HostArgs;
use crate::client::coord;
use crate::client::coord::{CreateRoomRequest, CreateRoomResponse, IndexedPeer, PollReply};
use crate::client::crypto;
use crate::client::crypto::{CertifiedKey, CryptoError, Keypair};
use crate::client::lan;
use crate::client::relay;
use crate::client::telemetry;
use crate::client::telemetry::AppKind;
use crate::client::tunnel;
use crate::encoding;
use crate::server::api;
use crate::server::api::Refusal;
use crate::server::relay as server_relay;
use crate::server::rooms;
use crate::server::rooms::{PeerView, RoomView};
use crate::text;
use vstd::prelude::*;
use vstd::string::*;

verus! {

/// How long a LAN world is listened for, in seconds.
pub const DETECT_TIMEOUT_S: u64 = 3;

/// How long the first joiner is waited for, in seconds.
pub const FIRST_JOINER_TIMEOUT_S: u64 = 900;

// ── Public config (used by GUI as well as CLI) ───────────────────────────────

#[derive(Debug)]
pub struct HostConfig {
    pub mc_port: u16,
    pub coord_url: String,
    pub stun_server: String,
    /// Opt-in connection diagnostics. Off by default.
    pub telemetry: bool,
    /// `cli` for the bare binary, `gui` from the GUI front-end.
    pub app_kind: AppKind,
}

impl HostConfig {
    /// The configuration that the command line asks for.
    pub open spec fn of_args(a: HostArgs, variable: Option<Seq<char>>) -> HostConfig {
        HostConfig {
            mc_port: a.port,
            coord_url: a.coord_url,
            stun_server: a.stun_server,
            telemetry: telemetry::opted_in(a.telemetry, variable),
            app_kind: AppKind::Cli,
        }
    }

    /// The configuration that the command line asks for. `variable` is the value
    /// of `MC_SHARE_TELEMETRY`.
    pub fn from_args(a: HostArgs, variable: Option<&str>) -> (r: Self)
        ensures
            r == HostConfig::of_args(a, telemetry::str_view(variable)),
            r == (HostConfig {
                mc_port: a.port,
                coord_url: a.coord_url,
                stun_server: a.stun_server,
                telemetry: telemetry::opted_in(a.telemetry, telemetry::str_view(variable)),
                app_kind: AppKind::Cli,
            }),
    {
        let telemetry = telemetry::enabled(a.telemetry, variable);
        Self {
            mc_port: a.port,
            coord_url: a.coord_url,
            stun_server: a.stun_server,
            telemetry,
            app_kind: AppKind::Cli,
        }
    }
}

// ── Identity ─────────────────────────────────────────────────────────────────

/// What a host is known by: an ephemeral key pair and a TLS certificate, and what
/// is registered of them.
pub struct HostIdentity {
    pub keypair: Keypair,
    pub cert: CertifiedKey,
    pub pubkey_b64: String,
    pub fingerprint_b64: String,
}

impl HostIdentity {
    /// What is registered belongs to the key pair and the certificate, and the
    /// fingerprint can be read back.
    pub open spec fn wf(self) -> bool {
        &&& self.pubkey_b64@ == encoding::standard(self.keypair.public_key())
        &&& encoding::standard_decoded(self.pubkey_b64@) == Some(self.keypair.public_key())
        &&& self.fingerprint_b64@ == encoding::standard(crypto::sha256(self.cert.cert_der@))
        &&& encoding::standard_decoded(self.fingerprint_b64@) == Some(
            crypto::sha256(self.cert.cert_der@),
        )
    }

    /// The identity of a key pair and a certificate.
    pub fn of(keypair: Keypair, cert: CertifiedKey) -> (r: Self)
        ensures
            r.wf(),
            r.keypair == keypair,
            r.cert == cert,
    {
        let public = keypair.public_bytes();
        let pubkey_b64 = encoding::standard_encode(public.as_slice());
        let fp = crypto::cert_fingerprint(cert.cert_der.as_slice());
        let fingerprint_b64 = encoding::standard_encode(fp.as_slice());
        HostIdentity { keypair, cert, pubkey_b64, fingerprint_b64 }
    }

    /// A fresh identity.
    pub fn generate() -> (r: Result<Self, CryptoError>)
        ensures
            match r {
                Ok(id) => id.wf() && crypto::is_self_signed_for(
                    id.cert.cert_der@,
                    id.cert.key_der@,
                    crypto::CERT_NAME@,
                ),
                Err(e) => e is Certificate,
            },
    {
        let keypair = Keypair::generate();
        match crypto::generate_self_signed_cert() {
            Ok(cert) => Ok(Self::of(keypair, cert)),
            Err(e) => Err(e),
        }
    }
}

// ── The session ──────────────────────────────────────────────────────────────

/// How far a session has come.
pub enum HostStage {
    /// Looking for a running LAN world.
    DetectingPort,
    /// Discovering the external address.
    QueryingStun { mc_port: u16 },
    /// Registering the room.
    Registering { mc_port: u16 },
    /// Waiting for the first joiner.
    Waiting { mc_port: u16, room: CreateRoomResponse },
    /// Punching holes with the first joiner.
    Punching { mc_port: u16, room: CreateRoomResponse, peer: IndexedPeer },
    /// Serving joiners.
    Serving,
    Ended,
}

/// What a session's last action has led to.
pub enum HostEvent {
    /// The port of the LAN world, if one was heard.
    PortDetected(Option<u16>),
    /// The external address.
    AddressFound(String),
    RoomCreated(CreateRoomResponse),
    PeerFound(IndexedPeer),
    Punched,
    /// The user has stopped the host.
    Cancelled,
    /// The action has failed, with this message.
    Failed(String),
}

/// What serving joiners takes.
pub struct ServePlan {
    /// Where Minecraft listens, on this machine.
    pub mc_port: u16,
    /// The external address of the first joiner.
    pub first_addr: String,
    pub room_id: String,
    pub host_token: String,
    /// The relay's address, where it is usable, and the token for it.
    pub relay: Option<(String, String)>,
    /// The first index that further joiners can have.
    pub poll_from: usize,
}

/// What a session does next.
pub enum HostAction {
    DetectLanWorld,
    QueryStun { server: String },
    CreateRoom(CreateRoomRequest),
    /// Report the registration, show the link, and wait for a joiner.
    ShareAndWait { room_id: String, host_token: String, share_url: String },
    Punch { addr: String },
    /// Serve joiners over QUIC and, where there is one, over the relay.
    Serve(ServePlan),
    /// The session is over.
    Finish(Result<(), String>),
}

/// The event can come at this stage.
pub open spec fn fits(stage: HostStage, event: HostEvent) -> bool {
    match event {
        HostEvent::PortDetected(_) => stage is DetectingPort,
        HostEvent::AddressFound(_) => stage is QueryingStun,
        HostEvent::RoomCreated(_) => stage is Registering,
        HostEvent::PeerFound(p) => stage is Waiting && p.idx < usize::MAX,
        HostEvent::Punched => stage matches HostStage::Punching { peer, .. } && peer.idx < usize::MAX,
        HostEvent::Cancelled => stage is Serving,
        HostEvent::Failed(_) => !(stage is Ended),
    }
}

/// Tests whether an event can follow in a stage.
pub fn can_follow(stage: &HostStage, event: &HostEvent) -> (r: bool)
    ensures
        r == fits(*stage, *event),
{
    match (event, stage) {
        (HostEvent::PortDetected(_), HostStage::DetectingPort) => true,
        (HostEvent::AddressFound(_), HostStage::QueryingStun { .. }) => true,
        (HostEvent::RoomCreated(_), HostStage::Registering { .. }) => true,
        (HostEvent::PeerFound(p), HostStage::Waiting { .. }) => p.idx < usize::MAX,
        (HostEvent::Punched, HostStage::Punching { peer, .. }) => peer.idx < usize::MAX,
        (HostEvent::Cancelled, HostStage::Serving) => true,
        (HostEvent::Failed(_), HostStage::Ended) => false,
        (HostEvent::Failed(_), _) => true,
        _ => false,
    }
}

/// How a session begins.
pub open spec fn first_step(config: HostConfig) -> (HostStage, HostAction) {
    if config.mc_port != 0 {
        (
            HostStage::QueryingStun { mc_port: config.mc_port },
            HostAction::QueryStun { server: config.stun_server },
        )
    } else {
        (HostStage::DetectingPort, HostAction::DetectLanWorld)
    }
}

/// The plan of a session that has punched holes with its first joiner.
pub open spec fn serve_plan(mc_port: u16, room: CreateRoomResponse, peer: IndexedPeer) -> ServePlan {
    ServePlan {
        mc_port,
        first_addr: peer.join_stun,
        room_id: room.room_id,
        host_token: room.host_token,
        relay: if text::contains_text(room.relay_addr@, ":"@) {
            Some((room.relay_addr, room.relay_token))
        } else {
            None
        },
        poll_from: (peer.idx + 1) as usize,
    }
}

/// How a session goes on.
pub open spec fn next_step(
    stage: HostStage,
    event: HostEvent,
    config: HostConfig,
    identity: HostIdentity,
) -> (HostStage, HostAction) {
    match (event, stage) {
        (HostEvent::PortDetected(found), _) => (
            HostStage::QueryingStun { mc_port: lan::hosted_port(0, found) },
            HostAction::QueryStun { server: config.stun_server },
        ),
        (HostEvent::AddressFound(addr), HostStage::QueryingStun { mc_port }) => (
            HostStage::Registering { mc_port },
            HostAction::CreateRoom(
                CreateRoomRequest {
                    host_pubkey: identity.pubkey_b64,
                    host_stun: addr,
                    cert_fingerprint: identity.fingerprint_b64,
                },
            ),
        ),
        (HostEvent::RoomCreated(room), HostStage::Registering { mc_port }) => (
            HostStage::Waiting { mc_port, room },
            HostAction::ShareAndWait {
                room_id: room.room_id,
                host_token: room.host_token,
                share_url: room.share_url,
            },
        ),
        (HostEvent::PeerFound(peer), HostStage::Waiting { mc_port, room }) => (
            HostStage::Punching { mc_port, room, peer },
            HostAction::Punch { addr: peer.join_stun },
        ),
        (HostEvent::Punched, HostStage::Punching { mc_port, room, peer }) => (
            HostStage::Serving,
            HostAction::Serve(serve_plan(mc_port, room, peer)),
        ),
        (HostEvent::Failed(msg), _) => (HostStage::Ended, HostAction::Finish(Err(msg))),
        _ => (HostStage::Ended, HostAction::Finish(Ok(()))),
    }
}

/// Begins a session.
pub fn begin(config: &HostConfig) -> (r: (HostStage, HostAction))
    ensures
        r == first_step(*config),
{
    if config.mc_port != 0 {
        (
            HostStage::QueryingStun { mc_port: config.mc_port },
            HostAction::QueryStun { server: config.stun_server.clone() },
        )
    } else {
        (HostStage::DetectingPort, HostAction::DetectLanWorld)
    }
}

/// Goes on with a session.
pub fn advance(
    stage: HostStage,
    event: HostEvent,
    config: &HostConfig,
    identity: &HostIdentity,
) -> (r: (HostStage, HostAction))
    requires
        fits(stage, event),
    ensures
        r == next_step(stage, event, *config, *identity),
{
    match event {
        HostEvent::PortDetected(found) => (
            HostStage::QueryingStun { mc_port: lan::choose_port(0, found) },
            HostAction::QueryStun { server: config.stun_server.clone() },
        ),
        HostEvent::AddressFound(addr) => match stage {
            HostStage::QueryingStun { mc_port } => {
                let req = CreateRoomRequest {
                    host_pubkey: identity.pubkey_b64.clone(),
                    host_stun: addr,
                    cert_fingerprint: identity.fingerprint_b64.clone(),
                };
                (HostStage::Registering { mc_port }, HostAction::CreateRoom(req))
            },
            _ => (HostStage::Ended, HostAction::Finish(Ok(()))),
        },
        HostEvent::RoomCreated(room) => match stage {
            HostStage::Registering { mc_port } => {
                let action = HostAction::ShareAndWait {
                    room_id: room.room_id.clone(),
                    host_token: room.host_token.clone(),
                    share_url: room.share_url.clone(),
                };
                (HostStage::Waiting { mc_port, room }, action)
            },
            _ => (HostStage::Ended, HostAction::Finish(Ok(()))),
        },
        HostEvent::PeerFound(peer) => match stage {
            HostStage::Waiting { mc_port, room } => {
                let addr = peer.join_stun.clone();
                (HostStage::Punching { mc_port, room, peer }, HostAction::Punch { addr })
            },
            _ => (HostStage::Ended, HostAction::Finish(Ok(()))),
        },
        HostEvent::Punched => match stage {
            HostStage::Punching { mc_port, room, peer } => {
                let relay = match relay::parse_relay_addr(room.relay_addr.as_str()) {
                    Ok(_) => Some((room.relay_addr, room.relay_token)),
                    Err(_) => None,
                };
                let plan = ServePlan {
                    mc_port,
                    first_addr: peer.join_stun,
                    room_id: room.room_id,
                    host_token: room.host_token,
                    relay,
                    poll_from: peer.idx + 1,
                };
                (HostStage::Serving, HostAction::Serve(plan))
            },
            _ => (HostStage::Ended, HostAction::Finish(Ok(()))),
        },
        HostEvent::Cancelled => (HostStage::Ended, HostAction::Finish(Ok(()))),
        HostEvent::Failed(msg) => (HostStage::Ended, HostAction::Finish(Err(msg))),
    }
}

// ── Polling for further joiners ──────────────────────────────────────────────

/// The time between two polls, in seconds.
pub const POLL_PERIOD_S: u64 = 3;

/// How long is polled, in nanoseconds: a little less than a room lives.
pub const POLL_TIME_NS: u64 = 870_000_000_000;

/// What the poller does next.
#[derive(Clone, Copy, Debug, PartialEq, Eq, Structural)]
pub enum PollerStep {
    /// Stop polling. The relay pool is not told.
    Return,
    /// Stop polling, and let the relay pool park no more connections.
    StopParks,
    /// Ask for joiners from this index on.
    Poll(usize),
}

/// Looks for further joiners, in the background.
#[derive(Clone, Copy, Debug, PartialEq, Eq, Structural)]
pub struct Poller {
    pub next_idx: usize,
}

/// The first index that has not been seen, after the listed joiners: each with its
/// index, and with its address where that could be read.
pub open spec fn next_after<T>(next: int, peers: Seq<(usize, Option<T>)>) -> int
    decreases peers.len(),
{
    if peers.len() == 0 {
        next
    } else if peers.last().1 is Some {
        peers.last().0 + 1
    } else {
        next_after(next, peers.drop_last())
    }
}

/// The listed joiners whose address could be read, in order.
pub open spec fn readable<T>(peers: Seq<(usize, Option<T>)>) -> Seq<(usize, T)>
    decreases peers.len(),
{
    if peers.len() == 0 {
        Seq::empty()
    } else {
        let before = readable(peers.drop_last());
        match peers.last().1 {
            Some(a) => before.push((peers.last().0, a)),
            None => before,
        }
    }
}

/// What a poller does that has been at it for `elapsed` nanoseconds.
pub open spec fn poller_step(next_idx: usize, cancelled: bool, elapsed: u64) -> PollerStep {
    if cancelled {
        PollerStep::Return
    } else if elapsed >= POLL_TIME_NS {
        PollerStep::StopParks
    } else {
        PollerStep::Poll(next_idx)
    }
}

/// A reply ends the polling.
pub open spec fn ends_polling(reply: PollReply) -> bool {
    reply == PollReply::Expired
}

impl Poller {
    /// Decides at a tick of the clock; `elapsed` is the time since polling began.
    pub fn tick(&self, cancelled: bool, elapsed: u64) -> (r: PollerStep)
        ensures
            r == poller_step(self.next_idx, cancelled, elapsed),
            r == (if cancelled {
                PollerStep::Return
            } else if elapsed >= POLL_TIME_NS {
                PollerStep::StopParks
            } else {
                PollerStep::Poll(self.next_idx)
            }),
    {
        if cancelled {
            PollerStep::Return
        } else if elapsed >= POLL_TIME_NS {
            PollerStep::StopParks
        } else {
            PollerStep::Poll(self.next_idx)
        }
    }

    /// Tells whether a reply ends the polling: the room has expired, so no more
    /// joiners can come. A failed poll is tried again.
    pub fn is_over(reply: PollReply) -> (r: bool)
        ensures
            r == (reply == PollReply::Expired),
            r == ends_polling(reply),
    {
        reply == PollReply::Expired
    }

    /// Takes in the listed joiners: each with its index, and with its address where
    /// that could be read. Gives back those that are to be poked: the ones with an
    /// address, in order.
    pub fn listed<T>(&mut self, peers: Vec<(usize, Option<T>)>) -> (r: Vec<(usize, T)>)
        requires
            forall|i: int|
                0 <= i < peers@.len() && (#[trigger] peers@[i]).1 is Some ==> peers@[i].0
                    < usize::MAX,
        ensures
            final(self).next_idx == next_after(old(self).next_idx as int, peers@),
            r@ == readable(peers@),
    {
        let ghost start = self.next_idx as int;
        let ghost all = peers@;
        let mut rest = peers;
        let mut handed_on: Vec<(usize, T)> = Vec::new();
        let ghost mut i: int = 0;
        assert(all.take(0) =~= seq![]);
        assert(all.skip(0) =~= all);
        while rest.len() > 0
            invariant
                0 <= i <= all.len(),
                rest@ == all.skip(i),
                self.next_idx == next_after(start, all.take(i)),
                handed_on@ == readable(all.take(i)),
                forall|i: int|
                    0 <= i < all.len() && (#[trigger] all[i]).1 is Some ==> all[i].0 < usize::MAX,
            decreases rest@.len(),
        {
            let (idx, addr) = rest.remove(0);
            proof {
                let head = all.take(i + 1);
                assert(head.drop_last() =~= all.take(i));
                assert(head.last() == all[i]);
                assert(all[i] == (idx, addr));
                assert(rest@ =~= all.skip(i + 1));
                i = i + 1;
            }
            if let Some(a) = addr {
                self.next_idx = idx + 1;
                handed_on.push((idx, a));
            }
        }
        assert(all.take(i) =~= all);
        handed_on
    }
}

// ── UI helpers ───────────────────────────────────────────────────────────────

/// What is shown once the link is ready.
pub open spec fn share_text(url: Seq<char>) -> Seq<char> {
    "\n  ┌────────────────────────────────────────────────┐\n"@
        + "  │  World shared! Send this link to your friend:  │\n"@
        + "  │                                                  │\n"@ + "  │  "@ + url + "  │\n"@
        + "  └────────────────────────────────────────────────┘\n\n"@
}

/// What is shown once the link is ready.
pub fn share_banner(url: &str) -> (r: String)
    ensures
        r@ == share_text(url@),
{
    let mut out = String::from_str("\n  ┌────────────────────────────────────────────────┐\n");
    out.append("  │  World shared! Send this link to your friend:  │\n");
    out.append("  │                                                  │\n");
    out.append("  │  ");
    out.append(url);
    out.append("  │\n");
    out.append("  └────────────────────────────────────────────────┘\n\n");
    out
}

// ── Laws ─────────────────────────────────────────────────────────────────────

/// How far a stage is.
pub open spec fn progress(stage: HostStage) -> nat {
    match stage {
        HostStage::DetectingPort => 0,
        HostStage::QueryingStun { .. } => 1,
        HostStage::Registering { .. } => 2,
        HostStage::Waiting { .. } => 3,
        HostStage::Punching { .. } => 4,
        HostStage::Serving => 5,
        HostStage::Ended => 6,
    }
}

/// A session never goes back: every event takes it further, so that each thing is
/// done at most once, and the link is shown at most once.
pub proof fn law_sessions_move_on(
    stage: HostStage,
    event: HostEvent,
    config: HostConfig,
    identity: HostIdentity,
)
    requires
        fits(stage, event),
    ensures
        progress(next_step(stage, event, config, identity).0) > progress(stage),
{
}

/// A failure ends a session with its message, whatever the session was at.
pub proof fn law_failures_end_a_session(
    stage: HostStage,
    msg: String,
    config: HostConfig,
    identity: HostIdentity,
)
    requires
        fits(stage, HostEvent::Failed(msg)),
    ensures
        next_step(stage, HostEvent::Failed(msg), config, identity) == (
            HostStage::Ended,
            HostAction::Finish(Err(msg)),
        ),
{
}

/// What a poll from an index on lists of a room's joiners, each with what could be
/// read of its address.
pub open spec fn polled<T>(from: int, addrs: Seq<Option<T>>) -> Seq<(usize, Option<T>)> {
    Seq::new((addrs.len() - from) as nat, |i: int| ((from + i) as usize, addrs[from + i]))
}

proof fn lemma_consecutive<T>(from: int, peers: Seq<(usize, Option<T>)>)
    requires
        forall|i: int| 0 <= i < peers.len() ==> (#[trigger] peers[i]).0 == from + i,
    ensures
        from <= next_after(from, peers) <= from + peers.len(),
        forall|i: int|
            0 <= i < peers.len() && (#[trigger] peers[i]).1 is Some ==> from + i < next_after(
                from,
                peers,
            ) && readable(peers).contains((peers[i].0, peers[i].1->0)),
        forall|k: int|
            0 <= k < readable(peers).len() ==> {
                let p = #[trigger] readable(peers)[k];
                from <= p.0 < next_after(from, peers) && peers[p.0 - from].1 == Some(p.1)
            },
        forall|j: int, k: int|
            0 <= j < k < readable(peers).len() ==> (#[trigger] readable(peers)[j]).0 < (
            #[trigger] readable(peers)[k]).0,
    decreases peers.len(),
{
    if peers.len() > 0 {
        let head = peers.drop_last();
        let n = peers.len() - 1;
        lemma_consecutive(from, head);
        let r = readable(peers);
        let before = readable(head);
        assert forall|i: int|
            0 <= i < peers.len() && (#[trigger] peers[i]).1 is Some implies from + i
            < next_after(from, peers) && r.contains((peers[i].0, peers[i].1->0)) by {
            if i < n {
                assert(head[i] == peers[i]);
                let p = (peers[i].0, peers[i].1->0);
                let k = choose|k: int| 0 <= k < before.len() && before[k] == p;
                assert(r[k] == p);
            } else {
                assert(r[r.len() - 1] == (peers[i].0, peers[i].1->0));
            }
        }
        assert forall|k: int| 0 <= k < r.len() implies {
            let p = #[trigger] r[k];
            from <= p.0 < next_after(from, peers) && peers[p.0 - from].1 == Some(p.1)
        } by {
            if k < before.len() {
                assert(r[k] == before[k]);
                assert(head[before[k].0 - from] == peers[before[k].0 - from]);
            }
        }
        assert forall|j: int, k: int| 0 <= j < k < r.len() implies (#[trigger] r[j]).0 < (
        #[trigger] r[k]).0 by {
            assert(r[j] == before[j]);
            if k < before.len() {
                assert(r[k] == before[k]);
            }
        }
    }
}

/// A host that polls a room hands every joiner on once: a poll hands on just the
/// joiners from its index on whose address can be read, each once and in order, and
/// the next poll begins behind the last of them.
pub proof fn law_joiners_are_handed_on_once<T>(from: nat, addrs: Seq<Option<T>>)
    requires
        from <= addrs.len() < usize::MAX,
    ensures
        ({
            let peers = polled(from as int, addrs);
            let next = next_after(from as int, peers);
            let handed_on = readable(peers);
            &&& from <= next <= addrs.len()
            &&& forall|i: int|
                from <= i < addrs.len() && (#[trigger] addrs[i]) is Some ==> i < next
                    && handed_on.contains((i as usize, addrs[i]->0))
            &&& forall|k: int|
                0 <= k < handed_on.len() ==> {
                    let p = #[trigger] handed_on[k];
                    from <= p.0 < next && addrs[p.0 as int] == Some(p.1)
                }
            &&& forall|j: int, k: int|
                0 <= j < k < handed_on.len() ==> (#[trigger] handed_on[j]).0 < (
                #[trigger] handed_on[k]).0
        }),
{
    let peers = polled(from as int, addrs);
    lemma_consecutive(from as int, peers);
    let next = next_after(from as int, peers);
    let handed_on = readable(peers);
    assert forall|i: int| from <= i < addrs.len() && (#[trigger] addrs[i]) is Some implies i < next
        && handed_on.contains((i as usize, addrs[i]->0)) by {
        assert(peers[i - from] == (i as usize, addrs[i]));
    }
    assert forall|k: int| 0 <= k < handed_on.len() implies {
        let p = #[trigger] handed_on[k];
        from <= p.0 < next && addrs[p.0 as int] == Some(p.1)
    } by {
        let p = handed_on[k];
        assert(peers[p.0 - from] == (p.0, addrs[p.0 as int]));
    }
}

/// What a poll of a room lists, with every address read as it stands.
pub open spec fn all_read(listed: Seq<(usize, PeerView)>) -> Seq<(usize, Option<PeerView>)> {
    listed.map_values(|p: (usize, PeerView)| (p.0, Some(p.1)))
}

/// After the joiners of a room from an index on have been listed, the next poll
/// begins behind the last of them.
pub proof fn law_next_poll_begins_behind_the_last(room: RoomView, from: nat)
    requires
        from <= room.peers.len() < usize::MAX,
    ensures
        next_after(from as int, all_read(room.peers_from(from as int))) == room.peers.len(),
        readable(all_read(room.peers_from(from as int))) == room.peers_from(from as int),
{
    let listed = room.peers_from(from as int);
    let l = all_read(listed);
    if l.len() > 0 {
        assert(l.last().0 == (room.peers.len() - 1) as usize);
    }
    lemma_all_are_readable(listed);
}

proof fn lemma_all_are_readable(listed: Seq<(usize, PeerView)>)
    ensures
        readable(all_read(listed)) == listed,
    decreases listed.len(),
{
    if listed.len() > 0 {
        lemma_all_are_readable(listed.drop_last());
        assert(all_read(listed).drop_last() =~= all_read(listed.drop_last()));
        assert(listed =~= listed.drop_last().push(listed.last()));
    } else {
        assert(readable(all_read(listed)) =~= listed);
    }
}

/// A session does what it is for, from its start to serving joiners: it asks the
/// configured STUN server, registers the address that it was told under its own key
/// and certificate, shows the link of the room and waits as the room's host, punches
/// holes with the joiner that came first, and then serves the world's port: the
/// configured one, or else the one that was heard on the LAN, or else 25565.
pub proof fn law_sessions_lead_to_serving(
    config: HostConfig,
    identity: HostIdentity,
    found: Option<u16>,
    addr: String,
    room: CreateRoomResponse,
    peer: IndexedPeer,
)
    requires
        peer.idx < usize::MAX,
    ensures
        ({
            let s0 = first_step(config);
            let s1 = if config.mc_port == 0 {
                next_step(s0.0, HostEvent::PortDetected(found), config, identity)
            } else {
                s0
            };
            let s2 = next_step(s1.0, HostEvent::AddressFound(addr), config, identity);
            let s3 = next_step(s2.0, HostEvent::RoomCreated(room), config, identity);
            let s4 = next_step(s3.0, HostEvent::PeerFound(peer), config, identity);
            let s5 = next_step(s4.0, HostEvent::Punched, config, identity);
            &&& config.mc_port == 0 ==> s0.1 is DetectLanWorld && fits(
                s0.0,
                HostEvent::PortDetected(found),
            )
            &&& fits(s1.0, HostEvent::AddressFound(addr))
            &&& fits(s2.0, HostEvent::RoomCreated(room))
            &&& fits(s3.0, HostEvent::PeerFound(peer))
            &&& fits(s4.0, HostEvent::Punched)
            &&& fits(s5.0, HostEvent::Cancelled)
            &&& s1.1 matches HostAction::QueryStun { server } && server == config.stun_server
            &&& s2.1 matches HostAction::CreateRoom(request) && request.host_stun == addr
                && request.host_pubkey == identity.pubkey_b64 && request.cert_fingerprint
                == identity.fingerprint_b64
            &&& s3.1 matches HostAction::ShareAndWait { room_id, host_token, share_url } && room_id
                == room.room_id && host_token == room.host_token && share_url == room.share_url
            &&& s4.1 matches HostAction::Punch { addr: target } && target == peer.join_stun
            &&& s5.1 matches HostAction::Serve(plan) && {
                &&& config.mc_port != 0 ==> plan.mc_port == config.mc_port
                &&& config.mc_port == 0 && found is Some ==> plan.mc_port == found->0
                &&& config.mc_port == 0 && found is None ==> plan.mc_port == 25565
                &&& plan.first_addr == peer.join_stun
                &&& plan.room_id == room.room_id
                &&& plan.host_token == room.host_token
                &&& plan.poll_from == peer.idx + 1
                &&& plan.relay is Some <==> text::contains_text(room.relay_addr@, ":"@)
                &&& plan.relay matches Some((relay_addr, token)) ==> relay_addr
                    == room.relay_addr && token == room.relay_token
            }
        }),
{
}

/// A session that is stopped while it serves is over without a failure.
pub proof fn law_stopping_is_no_failure(config: HostConfig, identity: HostIdentity)
    ensures
        next_step(HostStage::Serving, HostEvent::Cancelled, config, identity).0 is Ended,
        next_step(HostStage::Serving, HostEvent::Cancelled, config, identity).1
            matches HostAction::Finish(r) && r is Ok,
{
}

/// The server answers the polls for further joiners: wherever the room is open with the
/// token that the host was given for it, the poll that is made from the plan's room,
/// token and index lists the joiners that came behind the first, and is not refused.
/// The same holds of the polls for the first joiner.
pub proof fn law_polls_are_answered(
    rooms: Map<Seq<char>, RoomView>,
    mc_port: u16,
    room: CreateRoomResponse,
    peer: IndexedPeer,
    config: HostConfig,
    identity: HostIdentity,
)
    requires
        rooms.contains_key(room.room_id@),
        rooms[room.room_id@].host_token == room.host_token@,
        peer.idx < rooms[room.room_id@].peers.len() < usize::MAX,
    ensures
        ({
            let own = rooms[room.room_id@];
            let waiting = next_step(
                HostStage::Registering { mc_port },
                HostEvent::RoomCreated(room),
                config,
                identity,
            ).1;
            let serving = next_step(
                HostStage::Punching { mc_port, room, peer },
                HostEvent::Punched,
                config,
                identity,
            ).1;
            &&& waiting matches HostAction::ShareAndWait { room_id, host_token, .. }
                && api::poll_outcome(
                rooms,
                room_id@,
                api::bearer(api::bearer_header(host_token@)),
                0,
            ) == Ok::<Seq<(usize, PeerView)>, Refusal>(own.peers_from(0))
            &&& serving matches HostAction::Serve(plan) && {
                let answer = api::poll_outcome(
                    rooms,
                    plan.room_id@,
                    api::bearer(api::bearer_header(plan.host_token@)),
                    plan.poll_from,
                );
                &&& answer is Ok
                &&& answer->Ok_0.len() == own.peers.len() - peer.idx - 1
                &&& forall|i: int|
                    0 <= i < answer->Ok_0.len() ==> (#[trigger] answer->Ok_0[i]).0 == peer.idx + 1
                        + i && answer->Ok_0[i].1 == own.peers[peer.idx + 1 + i]
            }
        }),
{
    api::law_tokens_are_presented_as_bearers(room.host_token@, seq![]);
}

/// The relay lets the host in with what its plan holds, wherever the room is open with
/// the relay's token that the host was given.
pub proof fn law_relay_lets_the_host_in(
    rooms: Map<Seq<char>, RoomView>,
    mc_port: u16,
    room: CreateRoomResponse,
    peer: IndexedPeer,
    config: HostConfig,
    identity: HostIdentity,
)
    requires
        rooms::is_room_id(room.room_id@),
        rooms::is_token(room.relay_token@),
        rooms.contains_key(room.room_id@),
        rooms[room.room_id@].relay_token == room.relay_token@,
    ensures
        next_step(
            HostStage::Punching { mc_port, room, peer },
            HostEvent::Punched,
            config,
            identity,
        ).1 matches HostAction::Serve(plan) && (plan.relay matches Some((_, token)) ==>
            server_relay::authorized(
            relay::request(plan.room_id@, server_relay::Role::Host, token@),
            rooms,
        ) == Ok::<(Seq<char>, server_relay::Role), server_relay::RelayError>(
            (room.room_id@, server_relay::Role::Host),
        )),
{
    relay::law_token_holders_are_let_in(rooms, room.room_id@, server_relay::Role::Host);
}

/// The command line is obeyed: the port that it names is the one that is hosted, the
/// STUN server that it names is asked, and without a port a LAN world is looked for.
pub proof fn law_command_line_is_obeyed(a: HostArgs, variable: Option<Seq<char>>)
    ensures
        ({
            let config = HostConfig::of_args(a, variable);
            let (stage, action) = first_step(config);
            &&& a.port != 0 ==> {
                &&& stage matches HostStage::QueryingStun { mc_port } && mc_port == a.port
                &&& action matches HostAction::QueryStun { server } && server == a.stun_server
            }
            &&& a.port == 0 ==> action is DetectLanWorld
            &&& config.coord_url == a.coord_url
            &&& config.app_kind == AppKind::Cli
            &&& a.telemetry ==> config.telemetry
            &&& !a.telemetry && variable is None ==> !config.telemetry
        }),
{
}

/// Joiners are polled for while the room is open and the host has not stopped: for
/// fourteen and a half minutes, which is less than a room lives. The first one is waited
/// for as long as the room lives.
pub proof fn law_polling_ends_before_the_room(next_idx: usize, cancelled: bool, elapsed: u64)
    ensures
        poller_step(next_idx, cancelled, elapsed) == PollerStep::Poll(next_idx) <==> !cancelled
            && elapsed < (14 * 60 + 30) * 1_000_000_000,
        poller_step(next_idx, cancelled, elapsed) == PollerStep::Return <==> cancelled,
        poller_step(next_idx, cancelled, elapsed) == PollerStep::StopParks <==> !cancelled
            && elapsed >= (14 * 60 + 30) * 1_000_000_000,
        POLL_TIME_NS < rooms::ROOM_EXPIRY_NS,
        FIRST_JOINER_TIMEOUT_S * 1_000_000_000 == rooms::ROOM_EXPIRY_NS,
{
}

/// Only a room that is gone ends the polling; any other failure is tried again.
pub proof fn law_lost_polls_are_tried_again(code: u16)
    ensures
        ends_polling(coord::poll_reply(code)) <==> code == 404,
{
}

/// The link is shown as it is, on a line of its own.
pub proof fn law_link_is_shown(url: Seq<char>)
    ensures
        text::contains_text(share_text(url), "  │  "@ + url + "  │\n"@),
{
    let a = "\n  ┌────────────────────────────────────────────────┐\n"@
        + "  │  World shared! Send this link to your friend:  │\n"@
        + "  │                                                  │\n"@;
    let line = "  │  "@ + url + "  │\n"@;
    let k = a.len() as int;
    assert(share_text(url).subrange(k, k + line.len()) =~= line);
    assert(text::occurs_at(share_text(url), line, k));
}

/// What a host registers leads to what it holds: whoever reads its fingerprint accepts its
/// certificate and no other with another hash, and whoever reads its key has the public
/// half of its pair. Both are written in Base64, and in no other way.
pub proof fn law_identities_lead_to_what_is_held(id: HostIdentity, cert: Seq<u8>)
    requires
        id.wf(),
    ensures
        encoding::standard_decoded(id.fingerprint_b64@) matches Some(fp) && {
            &&& tunnel::is_pinned(id.cert.cert_der@, fp)
            &&& tunnel::is_pinned(cert, fp) <==> crypto::sha256(cert) == crypto::sha256(
                id.cert.cert_der@,
            )
            &&& id.fingerprint_b64@ == encoding::standard(fp)
        },
        encoding::standard_decoded(id.pubkey_b64@) matches Some(key) && {
            &&& key == id.keypair.public_key()
            &&& id.pubkey_b64@ == encoding::standard(key)
        },
{
}

} // verus!
