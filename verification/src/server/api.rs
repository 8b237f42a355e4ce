//! The HTTP API: opening rooms, joining them, and asking who has joined.
use crate::client::coord;
use crate::client::relay as client_relay;
use crate::server::rate_limit;
use crate::server::rate_limit::{ClientIp, KeyedLimiter};
use crate::server::relay;
use crate::server::relay::{RelayError, Role};
use crate::server::rooms;
use crate::server::rooms::{PeerInfo, PeerView, Registry, Room, RoomView};
use crate::text;
use vstd::prelude::*;
use vstd::string::*;

verus! {

/// What the handlers work on.
pub struct AppState {
    pub registry: Registry,
    pub base_url: String,
    pub relay_addr: String,
    pub room_limiter: KeyedLimiter,
    pub join_limiter: KeyedLimiter,
    pub poll_limiter: KeyedLimiter,
}

// ── Requests ─────────────────────────────────────────────────────────────────

#[derive(Debug)]
pub struct CreateRoomReq {
    pub host_pubkey: String,
    pub host_stun: String,
    pub cert_fingerprint: String,
}

#[derive(Debug)]
pub struct JoinRoomReq {
    pub join_pubkey: String,
    pub join_stun: String,
}

#[derive(Debug)]
pub struct PollQuery {
    pub after: usize,
}

// ── Responses ────────────────────────────────────────────────────────────────

#[derive(Debug)]
pub struct CreateRoomResp {
    pub room_id: String,
    pub host_token: String,
    pub relay_token: String,
    pub relay_addr: String,
    pub share_url: String,
}

#[derive(Debug)]
pub struct JoinRoomResp {
    pub host_pubkey: String,
    pub host_stun: String,
    pub cert_fingerprint: String,
    pub relay_token: String,
    pub relay_addr: String,
}

#[derive(Debug)]
pub struct IndexedPeer {
    pub idx: usize,
    pub join_pubkey: String,
    pub join_stun: String,
}

#[derive(Debug)]
pub struct PollPeersResp {
    pub peers: Vec<IndexedPeer>,
}

/// Why a request is refused.
#[derive(Clone, Copy, Debug, PartialEq, Eq, Structural)]
pub enum Refusal {
    RateLimit,
    MissingToken,
    InvalidToken,
    /// To a host: there is no such room.
    RoomNotFound,
    /// To a joiner: there is no such room any more.
    RoomNotFoundOrExpired,
}

impl Refusal {
    /// The status code of the response.
    pub open spec fn code(self) -> u16 {
        match self {
            Refusal::RateLimit => 429,
            Refusal::MissingToken => 401,
            Refusal::InvalidToken => 401,
            Refusal::RoomNotFound => 404,
            Refusal::RoomNotFoundOrExpired => 404,
        }
    }

    /// The body of the response.
    pub open spec fn text(self) -> Seq<char> {
        match self {
            Refusal::RateLimit => "rate limit exceeded"@,
            Refusal::MissingToken => "missing bearer token"@,
            Refusal::InvalidToken => "invalid token"@,
            Refusal::RoomNotFound => "room not found"@,
            Refusal::RoomNotFoundOrExpired => "room not found or expired"@,
        }
    }

    /// The status code and the body of the response.
    pub fn response(self) -> (r: (u16, &'static str))
        ensures
            r.0 == self.code(),
            r.1@ == self.text(),
    {
        match self {
            Refusal::RateLimit => (429, "rate limit exceeded"),
            Refusal::MissingToken => (401, "missing bearer token"),
            Refusal::InvalidToken => (401, "invalid token"),
            Refusal::RoomNotFound => (404, "room not found"),
            Refusal::RoomNotFoundOrExpired => (404, "room not found or expired"),
        }
    }
}

/// A limiter was asked once for `ip`, at whatever time, and its answer was `passes`.
pub open spec fn answered_at_some_time(
    before: KeyedLimiter,
    ip: ClientIp,
    passes: bool,
    after: KeyedLimiter,
) -> bool {
    exists|t: nat| #[trigger]
        rate_limit::checked(
            rate_limit::quota(before),
            rate_limit::arrivals(before),
            ip,
            t,
            passes,
            rate_limit::arrivals(after),
        )
}

// ── Opening a room ───────────────────────────────────────────────────────────

/// The URL that leads to a room.
pub open spec fn share_url(base_url: Seq<char>, room_id: Seq<char>) -> Seq<char> {
    text::without_trailing(base_url, '/') + "/"@ + room_id
}

/// The room that a host opens: nobody has joined it yet.
pub open spec fn opened_room(
    req: CreateRoomReq,
    room_id: Seq<char>,
    host_token: Seq<char>,
    relay_token: Seq<char>,
    now: u64,
) -> RoomView {
    RoomView {
        room_id,
        host_token,
        relay_token,
        host_pubkey: req.host_pubkey@,
        host_stun: req.host_stun@,
        cert_fingerprint: req.cert_fingerprint@,
        peers: Seq::empty(),
        created_at: now,
    }
}

/// The response tells the host what its room is: the id, the tokens, the relay, and the
/// link.
pub open spec fn announces(
    resp: CreateRoomResp,
    room: RoomView,
    base_url: Seq<char>,
    relay_addr: Seq<char>,
) -> bool {
    &&& resp.room_id@ == room.room_id
    &&& resp.host_token@ == room.host_token
    &&& resp.relay_token@ == room.relay_token
    &&& resp.relay_addr@ == relay_addr
    &&& resp.share_url@ == share_url(base_url, room.room_id)
}

/// The response tells a joiner how to reach the room's host.
pub open spec fn introduces(resp: JoinRoomResp, room: RoomView, relay_addr: Seq<char>) -> bool {
    &&& resp.host_pubkey@ == room.host_pubkey
    &&& resp.host_stun@ == room.host_stun
    &&& resp.cert_fingerprint@ == room.cert_fingerprint
    &&& resp.relay_token@ == room.relay_token
    &&& resp.relay_addr@ == relay_addr
}

/// Opens a room under the given id and tokens.
pub fn open_room(
    registry: &mut Registry,
    base_url: &str,
    relay_addr: &str,
    req: CreateRoomReq,
    now: u64,
    room_id: String,
    host_token: String,
    relay_token: String,
) -> (r: CreateRoomResp)
    ensures
        final(registry)@ == old(registry)@.insert(
            room_id@,
            opened_room(req, room_id@, host_token@, relay_token@, now),
        ),
        r.room_id@ == room_id@,
        r.host_token@ == host_token@,
        r.relay_token@ == relay_token@,
        r.relay_addr@ == relay_addr@,
        r.share_url@ == share_url(base_url@, room_id@),
        announces(
            r,
            opened_room(req, room_id@, host_token@, relay_token@, now),
            base_url@,
            relay_addr@,
        ),
{
    let room = Room {
        room_id: room_id.clone(),
        host_token: host_token.clone(),
        relay_token: relay_token.clone(),
        host_pubkey: req.host_pubkey,
        host_stun: req.host_stun,
        cert_fingerprint: req.cert_fingerprint,
        peers: Vec::new(),
        created_at: now,
    };
    assert(room@.peers =~= Seq::empty());
    registry.insert(room);
    let base = text::chars_of(base_url);
    let trimmed = text::trim_end_char(base.as_slice(), '/');
    let mut url = text::string_of(trimmed.as_slice());
    url.append("/");
    url.append(room_id.as_str());
    CreateRoomResp {
        room_id,
        host_token,
        relay_token,
        relay_addr: String::from_str(relay_addr),
        share_url: url,
    }
}

/// Opens a room under the given id and tokens for a client that the limiter
/// admitted, and refuses any other.
pub fn create_room_if(
    admitted: bool,
    registry: &mut Registry,
    base_url: &str,
    relay_addr: &str,
    req: CreateRoomReq,
    now: u64,
    room_id: String,
    host_token: String,
    relay_token: String,
) -> (r: Result<CreateRoomResp, Refusal>)
    ensures
        !admitted ==> r == Err::<CreateRoomResp, Refusal>(Refusal::RateLimit) && final(registry)@
            == old(registry)@,
        admitted ==> r is Ok,
        match r {
            Ok(resp) => {
                &&& final(registry)@ == old(registry)@.insert(
                    room_id@,
                    opened_room(req, room_id@, host_token@, relay_token@, now),
                )
                &&& resp.room_id@ == room_id@
                &&& resp.host_token@ == host_token@
                &&& resp.relay_token@ == relay_token@
                &&& resp.relay_addr@ == relay_addr@
                &&& resp.share_url@ == share_url(base_url@, room_id@)
                &&& announces(
                    resp,
                    opened_room(req, room_id@, host_token@, relay_token@, now),
                    base_url@,
                    relay_addr@,
                )
            },
            Err(e) => e == Refusal::RateLimit,
        },
{
    if !admitted {
        return Err(Refusal::RateLimit);
    }
    Ok(
        open_room(
            registry,
            base_url,
            relay_addr,
            req,
            now,
            room_id,
            host_token,
            relay_token,
        ),
    )
}

/// POST /api/v1/rooms
///
/// Opens a room under a random id with random tokens.
pub fn create_room(state: &mut AppState, ip: ClientIp, req: CreateRoomReq, now: u64) -> (r: Result<
    CreateRoomResp,
    Refusal,
>)
    ensures
        final(state).base_url == old(state).base_url,
        final(state).relay_addr == old(state).relay_addr,
        final(state).join_limiter == old(state).join_limiter,
        final(state).poll_limiter == old(state).poll_limiter,
        rate_limit::quota(final(state).room_limiter) == rate_limit::quota(old(state).room_limiter),
        answered_at_some_time(
            old(state).room_limiter,
            ip,
            !(r is Err && r->Err_0 == Refusal::RateLimit),
            final(state).room_limiter,
        ),
        !rate_limit::arrivals(old(state).room_limiter).contains_key(ip) ==> r is Ok,
        match r {
            Ok(resp) => {
                &&& rooms::is_room_id(resp.room_id@)
                &&& rooms::is_token(resp.host_token@)
                &&& rooms::is_token(resp.relay_token@)
                &&& rooms::encodes_16_bytes(resp.host_token@)
                &&& rooms::encodes_16_bytes(resp.relay_token@)
                &&& resp.relay_addr@ == old(state).relay_addr@
                &&& resp.share_url@ == share_url(old(state).base_url@, resp.room_id@)
                &&& final(state).registry@.contains_key(resp.room_id@)
                &&& announces(
                    resp,
                    final(state).registry@[resp.room_id@],
                    old(state).base_url@,
                    old(state).relay_addr@,
                )
                &&& final(state).registry@ == old(state).registry@.insert(
                    resp.room_id@,
                    opened_room(req, resp.room_id@, resp.host_token@, resp.relay_token@, now),
                )
            },
            Err(e) => {
                &&& e == Refusal::RateLimit
                &&& final(state).registry@ == old(state).registry@
            },
        },
{
    let admitted = state.room_limiter.check_key(ip);
    let room_id = rooms::generate_room_id();
    let host_token = rooms::generate_token();
    let relay_token = rooms::generate_token();
    let base_url = state.base_url.clone();
    let relay_addr = state.relay_addr.clone();
    create_room_if(
        admitted,
        &mut state.registry,
        base_url.as_str(),
        relay_addr.as_str(),
        req,
        now,
        room_id,
        host_token,
        relay_token,
    )
}

// ── Asking who has joined ────────────────────────────────────────────────────

/// The contents of a list of joiners.
pub open spec fn listed(peers: Seq<IndexedPeer>) -> Seq<(usize, PeerView)> {
    peers.map_values(
        |p: IndexedPeer|
            (p.idx, PeerView { join_pubkey: p.join_pubkey@, join_stun: p.join_stun@ }),
    )
}

/// What a host is told who asks for the joiners from an index on.
pub open spec fn poll_outcome(
    rooms: Map<Seq<char>, RoomView>,
    room_id: Seq<char>,
    token: Option<Seq<char>>,
    after: usize,
) -> Result<Seq<(usize, PeerView)>, Refusal> {
    if token is None {
        Err(Refusal::MissingToken)
    } else if !rooms.contains_key(room_id) {
        Err(Refusal::RoomNotFound)
    } else if rooms[room_id].host_token != token->0 {
        Err(Refusal::InvalidToken)
    } else {
        Ok(rooms[room_id].peers_from(after as int))
    }
}

/// The token that an `Authorization` header presents.
pub open spec fn bearer(header: Seq<char>) -> Option<Seq<char>> {
    text::after_prefix(header, "Bearer "@)
}

/// The token that an `Authorization` header presents, where there is one.
pub open spec fn bearer_in(header: Option<&str>) -> Option<Seq<char>> {
    match header {
        Some(h) => bearer(h@),
        None => None,
    }
}

/// The token that an `Authorization` header presents.
pub fn bearer_token(header: Option<&str>) -> (r: Option<String>)
    ensures
        match r {
            Some(t) => bearer_in(header) == Some(t@),
            None => bearer_in(header) is None,
        },
{
    match header {
        None => None,
        Some(h) => {
            let c = text::chars_of(h);
            match text::strip_prefix(c.as_slice(), "Bearer ") {
                Some(t) => Some(text::string_of(t.as_slice())),
                None => None,
            }
        },
    }
}

/// Answers a host that asks for the joiners of its room.
pub fn list_peers(registry: &Registry, room_id: &str, header: Option<&str>, q: &PollQuery) -> (r:
    Result<PollPeersResp, Refusal>)
    ensures
        match r {
            Ok(resp) => poll_outcome(registry@, room_id@, bearer_in(header), q.after) == Ok::<
                Seq<(usize, PeerView)>,
                Refusal,
            >(listed(resp.peers@)),
            Err(e) => poll_outcome(registry@, room_id@, bearer_in(header), q.after) == Err::<
                Seq<(usize, PeerView)>,
                Refusal,
            >(e),
        },
{
    let token = match bearer_token(header) {
        Some(t) => t,
        None => {
            return Err(Refusal::MissingToken);
        },
    };
    let room = match registry.get(room_id) {
        Some(r) => r,
        None => {
            return Err(Refusal::RoomNotFound);
        },
    };
    if !text::same_text(room.host_token.as_str(), token.as_str()) {
        return Err(Refusal::InvalidToken);
    }
    let found = match registry.get_peers_from(room_id, q.after) {
        Some(v) => v,
        None => Vec::new(),
    };
    let mut peers: Vec<IndexedPeer> = Vec::new();
    let mut i: usize = 0;
    while i < found.len()
        invariant
            i <= found@.len(),
            listed(peers@) == rooms::indexed_views(found@).take(i as int),
        decreases found@.len() - i,
    {
        let ghost before = peers@;
        let p = IndexedPeer {
            idx: found[i].0,
            join_pubkey: found[i].1.join_pubkey.clone(),
            join_stun: found[i].1.join_stun.clone(),
        };
        let ghost entry = (
            p.idx,
            PeerView { join_pubkey: p.join_pubkey@, join_stun: p.join_stun@ },
        );
        peers.push(p);
        proof {
            assert(listed(peers@) =~= listed(before).push(entry));
            assert(rooms::indexed_views(found@)[i as int] == entry);
            assert(rooms::indexed_views(found@).take(i + 1) =~= rooms::indexed_views(found@).take(
                i as int,
            ).push(entry));
        }
        i = i + 1;
    }
    assert(listed(peers@) =~= rooms::indexed_views(found@));
    Ok(PollPeersResp { peers })
}

/// Answers a host that the limiter admitted, and refuses any other.
pub fn poll_peers_if(
    admitted: bool,
    registry: &Registry,
    room_id: &str,
    header: Option<&str>,
    q: &PollQuery,
) -> (r: Result<PollPeersResp, Refusal>)
    ensures
        !admitted ==> r == Err::<PollPeersResp, Refusal>(Refusal::RateLimit),
        admitted ==> match r {
            Ok(resp) => poll_outcome(registry@, room_id@, bearer_in(header), q.after) == Ok::<
                Seq<(usize, PeerView)>,
                Refusal,
            >(listed(resp.peers@)),
            Err(e) => poll_outcome(registry@, room_id@, bearer_in(header), q.after) == Err::<
                Seq<(usize, PeerView)>,
                Refusal,
            >(e),
        },
{
    if !admitted {
        return Err(Refusal::RateLimit);
    }
    list_peers(registry, room_id, header, q)
}

/// GET /api/v1/rooms/:room_id/peers?after=<idx>
/// Returns peers whose index >= after (empty list = no new joiners since last poll).
pub fn poll_peers(
    state: &mut AppState,
    ip: ClientIp,
    room_id: &str,
    header: Option<&str>,
    q: &PollQuery,
) -> (r: Result<PollPeersResp, Refusal>)
    ensures
        final(state).registry == old(state).registry,
        final(state).base_url == old(state).base_url,
        final(state).relay_addr == old(state).relay_addr,
        final(state).room_limiter == old(state).room_limiter,
        final(state).join_limiter == old(state).join_limiter,
        rate_limit::quota(final(state).poll_limiter) == rate_limit::quota(old(state).poll_limiter),
        answered_at_some_time(
            old(state).poll_limiter,
            ip,
            !(r is Err && r->Err_0 == Refusal::RateLimit),
            final(state).poll_limiter,
        ),
        !rate_limit::arrivals(old(state).poll_limiter).contains_key(ip) ==> r != Err::<
            PollPeersResp,
            Refusal,
        >(Refusal::RateLimit),
        match r {
            Ok(resp) => poll_outcome(old(state).registry@, room_id@, bearer_in(header), q.after)
                == Ok::<Seq<(usize, PeerView)>, Refusal>(listed(resp.peers@)),
            Err(e) => e == Refusal::RateLimit || poll_outcome(
                old(state).registry@,
                room_id@,
                bearer_in(header),
                q.after,
            ) == Err::<Seq<(usize, PeerView)>, Refusal>(e),
        },
{
    let admitted = state.poll_limiter.check_key(ip);
    poll_peers_if(admitted, &state.registry, room_id, header, q)
}

// ── Joining a room ───────────────────────────────────────────────────────────

/// Tells a joiner how to reach the host, and notes the joiner for the host.
pub fn enter_room(registry: &mut Registry, relay_addr: &str, room_id: &str, req: JoinRoomReq) -> (r:
    Result<JoinRoomResp, Refusal>)
    ensures
        final(registry)@ == rooms::rooms_joined(
            old(registry)@,
            room_id@,
            PeerView { join_pubkey: req.join_pubkey@, join_stun: req.join_stun@ },
        ),
        match r {
            Ok(resp) => {
                let rooms = old(registry)@;
                &&& rooms.contains_key(room_id@)
                &&& resp.host_pubkey@ == rooms[room_id@].host_pubkey
                &&& resp.host_stun@ == rooms[room_id@].host_stun
                &&& resp.cert_fingerprint@ == rooms[room_id@].cert_fingerprint
                &&& resp.relay_token@ == rooms[room_id@].relay_token
                &&& resp.relay_addr@ == relay_addr@
                &&& introduces(resp, rooms[room_id@], relay_addr@)
            },
            Err(e) => e == Refusal::RoomNotFoundOrExpired && !old(registry)@.contains_key(room_id@),
        },
{
    let room = match registry.get(room_id) {
        Some(r) => r,
        None => {
            return Err(Refusal::RoomNotFoundOrExpired);
        },
    };
    let peer = PeerInfo { join_pubkey: req.join_pubkey, join_stun: req.join_stun };
    let _ = registry.add_peer(room_id, peer);
    Ok(
        JoinRoomResp {
            host_pubkey: room.host_pubkey,
            host_stun: room.host_stun,
            cert_fingerprint: room.cert_fingerprint,
            relay_token: room.relay_token,
            relay_addr: String::from_str(relay_addr),
        },
    )
}

/// Lets in a joiner that the limiter admitted, and refuses any other.
pub fn join_room_if(
    admitted: bool,
    registry: &mut Registry,
    relay_addr: &str,
    room_id: &str,
    req: JoinRoomReq,
) -> (r: Result<JoinRoomResp, Refusal>)
    ensures
        !admitted ==> r == Err::<JoinRoomResp, Refusal>(Refusal::RateLimit) && final(registry)@
            == old(registry)@,
        admitted ==> (r is Ok <==> old(registry)@.contains_key(room_id@)),
        admitted ==> final(registry)@ == rooms::rooms_joined(
            old(registry)@,
            room_id@,
            PeerView { join_pubkey: req.join_pubkey@, join_stun: req.join_stun@ },
        ),
        match r {
            Ok(resp) => {
                let rooms = old(registry)@;
                &&& resp.host_pubkey@ == rooms[room_id@].host_pubkey
                &&& resp.host_stun@ == rooms[room_id@].host_stun
                &&& resp.cert_fingerprint@ == rooms[room_id@].cert_fingerprint
                &&& resp.relay_token@ == rooms[room_id@].relay_token
                &&& resp.relay_addr@ == relay_addr@
                &&& introduces(resp, rooms[room_id@], relay_addr@)
            },
            Err(e) => admitted ==> e == Refusal::RoomNotFoundOrExpired,
        },
{
    if !admitted {
        return Err(Refusal::RateLimit);
    }
    enter_room(registry, relay_addr, room_id, req)
}

/// POST /api/v1/rooms/:room_id/join
/// Multiple joiners are allowed — no conflict check.
pub fn join_room(state: &mut AppState, ip: ClientIp, room_id: &str, req: JoinRoomReq) -> (r: Result<
    JoinRoomResp,
    Refusal,
>)
    ensures
        final(state).base_url == old(state).base_url,
        final(state).relay_addr == old(state).relay_addr,
        final(state).room_limiter == old(state).room_limiter,
        final(state).poll_limiter == old(state).poll_limiter,
        rate_limit::quota(final(state).join_limiter) == rate_limit::quota(old(state).join_limiter),
        answered_at_some_time(
            old(state).join_limiter,
            ip,
            !(r is Err && r->Err_0 == Refusal::RateLimit),
            final(state).join_limiter,
        ),
        !rate_limit::arrivals(old(state).join_limiter).contains_key(ip) ==> (r is Ok <==> old(
            state,
        ).registry@.contains_key(room_id@)),
        match r {
            Ok(resp) => {
                let rooms = old(state).registry@;
                &&& rooms.contains_key(room_id@)
                &&& resp.host_pubkey@ == rooms[room_id@].host_pubkey
                &&& resp.host_stun@ == rooms[room_id@].host_stun
                &&& resp.cert_fingerprint@ == rooms[room_id@].cert_fingerprint
                &&& resp.relay_token@ == rooms[room_id@].relay_token
                &&& resp.relay_addr@ == old(state).relay_addr@
                &&& introduces(resp, rooms[room_id@], old(state).relay_addr@)
                &&& final(state).registry@ == rooms::rooms_joined(
                    rooms,
                    room_id@,
                    PeerView { join_pubkey: req.join_pubkey@, join_stun: req.join_stun@ },
                )
            },
            Err(e) => {
                &&& final(state).registry@ == old(state).registry@
                &&& e == Refusal::RateLimit || (e == Refusal::RoomNotFoundOrExpired && !old(
                    state,
                ).registry@.contains_key(room_id@))
            },
        },
{
    let admitted = state.join_limiter.check_key(ip);
    let relay_addr = state.relay_addr.clone();
    join_room_if(admitted, &mut state.registry, relay_addr.as_str(), room_id, req)
}

// ── Client addresses ─────────────────────────────────────────────────────────

/// The address in an `X-Forwarded-For` header: its first field.
pub open spec fn forwarded(header: Seq<char>) -> Seq<char> {
    text::trimmed(header.take(text::index_of_char(header, ',') as int))
}

/// The address in an `X-Forwarded-For` header: its first field.
pub fn forwarded_for(header: &str) -> (r: String)
    ensures
        r@ == forwarded(header@),
{
    let c = text::chars_of(header);
    let k: usize = text::skip_to_char(c.as_slice(), ',', 0);
    assert(c@.skip(0) =~= c@);
    let field = text::part(c.as_slice(), 0, k);
    assert(field@ =~= header@.take(k as int));
    let t = text::trim(field.as_slice());
    text::string_of(t.as_slice())
}

/// The address that a request is counted for: the one that the header gives where
/// it is an address, and 127.0.0.1 otherwise.
pub open spec fn counted_ip(forwarded: Option<ClientIp>) -> ClientIp {
    match forwarded {
        Some(ip) => ip,
        None => (4, 0x7f00_0001),
    }
}

/// The address that a request is counted for: the one that the header gives where
/// it is an address, and 127.0.0.1 otherwise.
pub fn extract_ip(forwarded: Option<ClientIp>) -> (r: ClientIp)
    ensures
        r == counted_ip(forwarded),
        r == (match forwarded {
            Some(ip) => ip,
            None => (4u8, 0x7f00_0001u128),
        }),
{
    match forwarded {
        Some(ip) => ip,
        None => (4u8, 0x7f00_0001u128),
    }
}

// ── Laws ─────────────────────────────────────────────────────────────────────

/// The share URL of a room leads a joiner to that room.
pub proof fn law_share_url_leads_to_its_room(base_url: Seq<char>, room_id: Seq<char>)
    requires
        rooms::is_room_id(room_id),
    ensures
        coord::room_of(share_url(base_url, room_id)) == room_id,
{
    rooms::law_room_ids_are_room_codes(room_id);
    let prefix = text::without_trailing(base_url, '/');
    coord::law_url_names_its_room(prefix, room_id, 0);
    assert(share_url(base_url, room_id) =~= prefix + "/"@ + room_id + Seq::new(0, |i: int| '/'));
}

/// The link is all that a joiner needs: the room that the share URL of an opened room
/// names is open, and tells of the host what the host has registered.
pub proof fn law_link_leads_to_its_host(
    rooms: Map<Seq<char>, RoomView>,
    base_url: Seq<char>,
    req: CreateRoomReq,
    room_id: Seq<char>,
    host_token: Seq<char>,
    relay_token: Seq<char>,
    now: u64,
)
    requires
        rooms::is_room_id(room_id),
    ensures
        ({
            let after = rooms.insert(
                room_id,
                opened_room(req, room_id, host_token, relay_token, now),
            );
            let named = coord::room_of(share_url(base_url, room_id));
            &&& after.contains_key(named)
            &&& after[named].host_pubkey == req.host_pubkey@
            &&& after[named].host_stun == req.host_stun@
            &&& after[named].cert_fingerprint == req.cert_fingerprint@
            &&& after[named].relay_token == relay_token
            &&& after[named].is_fresh(now)
        }),
{
    law_share_url_leads_to_its_room(base_url, room_id);
}

/// A host learns of every joiner: who joins is listed under its index to the host
/// that asks from that index on, and to nobody without the host's token.
pub proof fn law_host_learns_of_joiners(
    rooms: Map<Seq<char>, RoomView>,
    room_id: Seq<char>,
    peer: PeerView,
    token: Option<Seq<char>>,
)
    requires
        rooms.contains_key(room_id),
        rooms[room_id].peers.len() < usize::MAX,
    ensures
        ({
            let idx = rooms[room_id].peers.len() as usize;
            let outcome = poll_outcome(
                rooms::rooms_joined(rooms, room_id, peer),
                room_id,
                token,
                idx,
            );
            if token == Some(rooms[room_id].host_token) {
                outcome == Ok::<Seq<(usize, PeerView)>, Refusal>(seq![(idx, peer)])
            } else {
                outcome is Err
            }
        }),
{
    let idx = rooms[room_id].peers.len();
    rooms::law_joiners_keep_their_index(rooms[room_id], peer, idx);
    assert(rooms[room_id].joined(peer).peers_from(idx as int) =~= seq![(idx as usize, peer)]);
}

/// Others joining leaves what a joiner is told of the host unchanged.
pub proof fn law_joining_keeps_the_host(
    rooms: Map<Seq<char>, RoomView>,
    room_id: Seq<char>,
    peer: PeerView,
    other: Seq<char>,
)
    requires
        rooms.contains_key(other),
    ensures
        ({
            let next = rooms::rooms_joined(rooms, room_id, peer);
            &&& next.contains_key(other)
            &&& next[other].host_pubkey == rooms[other].host_pubkey
            &&& next[other].host_stun == rooms[other].host_stun
            &&& next[other].cert_fingerprint == rooms[other].cert_fingerprint
            &&& next[other].relay_token == rooms[other].relay_token
            &&& next[other].host_token == rooms[other].host_token
            &&& next[other].created_at == rooms[other].created_at
        }),
{
}

/// The header that a client presents a token in.
pub open spec fn bearer_header(token: Seq<char>) -> Seq<char> {
    "Bearer "@ + token
}

/// A token is presented behind the word `Bearer` and one space, and in no other way.
pub proof fn law_tokens_are_presented_as_bearers(token: Seq<char>, header: Seq<char>)
    ensures
        bearer(bearer_header(token)) == Some(token),
        bearer(header) matches Some(t) ==> header == bearer_header(t),
{
    reveal_strlit("Bearer ");
    let h = bearer_header(token);
    assert(h.subrange(0, 7) =~= "Bearer "@);
    assert(h.skip(7) =~= token);
    if bearer(header) is Some {
        let t = bearer(header)->0;
        assert(header =~= header.subrange(0, 7) + header.skip(7));
    }
}

/// What a host is told is of use to it: the id and the token let it ask for the joiners
/// of its room, the relay lets it in with the relay's token, the link leads to its
/// room, and what it has registered stands there.
pub proof fn law_hosts_can_use_what_they_are_told(
    rooms: Map<Seq<char>, RoomView>,
    req: CreateRoomReq,
    room_id: Seq<char>,
    host_token: Seq<char>,
    relay_token: Seq<char>,
    now: u64,
    resp: CreateRoomResp,
    base_url: Seq<char>,
    relay_addr: Seq<char>,
    after: usize,
)
    requires
        rooms::is_room_id(room_id),
        rooms::is_token(relay_token),
        announces(
            resp,
            opened_room(req, room_id, host_token, relay_token, now),
            base_url,
            relay_addr,
        ),
    ensures
        ({
            let opened = rooms.insert(
                room_id,
                opened_room(req, room_id, host_token, relay_token, now),
            );
            let own = opened[resp.room_id@];
            &&& poll_outcome(
                opened,
                resp.room_id@,
                bearer(bearer_header(resp.host_token@)),
                after,
            ) == Ok::<Seq<(usize, PeerView)>, Refusal>(seq![])
            &&& relay::authorized(
                client_relay::request(resp.room_id@, Role::Host, resp.relay_token@),
                opened,
            ) == Ok::<(Seq<char>, Role), RelayError>((resp.room_id@, Role::Host))
            &&& coord::room_of(resp.share_url@) == resp.room_id@
            &&& resp.relay_addr@ == relay_addr
            &&& own.host_pubkey == req.host_pubkey@
            &&& own.host_stun == req.host_stun@
            &&& own.cert_fingerprint == req.cert_fingerprint@
            &&& own.created_at == now
            &&& own.peers.len() == 0
        }),
{
    let opened = rooms.insert(
        room_id,
        opened_room(req, room_id, host_token, relay_token, now),
    );
    law_tokens_are_presented_as_bearers(resp.host_token@, seq![]);
    law_share_url_leads_to_its_room(base_url, room_id);
    client_relay::law_token_holders_are_let_in(opened, room_id, Role::Host);
    assert(opened[room_id].peers_from(after as int) =~= seq![]);
}

/// What a joiner is told is of use to it: it is what the host has registered, and the
/// relay lets the joiner in to the same room.
pub proof fn law_joiners_can_use_what_they_are_told(
    rooms: Map<Seq<char>, RoomView>,
    room_id: Seq<char>,
    req: CreateRoomReq,
    host_token: Seq<char>,
    relay_token: Seq<char>,
    now: u64,
    resp: JoinRoomResp,
    relay_addr: Seq<char>,
)
    requires
        rooms::is_room_id(room_id),
        rooms::is_token(relay_token),
        rooms.contains_key(room_id),
        rooms[room_id] == opened_room(req, room_id, host_token, relay_token, now),
        introduces(resp, rooms[room_id], relay_addr),
    ensures
        resp.host_pubkey@ == req.host_pubkey@,
        resp.host_stun@ == req.host_stun@,
        resp.cert_fingerprint@ == req.cert_fingerprint@,
        resp.relay_addr@ == relay_addr,
        relay::authorized(client_relay::request(room_id, Role::Join, resp.relay_token@), rooms)
            == Ok::<(Seq<char>, Role), RelayError>((room_id, Role::Join)),
{
    client_relay::law_token_holders_are_let_in(rooms, room_id, Role::Join);
}

/// Each refusal of a poll has its reason: a token must be presented, the room must be
/// open, and the token must be its host's. Otherwise the joiners from the index on are
/// listed, each under its index.
pub proof fn law_polls_have_their_answer(
    rooms: Map<Seq<char>, RoomView>,
    room_id: Seq<char>,
    token: Option<Seq<char>>,
    after: usize,
)
    ensures
        match poll_outcome(rooms, room_id, token, after) {
            Err(Refusal::MissingToken) => token is None,
            Err(Refusal::RoomNotFound) => token is Some && !rooms.contains_key(room_id),
            Err(Refusal::InvalidToken) => token is Some && rooms.contains_key(room_id)
                && rooms[room_id].host_token != token->0,
            Err(_) => false,
            Ok(list) => {
                let peers = rooms[room_id].peers;
                &&& token == Some(rooms[room_id].host_token)
                &&& rooms.contains_key(room_id)
                &&& list.len() == (if after < peers.len() {
                    peers.len() - after
                } else {
                    0
                })
                &&& peers.len() <= usize::MAX ==> forall|i: int|
                    0 <= i < list.len() ==> (#[trigger] list[i]).0 == after + i && list[i].1
                        == peers[after + i]
            },
        },
{
}

/// A client can tell the server's refusals apart by their codes: only a room that is
/// gone ends a host's polling, and a refused client may come again.
pub proof fn law_refusals_are_understood(refusal: Refusal)
    ensures
        !coord::is_success(refusal.code()),
        coord::poll_reply(refusal.code()) == coord::PollReply::Expired <==> refusal
            == Refusal::RoomNotFound || refusal == Refusal::RoomNotFoundOrExpired,
        coord::poll_reply(refusal.code()) == coord::PollReply::Failed <==> refusal
            == Refusal::RateLimit || refusal == Refusal::MissingToken || refusal
            == Refusal::InvalidToken,
        400 <= refusal.code() < 500,
        refusal.code() == 429 <==> refusal == Refusal::RateLimit,
        refusal.code() == 401 <==> refusal == Refusal::MissingToken || refusal
            == Refusal::InvalidToken,
{
}

/// Of a list of addresses the first one counts, without the white space around it,
/// whatever follows the comma.
pub proof fn law_first_address_counts(first: Seq<char>, behind: Seq<char>)
    requires
        forall|i: int| 0 <= i < first.len() ==> #[trigger] first[i] != ',',
    ensures
        forwarded(first + seq![','] + behind) == text::trimmed(first),
        forwarded(first) == text::trimmed(first),
{
    let whole = first + seq![','] + behind;
    assert forall|i: int| 0 <= i < first.len() implies #[trigger] whole[i] != ',' by {
        assert(whole[i] == first[i]);
    }
    text::lemma_index_of_char_is(whole, ',', first.len());
    assert(whole.take(first.len() as int) =~= first);
    text::lemma_index_of_char_is(first, ',', first.len());
    assert(first.take(first.len() as int) =~= first);
}

/// Each refusal is told in words of its own.
pub proof fn law_refusals_are_told_in_words()
    ensures
        Refusal::RateLimit.text() == "rate limit exceeded"@,
        Refusal::MissingToken.text() == "missing bearer token"@,
        Refusal::InvalidToken.text() == "invalid token"@,
        Refusal::RoomNotFound.text() == "room not found"@,
        Refusal::RoomNotFoundOrExpired.text() == Refusal::RoomNotFound.text() + " or expired"@,
{
    reveal_strlit("room not found");
    reveal_strlit(" or expired");
    reveal_strlit("room not found or expired");
    assert("room not found or expired"@ =~= "room not found"@ + " or expired"@);
}

/// A host is told of each joiner what it needs to reach that one: its place in the
/// order, its key and its address, each as it came.
pub proof fn law_joiners_are_listed_as_they_came(peers: Seq<IndexedPeer>, i: int)
    requires
        0 <= i < peers.len(),
    ensures
        listed(peers).len() == peers.len(),
        listed(peers)[i].0 == peers[i].idx,
        listed(peers)[i].1.join_pubkey == peers[i].join_pubkey@,
        listed(peers)[i].1.join_stun == peers[i].join_stun@,
{
}

/// Requests from different addresses are counted apart, and those without one are counted
/// for the IPv4 address 127.0.0.1.
pub proof fn law_addresses_are_counted_apart(a: ClientIp, b: ClientIp)
    ensures
        counted_ip(Some(a)) == counted_ip(Some(b)) ==> a == b,
        counted_ip(Some(a)) == a,
        counted_ip(None).0 == 4,
        counted_ip(None).1 == 127 * 256 * 256 * 256 + 1,
{
}

} // verus!
