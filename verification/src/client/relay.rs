//! TCP relay client.
//!
//! Used as a fallback when P2P (QUIC over UDP hole-punching) cannot
//! be established — typically because the joiner sits behind Symmetric
//! NAT, where the host cannot predict the joiner's outbound port.
//!
//! Protocol:
//!   Client → Server: "RELAY {room_id} {role:host|join} {relay_token}\n"
//!   Server → Client: "OK\n"
//!   Then: raw TCP pipe to the matched peer.
use crate::encoding;
use crate::server::relay;
use crate::server::relay::Role;
use crate::server::rooms;
use crate::server::rooms::RoomView;
use crate::text;
use vstd::prelude::*;
use vstd::string::*;

verus! {

/// How long a connection attempt may take, in seconds.
pub const CONNECT_TIMEOUT_S: u64 = 8;

/// How long the answer to the request may take, in seconds.
pub const AUTH_READ_TIMEOUT_S: u64 = 10;

/// After how many idle seconds a stream is probed.
pub const KEEPALIVE_IDLE_S: u64 = 45;

/// How many seconds lie between two probes.
pub const KEEPALIVE_INTERVAL_S: u64 = 15;

/// After how many lost probes a stream is given up.
pub const KEEPALIVE_RETRIES: u32 = 4;

/// How many bytes of an answer are looked at.
pub const REPLY_BUFFER: usize = 64;

/// Why the relay could not be used.
#[derive(Debug)]
pub enum RelayError {
    /// The relay's address names no port.
    MissingPort,
    ConnectTimeout,
    AuthTimeout,
    /// The relay closed the stream before it answered.
    ClosedBeforeReply,
    /// The relay said no, in these words.
    AuthFailed(String),
    /// The relay closed the stream before a joiner came.
    ClosedBeforePair,
}

impl RelayError {
    /// The error in words, for the relay at `relay_addr`.
    pub open spec fn text(self, relay_addr: Seq<char>) -> Seq<char> {
        match self {
            RelayError::MissingPort => "relay address missing :port — "@ + text::debug_form(
                relay_addr,
            ),
            RelayError::ConnectTimeout => "relay connect timeout (addr="@ + relay_addr + ")"@,
            RelayError::AuthTimeout => "relay auth read timeout"@,
            RelayError::ClosedBeforeReply => "relay closed before auth response"@,
            RelayError::AuthFailed(reply) => "relay auth failed: "@ + reply@,
            RelayError::ClosedBeforePair => "relay closed before pair"@,
        }
    }

    /// The error in words, for the relay at `relay_addr`.
    pub fn message(&self, relay_addr: &str) -> (r: String)
        ensures
            r@ == self.text(relay_addr@),
    {
        match self {
            RelayError::MissingPort => {
                let mut m = String::from_str("relay address missing :port — ");
                let quoted = text::debug_text(relay_addr);
                m.append(quoted.as_str());
                m
            },
            RelayError::ConnectTimeout => {
                let mut m = String::from_str("relay connect timeout (addr=");
                m.append(relay_addr);
                m.append(")");
                m
            },
            RelayError::AuthTimeout => String::from_str("relay auth read timeout"),
            RelayError::ClosedBeforeReply => String::from_str("relay closed before auth response"),
            RelayError::AuthFailed(reply) => {
                let mut m = String::from_str("relay auth failed: ");
                m.append(reply.as_str());
                m
            },
            RelayError::ClosedBeforePair => String::from_str("relay closed before pair"),
        }
    }
}

/// Validate a relay endpoint string.  Accepts either a literal "host:port"
/// (DNS resolved at connect time) or "ip:port".
pub fn parse_relay_addr(s: &str) -> (r: Result<String, RelayError>)
    ensures
        match r {
            Ok(a) => a@ == s@ && text::contains_text(s@, ":"@),
            Err(e) => e is MissingPort && !text::contains_text(s@, ":"@),
        },
{
    let c = text::chars_of(s);
    if text::has_text(c.as_slice(), ":") {
        Ok(String::from_str(s))
    } else {
        Err(RelayError::MissingPort)
    }
}

// ── Common: dial + auth ──────────────────────────────────────────────────────

/// The request that asks to be let in, without its newline.
pub open spec fn request(room_id: Seq<char>, role: Role, token: Seq<char>) -> Seq<char> {
    "RELAY "@ + room_id + " "@ + role.text() + " "@ + token
}

/// The line that asks to be let in.
pub fn request_line(room_id: &str, role: Role, token: &str) -> (r: String)
    ensures
        r@ == request(room_id@, role, token@) + "\n"@,
{
    let mut line = String::from_str("RELAY ");
    line.append(room_id);
    line.append(" ");
    line.append(role.name());
    line.append(" ");
    line.append(token);
    line.append("\n");
    line
}

/// Whether an answer lets the client in: it begins with `OK`.
pub open spec fn reply_is_ok(reply: Seq<char>) -> bool {
    text::begins_with(text::trimmed(reply), "OK"@)
}

/// Judges the text of an answer.
pub fn check_reply_text(reply: &str) -> (r: Result<(), RelayError>)
    ensures
        match r {
            Ok(_) => reply_is_ok(reply@),
            Err(e) => !reply_is_ok(reply@) && (e matches RelayError::AuthFailed(t) && t@
                == text::trimmed(reply@)),
        },
{
    let c = text::chars_of(reply);
    let t = text::trim(c.as_slice());
    if text::has_prefix(t.as_slice(), "OK") {
        Ok(())
    } else {
        Err(RelayError::AuthFailed(text::string_of(t.as_slice())))
    }
}

/// What becomes of the bytes of an answer; none mean that the relay has closed the
/// stream.
pub open spec fn judged(data: Seq<u8>, r: Result<(), RelayError>) -> bool {
    &&& match r {
        Ok(_) => data.len() > 0 && reply_is_ok(text::utf8_lossy(data)),
        Err(RelayError::ClosedBeforeReply) => data.len() == 0,
        Err(RelayError::AuthFailed(t)) => {
            &&& data.len() > 0
            &&& !reply_is_ok(text::utf8_lossy(data))
            &&& t@ == text::trimmed(text::utf8_lossy(data))
        },
        Err(_) => false,
    }
    &&& data.len() > 0 && vstd::utf8::valid_utf8(data) ==> match r {
        Ok(_) => reply_is_ok(vstd::utf8::decode_utf8(data)),
        Err(RelayError::AuthFailed(t)) => {
            &&& !reply_is_ok(vstd::utf8::decode_utf8(data))
            &&& t@ == text::trimmed(vstd::utf8::decode_utf8(data))
        },
        Err(_) => false,
    }
}

/// Judges the bytes of an answer; none mean that the relay has closed the stream.
pub fn check_reply(data: &[u8]) -> (r: Result<(), RelayError>)
    ensures
        judged(data@, r),
{
    if data.len() == 0 {
        return Err(RelayError::ClosedBeforeReply);
    }
    let reply = text::utf8_lossy_text(data);
    check_reply_text(reply.as_str())
}

/// An answer is not complete yet: no newline has come, and the buffer has room.
pub open spec fn reply_open(seen: Seq<u8>) -> bool {
    seen.len() < REPLY_BUFFER && forall|i: int| 0 <= i < seen.len() ==> #[trigger] seen[i] != 10
}

/// What one more byte of an answer has led to.
#[derive(Debug)]
pub enum ReplyStep {
    /// The answer goes on.
    More,
    /// The answer is complete, and says this.
    Done(Result<(), RelayError>),
}

/// Reads an answer byte by byte, up to its newline: what follows is the peer's, and
/// is left in the stream.
#[derive(Debug)]
pub struct ReplyReader {
    buf: Vec<u8>,
}

impl View for ReplyReader {
    type V = Seq<u8>;

    /// The bytes taken so far.
    closed spec fn view(&self) -> Seq<u8> {
        self.buf@
    }
}

impl ReplyReader {
    /// A reader that has taken nothing.
    pub fn new() -> (r: Self)
        ensures
            r@ == Seq::<u8>::empty(),
            reply_open(r@),
    {
        Self { buf: Vec::new() }
    }

    /// Takes one more byte.
    pub fn read_byte(&mut self, b: u8) -> (r: ReplyStep)
        requires
            reply_open(old(self)@),
        ensures
            final(self)@ == old(self)@.push(b),
            match r {
                ReplyStep::More => reply_open(final(self)@),
                ReplyStep::Done(x) => !reply_open(final(self)@) && judged(final(self)@, x),
            },
    {
        let ghost seen = self.buf@;
        self.buf.push(b);
        proof {
            assert(self.buf@[seen.len() as int] == b);
            assert(forall|i: int| 0 <= i < seen.len() ==> #[trigger] self.buf@[i] == seen[i]);
        }
        if b == 10 || self.buf.len() >= REPLY_BUFFER {
            ReplyStep::Done(check_reply(self.buf.as_slice()))
        } else {
            ReplyStep::More
        }
    }

    /// The relay has closed the stream: the answer is what has come.
    pub fn ended(&self) -> (r: Result<(), RelayError>)
        ensures
            judged(self@, r),
    {
        check_reply(self.buf.as_slice())
    }
}

// ── Host side: maintain a pool of parked connections ─────────────────────────

/// How many connections a host keeps parked.
pub const POOL_SIZE: usize = 4;

/// The wait after a first failure, in milliseconds.
pub const BACKOFF_INITIAL_MS: u64 = 500;

/// The longest wait between failures, in milliseconds.
pub const BACKOFF_MAX_MS: u64 = 30_000;

/// How the attempt to park a connection has ended.
#[derive(Clone, Copy, Debug, PartialEq, Eq, Structural)]
pub enum ParkOutcome {
    /// A joiner has come.
    Paired,
    /// The host has stopped sharing.
    Cancelled,
    /// The relay could not be reached, or closed the stream.
    Failed,
}

/// What a parked connection's wait for its first byte has led to: the bytes that
/// can be read, none if the relay has closed the stream, or a cancellation.
#[derive(Clone, Copy, Debug, PartialEq, Eq, Structural)]
pub enum ParkEvent {
    Readable(usize),
    Cancelled,
}

/// How a parked connection ends, unless the relay has closed it.
pub open spec fn parked_outcome(event: ParkEvent) -> Option<ParkOutcome> {
    match event {
        ParkEvent::Readable(n) => if n == 0 {
            None
        } else {
            Some(ParkOutcome::Paired)
        },
        ParkEvent::Cancelled => Some(ParkOutcome::Cancelled),
    }
}

/// How a parked connection ends.
pub fn park_one(event: ParkEvent) -> (r: Result<ParkOutcome, RelayError>)
    ensures
        match r {
            Ok(outcome) => parked_outcome(event) == Some(outcome),
            Err(_) => parked_outcome(event) is None,
        },
        match r {
            Ok(ParkOutcome::Paired) => event matches ParkEvent::Readable(n) && n > 0,
            Ok(ParkOutcome::Cancelled) => event is Cancelled,
            Ok(ParkOutcome::Failed) => false,
            Err(e) => e is ClosedBeforePair && event == ParkEvent::Readable(0),
        },
{
    match event {
        ParkEvent::Readable(n) => if n == 0 {
            Err(RelayError::ClosedBeforePair)
        } else {
            Ok(ParkOutcome::Paired)
        },
        ParkEvent::Cancelled => Ok(ParkOutcome::Cancelled),
    }
}

/// The wait that follows a failure, after the wait that preceded it.
pub open spec fn next_backoff(prev: int) -> int {
    if prev == 0 {
        BACKOFF_INITIAL_MS as int
    } else if prev * 2 < BACKOFF_MAX_MS {
        prev * 2
    } else {
        BACKOFF_MAX_MS as int
    }
}

/// The state of a pool.
pub struct PoolView {
    /// How many connections the pool keeps parked.
    pub size: int,
    /// How many connections are dialled or parked.
    pub parked: int,
    /// The wait before the next dial, in milliseconds.
    pub backoff: int,
    /// A joiner has come before.
    pub paired: bool,
}

/// The pool after one connection has ended.
pub open spec fn pool_after(pool: PoolView, outcome: ParkOutcome) -> PoolView {
    PoolView {
        size: pool.size,
        parked: pool.parked - 1,
        backoff: match outcome {
            ParkOutcome::Paired => 0,
            ParkOutcome::Cancelled => pool.backoff,
            ParkOutcome::Failed => next_backoff(pool.backoff),
        },
        paired: pool.paired || outcome == ParkOutcome::Paired,
    }
}

/// What a pool does next.
pub open spec fn pool_step(pool: PoolView, cancelled: bool, waited: bool) -> PoolStep {
    if cancelled {
        PoolStep::Stop
    } else if pool.backoff > 0 && !waited {
        PoolStep::Wait(pool.backoff as u64)
    } else if pool.parked < pool.size {
        PoolStep::Dial
    } else {
        PoolStep::Full
    }
}

/// What the end of a connection calls for.
pub open spec fn pool_notice(pool: PoolView, outcome: ParkOutcome) -> PoolNotice {
    PoolNotice {
        first_pair: outcome == ParkOutcome::Paired && !pool.paired,
        warn: outcome == ParkOutcome::Failed && pool.backoff == 0,
    }
}

/// What the end of a connection calls for.
#[derive(Clone, Copy, Debug, PartialEq, Eq, Structural)]
pub struct PoolNotice {
    /// This is the first joiner: say so.
    pub first_pair: bool,
    /// This is the first failure of a burst: say so.
    pub warn: bool,
}

/// What a pool does next.
#[derive(Clone, Copy, Debug, PartialEq, Eq, Structural)]
pub enum PoolStep {
    /// The host has stopped sharing.
    Stop,
    /// Wait for so many milliseconds, or for the end of sharing.
    Wait(u64),
    /// Dial and park one more connection.
    Dial,
    /// Wait for a connection to end.
    Full,
}

/// Keeps a number of connections parked at the relay.
///
/// Whenever a parked connection is consumed by a joiner it turns into a pipe to
/// the local Minecraft server, and a fresh connection is parked to replace it.
/// The wait after failures is shared by the whole pool: every joiner resets it,
/// and every failure lengthens it.
#[derive(Debug)]
pub struct HostPool {
    size: usize,
    parked: usize,
    backoff: u64,
    paired: bool,
}

impl View for HostPool {
    type V = PoolView;

    closed spec fn view(&self) -> PoolView {
        PoolView {
            size: self.size as int,
            parked: self.parked as int,
            backoff: self.backoff as int,
            paired: self.paired,
        }
    }
}

impl HostPool {
    /// There are no more connections than the pool keeps, and the wait is in its
    /// bounds.
    pub closed spec fn wf(self) -> bool {
        &&& self.parked <= self.size
        &&& self.backoff == 0 || BACKOFF_INITIAL_MS <= self.backoff <= BACKOFF_MAX_MS
    }

    /// A pool without connections.
    pub fn new(size: usize) -> (r: Self)
        ensures
            r.wf(),
            r@ == (PoolView { size: size as int, parked: 0, backoff: 0, paired: false }),
    {
        Self { size, parked: 0, backoff: 0, paired: false }
    }

    /// What the pool does next. `waited` tells that the wait has been slept off.
    /// Dialling takes up one of the pool's places.
    pub fn step(&mut self, cancelled: bool, waited: bool) -> (r: PoolStep)
        requires
            old(self).wf(),
        ensures
            final(self).wf(),
            r == pool_step(old(self)@, cancelled, waited),
            r == (if cancelled {
                PoolStep::Stop
            } else if old(self)@.backoff > 0 && !waited {
                PoolStep::Wait(old(self)@.backoff as u64)
            } else if old(self)@.parked < old(self)@.size {
                PoolStep::Dial
            } else {
                PoolStep::Full
            }),
            r == PoolStep::Dial ==> final(self)@ == (PoolView {
                parked: old(self)@.parked + 1,
                ..old(self)@
            }),
            r != PoolStep::Dial ==> final(self)@ == old(self)@,
    {
        if cancelled {
            PoolStep::Stop
        } else if self.backoff > 0 && !waited {
            PoolStep::Wait(self.backoff)
        } else if self.parked < self.size {
            self.parked = self.parked + 1;
            PoolStep::Dial
        } else {
            PoolStep::Full
        }
    }

    /// Tests whether no connection is dialled or parked.
    pub fn is_empty(&self) -> (r: bool)
        ensures
            r == (self@.parked == 0),
    {
        self.parked == 0
    }

    /// One connection has ended.
    pub fn ended(&mut self, outcome: ParkOutcome) -> (r: PoolNotice)
        requires
            old(self).wf(),
            old(self)@.parked > 0,
        ensures
            final(self).wf(),
            final(self)@ == pool_after(old(self)@, outcome),
            r == pool_notice(old(self)@, outcome),
            r.first_pair == (outcome == ParkOutcome::Paired && !old(self)@.paired),
            r.warn == (outcome == ParkOutcome::Failed && old(self)@.backoff == 0),
    {
        self.parked = self.parked - 1;
        match outcome {
            ParkOutcome::Paired => {
                let first = !self.paired;
                self.backoff = 0;
                self.paired = true;
                PoolNotice { first_pair: first, warn: false }
            },
            ParkOutcome::Cancelled => PoolNotice { first_pair: false, warn: false },
            ParkOutcome::Failed => {
                let prev: u64 = self.backoff;
                self.backoff = if prev == 0 {
                    BACKOFF_INITIAL_MS
                } else if prev * 2 < BACKOFF_MAX_MS {
                    prev * 2
                } else {
                    BACKOFF_MAX_MS
                };
                PoolNotice { first_pair: false, warn: prev == 0 }
            },
        }
    }
}

// ── Laws ─────────────────────────────────────────────────────────────────────

/// A pool never holds more connections than it keeps, and never waits longer than
/// 30 seconds.
pub proof fn law_pools_are_bounded(pool: HostPool)
    requires
        pool.wf(),
    ensures
        0 <= pool@.parked <= pool@.size,
        0 <= pool@.backoff <= 30_000,
{
}

/// The wait after `n` failures in a row.
pub open spec fn backoff_after(n: nat) -> int
    decreases n,
{
    if n == 0 {
        0
    } else {
        next_backoff(backoff_after((n - 1) as nat))
    }
}

/// Failures in a row wait 0.5, 1, 2, 4, 8 and 16 seconds, and 30 seconds from then
/// on.
pub proof fn law_backoff_doubles_up_to_its_limit(n: nat)
    ensures
        backoff_after(n) == (if n == 0 {
            0int
        } else if n <= 6 {
            500 * (vstd::arithmetic::power2::pow2((n - 1) as nat) as int)
        } else {
            30_000
        }),
    decreases n,
{
    vstd::arithmetic::power2::lemma2_to64();
    if n > 0 {
        law_backoff_doubles_up_to_its_limit((n - 1) as nat);
    }
}

/// How often the first joiner is announced in a run of connections that end.
pub open spec fn announcements(paired: bool, outcomes: Seq<ParkOutcome>) -> nat
    decreases outcomes.len(),
{
    if outcomes.len() == 0 {
        0
    } else {
        let first = outcomes[0] == ParkOutcome::Paired;
        (if first && !paired {
            1nat
        } else {
            0nat
        }) + announcements(paired || first, outcomes.drop_first())
    }
}

/// The first joiner is announced exactly once, however many come; without a joiner
/// it is not announced.
pub proof fn law_first_joiner_is_announced_once(outcomes: Seq<ParkOutcome>)
    ensures
        announcements(false, outcomes) == (if outcomes.contains(ParkOutcome::Paired) {
            1nat
        } else {
            0nat
        }),
        announcements(true, outcomes) == 0,
    decreases outcomes.len(),
{
    if outcomes.len() > 0 {
        let rest = outcomes.drop_first();
        law_first_joiner_is_announced_once(rest);
        if outcomes.contains(ParkOutcome::Paired) && outcomes[0] != ParkOutcome::Paired {
            let i = choose|i: int| 0 <= i < outcomes.len() && outcomes[i] == ParkOutcome::Paired;
            assert(rest[i - 1] == ParkOutcome::Paired);
        }
        if rest.contains(ParkOutcome::Paired) {
            let i = choose|i: int| 0 <= i < rest.len() && rest[i] == ParkOutcome::Paired;
            assert(outcomes[i + 1] == ParkOutcome::Paired);
        }
        if outcomes[0] == ParkOutcome::Paired {
            assert(outcomes.contains(ParkOutcome::Paired));
        }
    }
}

/// The relay understands the client: it reads the request as one line, and finds in
/// it the room, the role and the token.
pub proof fn law_requests_are_understood(room_id: Seq<char>, role: Role, token: Seq<char>)
    requires
        text::is_word(room_id),
        text::is_word(token),
        vstd::utf8::encode_utf8(request(room_id, role, token)).len() <= relay::MAX_AUTH_LINE,
    ensures
        ({
            let line = request(room_id, role, token);
            let bytes = vstd::utf8::encode_utf8(line);
            &&& relay::line_state(vstd::utf8::encode_utf8(line + "\n"@))
                == relay::LineState::Closed(bytes)
            &&& vstd::utf8::valid_utf8(bytes)
            &&& vstd::utf8::decode_utf8(bytes) == line
            &&& relay::auth_fields(line) == Ok::<relay::AuthView, relay::RelayError>(
                relay::AuthView { room_id, role, token },
            )
        }),
{
    reveal_strlit("RELAY ");
    reveal_strlit("RELAY");
    reveal_strlit(" ");
    reveal_strlit("\n");
    reveal_strlit("host");
    reveal_strlit("join");
    let line = request(room_id, role, token);
    let bytes = vstd::utf8::encode_utf8(line);
    // The words of the line.
    let r = role.text();
    let empty = Seq::<char>::empty();
    let end = seq![' '] + (token + empty);
    let mid = seq![' '] + (r + end);
    let tail = seq![' '] + (room_id + mid);
    assert(line =~= "RELAY"@ + tail);
    text::lemma_words_first("RELAY"@, tail);
    text::lemma_words_after_space(' ', room_id + mid);
    text::lemma_words_first(room_id, mid);
    text::lemma_words_after_space(' ', r + end);
    text::lemma_words_first(r, end);
    text::lemma_words_after_space(' ', token + empty);
    text::lemma_words_first(token, empty);
    assert(text::words(empty) =~= seq![]);
    assert(text::words(line) =~= seq!["RELAY"@, room_id, r, token]);
    assert("host"@[0] != "join"@[0]);
    // The bytes of the line.
    vstd::utf8::encode_utf8_valid_utf8(line);
    vstd::utf8::encode_utf8_decode_utf8(line);
    assert forall|i: int| 0 <= i < line.len() implies #[trigger] line[i] != '\n' by {
        let a = "RELAY "@.len() as int;
        let b = a + room_id.len();
        let c = b + 1 + r.len();
        if a <= i < b {
            assert(line[i] == room_id[i - a]);
        } else if c + 1 <= i {
            assert(line[i] == token[i - c - 1]);
        }
    }
    text::lemma_encode_keeps_lines_whole(line);
    text::lemma_encode_concat(line, "\n"@);
    assert(vstd::utf8::encode_utf8("\n"@) =~= seq![10u8]) by {
        assert(vstd::utf8::is_ascii_chars("\n"@));
        vstd::utf8::is_ascii_chars_encode_utf8("\n"@);
    }
    let whole = vstd::utf8::encode_utf8(line + "\n"@);
    assert(whole =~= bytes.push(10u8));
    relay::lemma_line_end_is(whole, bytes.len());
    assert(whole.take(bytes.len() as int) =~= bytes);
}

/// Whoever was given the token of an open room is let in by the relay.
pub proof fn law_token_holders_are_let_in(
    rooms: Map<Seq<char>, RoomView>,
    room_id: Seq<char>,
    role: Role,
)
    requires
        rooms::is_room_id(room_id),
        rooms.contains_key(room_id),
        rooms::is_token(rooms[room_id].relay_token),
    ensures
        ({
            let line = request(room_id, role, rooms[room_id].relay_token);
            &&& relay::authorized(line, rooms) == Ok::<(Seq<char>, Role), relay::RelayError>(
                (room_id, role),
            )
            &&& relay::line_state(vstd::utf8::encode_utf8(line + "\n"@))
                == relay::LineState::Closed(vstd::utf8::encode_utf8(line))
        }),
{
    let token = rooms[room_id].relay_token;
    let line = request(room_id, role, token);
    reveal_strlit("RELAY ");
    reveal_strlit(" ");
    reveal_strlit("host");
    reveal_strlit("join");
    assert forall|i: int| 0 <= i < room_id.len() implies !text::is_space(#[trigger] room_id[i]) by {
        assert(rooms::is_room_char(room_id[i]));
    }
    assert forall|i: int| 0 <= i < token.len() implies !text::is_space(#[trigger] token[i]) by {
        assert(encoding::is_url_safe(token[i]));
    }
    assert forall|i: int| 0 <= i < line.len() implies '\0' <= #[trigger] line[i] <= '\u{7f}' by {
        let a = 6int;
        let b = a + room_id.len();
        let c = b + 1 + role.text().len();
        if a <= i < b {
            assert(line[i] == room_id[i - a]);
            assert(rooms::is_room_char(room_id[i - a]));
        } else if c + 1 <= i {
            assert(line[i] == token[i - c - 1]);
            assert(encoding::is_url_safe(token[i - c - 1]));
        }
    }
    assert(vstd::utf8::is_ascii_chars(line));
    vstd::utf8::is_ascii_chars_encode_utf8(line);
    law_requests_are_understood(room_id, role, token);
}

/// An answer of the relay, without its newline, and its bytes.
proof fn lemma_auth_reply(outcome: Result<(Seq<char>, Role), relay::RelayError>)
    requires
        relay::auth_reply(outcome) is Some,
    ensures
        ({
            let reply = relay::auth_reply(outcome)->0;
            let bytes = vstd::utf8::encode_utf8(reply);
            &&& 0 < reply.len() <= 32
            &&& reply.last() == '\n'
            &&& bytes.len() == reply.len()
            &&& bytes.last() == 10
            &&& forall|i: int| 0 <= i < bytes.len() - 1 ==> #[trigger] bytes[i] != 10
            &&& text::trimmed(reply) == reply.drop_last()
            &&& text::begins_with(reply.drop_last(), "OK"@) <==> outcome is Ok
        }),
{
    reveal_strlit("OK");
    reveal_strlit("OK\n");
    reveal_strlit("ERROR bad auth\n");
    reveal_strlit("ERROR invalid role\n");
    reveal_strlit("ERROR room not found\n");
    reveal_strlit("ERROR invalid token\n");
    reveal_strlit("ERROR auth line too long\n");
    let reply = relay::auth_reply(outcome)->0;
    let t = text::without_trailing_space(reply);
    assert(reply.last() == '\n');
    let cut = reply.drop_last();
    assert(!text::is_space(cut.last()));
    assert(t == text::without_trailing_space(cut));
    assert(t =~= cut);
    text::lemma_space_len_is(t, 0);
    assert(text::trimmed(reply) =~= t);
    if outcome is Ok {
        assert(t.subrange(0, 2) =~= "OK"@);
    } else {
        assert(t.subrange(0, 2)[0] != "OK"@[0]);
    }
    assert(vstd::utf8::is_ascii_chars(reply));
    vstd::utf8::is_ascii_chars_encode_utf8(reply);
    let bytes = vstd::utf8::encode_utf8(reply);
    assert forall|i: int| 0 <= i < bytes.len() - 1 implies #[trigger] bytes[i] != 10 by {
        assert(reply[i] != '\n');
        assert(bytes[i] == reply[i] as u8);
    }
}

/// The client understands the relay: it takes the relay's `OK` for a yes, and each
/// of the relay's errors for a no.
pub proof fn law_replies_are_understood(outcome: Result<(Seq<char>, Role), relay::RelayError>)
    requires
        relay::auth_reply(outcome) is Some,
    ensures
        reply_is_ok(relay::auth_reply(outcome)->0) <==> outcome is Ok,
{
    lemma_auth_reply(outcome);
}

/// Of a stream that begins with an answer of the relay, the client takes just that
/// answer, whatever follows it: it goes on until the last byte of the answer, and no
/// further. So what a peer sends behind the `OK` reaches Minecraft.
pub proof fn law_bytes_behind_the_reply_are_left(
    outcome: Result<(Seq<char>, Role), relay::RelayError>,
    behind: Seq<u8>,
)
    requires
        relay::auth_reply(outcome) is Some,
    ensures
        ({
            let reply = vstd::utf8::encode_utf8(relay::auth_reply(outcome)->0);
            let stream = reply + behind;
            &&& forall|i: int| 0 <= i < reply.len() ==> reply_open(#[trigger] stream.take(i))
            &&& stream.take(reply.len() as int) == reply
            &&& !reply_open(reply)
        }),
{
    let reply = vstd::utf8::encode_utf8(relay::auth_reply(outcome)->0);
    let stream = reply + behind;
    lemma_auth_reply(outcome);
    assert(stream.take(reply.len() as int) =~= reply);
    assert(reply[reply.len() - 1] == 10);
    assert forall|i: int| 0 <= i < reply.len() implies reply_open(#[trigger] stream.take(i)) by {
        let seen = stream.take(i);
        assert forall|j: int| 0 <= j < seen.len() implies #[trigger] seen[j] != 10 by {
            assert(seen[j] == reply[j]);
        }
    }
}

/// A refused login is told in the relay's own words, without their newline.
pub proof fn law_refusals_are_told_in_the_relays_words(
    why: relay::RelayError,
    r: Result<(), RelayError>,
    relay_addr: Seq<char>,
)
    requires
        why.answer() is Some,
    ensures
        ({
            let reply = why.answer()->0;
            judged(vstd::utf8::encode_utf8(reply), r) ==> r is Err && r->Err_0.text(relay_addr)
                == "relay auth failed: "@ + reply.drop_last()
        }),
{
    let outcome = Err::<(Seq<char>, Role), relay::RelayError>(why);
    let reply = why.answer()->0;
    lemma_auth_reply(outcome);
    vstd::utf8::encode_utf8_valid_utf8(reply);
    vstd::utf8::encode_utf8_decode_utf8(reply);
}

/// A pool dials just when it may: while the host shares, once the wait is over, and up
/// to its size. Where it has failed it waits as long as it should, and never longer
/// than 30 seconds.
pub proof fn law_pools_dial_when_they_may(pool: PoolView, cancelled: bool, waited: bool)
    requires
        0 <= pool.backoff <= 30_000,
    ensures
        ({
            let step = pool_step(pool, cancelled, waited);
            let held = pool.backoff > 0 && !waited;
            &&& step == PoolStep::Stop <==> cancelled
            &&& step == PoolStep::Dial <==> !cancelled && !held && pool.parked < pool.size
            &&& step == PoolStep::Full <==> !cancelled && !held && pool.parked >= pool.size
            &&& !cancelled && held ==> (step matches PoolStep::Wait(ms) && ms == pool.backoff)
        }),
{
}

/// A connection that ends gives its place back, whatever the outcome. A joiner ends the
/// wait after failures, a failure lengthens it, and a stop leaves it.
pub proof fn law_ended_connections_give_their_place_back(pool: PoolView, outcome: ParkOutcome)
    requires
        0 <= pool.backoff <= 30_000,
    ensures
        ({
            let next = pool_after(pool, outcome);
            &&& next.size == pool.size
            &&& next.parked == pool.parked - 1
            &&& next.paired <==> pool.paired || outcome == ParkOutcome::Paired
            &&& outcome == ParkOutcome::Paired ==> next.backoff == 0
            &&& outcome == ParkOutcome::Cancelled ==> next.backoff == pool.backoff
            &&& outcome == ParkOutcome::Failed ==> next.backoff > pool.backoff || next.backoff
                == 30_000
        }),
{
}

/// A parked connection has its joiner as soon as anything can be read of it; that
/// nothing can any more means that the relay has closed it.
pub proof fn law_parked_connections_end_with_their_first_byte(n: usize)
    ensures
        parked_outcome(ParkEvent::Readable(n)) == Some(ParkOutcome::Paired) <==> n > 0,
        parked_outcome(ParkEvent::Readable(n)) is None <==> n == 0,
        parked_outcome(ParkEvent::Cancelled) == Some(ParkOutcome::Cancelled),
{
}

/// The first joiner is announced once, and the first failure of a row is warned of.
pub proof fn law_notices_tell_what_is_new(pool: PoolView, outcome: ParkOutcome)
    requires
        0 <= pool.backoff <= 30_000,
    ensures
        ({
            let notice = pool_notice(pool, outcome);
            let next = pool_after(pool, outcome);
            &&& notice.first_pair <==> next.paired && !pool.paired
            &&& notice.warn <==> pool.backoff == 0 && next.backoff > 0
        }),
{
}

/// The relay's address is told where it could not be reached in time.
pub proof fn law_timeouts_name_the_relay(relay_addr: Seq<char>)
    ensures
        text::contains_text(RelayError::ConnectTimeout.text(relay_addr), relay_addr),
{
    let m = RelayError::ConnectTimeout.text(relay_addr);
    let k = "relay connect timeout (addr="@.len() as int;
    assert(m.subrange(k, k + relay_addr.len()) =~= relay_addr);
    assert(text::occurs_at(m, relay_addr, k));
}

/// The two sides of the relay wait for each other as long: for the credentials, and for
/// the other side, which may come as long as there is the room. A connection that has
/// died is noticed in less than two minutes, long before that.
pub proof fn law_both_sides_wait_alike()
    ensures
        AUTH_READ_TIMEOUT_S == relay::AUTH_TIMEOUT_S,
        AUTH_READ_TIMEOUT_S == 10,
        CONNECT_TIMEOUT_S < AUTH_READ_TIMEOUT_S,
        relay::PARK_TIMEOUT_S * 1_000_000_000 == rooms::ROOM_EXPIRY_NS,
        KEEPALIVE_IDLE_S == 3 * KEEPALIVE_INTERVAL_S,
        KEEPALIVE_IDLE_S + KEEPALIVE_RETRIES * KEEPALIVE_INTERVAL_S == 105,
        REPLY_BUFFER < relay::MAX_AUTH_LINE,
{
}

/// An answer that begins with OK lets in, whatever space stands before it. Any other is
/// told as it is, spaces aside, and none at all means that the relay has closed the
/// stream.
pub proof fn law_answers_are_judged_by_their_beginning(
    a: Seq<char>,
    rest: Seq<char>,
    other: Seq<char>,
    r: Result<(), RelayError>,
)
    requires
        text::all_space(a),
        rest.len() > 0 ==> !text::is_space(rest.last()),
        other.len() > 0,
        !text::is_space(other[0]),
        !text::is_space(other.last()),
        !text::begins_with(other, "OK"@),
    ensures
        judged(vstd::utf8::encode_utf8(a + ("OK"@ + rest)), r) ==> r is Ok,
        judged(vstd::utf8::encode_utf8(a + other), r) ==> (r matches Err(
            RelayError::AuthFailed(t),
        ) && t@ == other),
        judged(Seq::<u8>::empty(), r) <==> r == Err::<(), RelayError>(
            RelayError::ClosedBeforeReply,
        ),
{
    let none = Seq::<char>::empty();
    let good = "OK"@ + rest;
    reveal_strlit("OK");
    text::law_ascii_space('O');
    text::law_ascii_space('K');
    text::law_texts_are_found_where_they_stand(none, "OK"@, rest);
    text::law_trimmed_is_what_stands_between(a, good, none);
    text::law_trimmed_is_what_stands_between(a, other, none);
    assert(a + good + none =~= a + good);
    assert(a + other + none =~= a + other);
    vstd::utf8::encode_utf8_valid_utf8(a + good);
    vstd::utf8::encode_utf8_decode_utf8(a + good);
    vstd::utf8::encode_utf8_valid_utf8(a + other);
    vstd::utf8::encode_utf8_decode_utf8(a + other);
    if vstd::utf8::encode_utf8(a + good).len() == 0 {
        assert(vstd::utf8::decode_utf8(vstd::utf8::encode_utf8(a + good)).len() == 0);
    }
    if vstd::utf8::encode_utf8(a + other).len() == 0 {
        assert(vstd::utf8::decode_utf8(vstd::utf8::encode_utf8(a + other)).len() == 0);
    }
}

} // verus!
