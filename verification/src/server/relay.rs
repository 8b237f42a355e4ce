//! TCP relay for when peer-to-peer hole punching fails.
//!
//! Protocol (after TCP connect):
//!   Client → Server: "RELAY {room_id} {role:host|join} {relay_token}\n"
//!   Server → Client: "OK\n"  or  "ERROR {reason}\n"
//!   After OK: raw TCP bytes piped to the matched peer.
//!
//! Pairing rule:
//!   - The first arriver of a (room_id, role) is parked.
//!   - The next arriver of the opposite role takes the parked stream
//!     and the two are spliced together.
//!   - Several parks wait in the order of their arrival, so that one host
//!     can serve several joiners at a time.
//!
//! The first 3 bytes from the join side must look like a Minecraft Java
//! handshake (packet id 0x00) before anything is relayed.
use crate::entropy;
use crate::server::rooms::{Registry, RoomView};
use crate::text;
use vstd::prelude::*;
use vstd::string::*;

verus! {

/// How long an arriver has to present itself, in seconds.
pub const AUTH_TIMEOUT_S: u64 = 10;

/// How long a parked stream waits for its partner, in seconds.
pub const PARK_TIMEOUT_S: u64 = 900;

/// The longest line, in bytes, that an arriver may present itself with.
pub const MAX_AUTH_LINE: usize = 256;

/// The packet id of a Minecraft Java handshake.
pub const MC_HANDSHAKE_PACKET_ID: u8 = 0;

/// How many bytes of the join side are looked at.
pub const HANDSHAKE_HEAD: usize = 3;

/// Why a stream is not relayed.
#[derive(Clone, Copy, Debug, PartialEq, Eq, Structural)]
pub enum RelayError {
    AuthTimeout,
    Eof,
    LineTooLong,
    BadAuth,
    InvalidRole,
    RoomNotFound,
    InvalidToken,
    JoinClosed,
    NotMinecraft(u8),
}

impl RelayError {
    /// The error as the log shows it.
    pub open spec fn text(self) -> Seq<char> {
        match self {
            RelayError::AuthTimeout => "auth timeout"@,
            RelayError::Eof => "eof during auth"@,
            RelayError::LineTooLong => "auth line too long"@,
            RelayError::BadAuth => "bad auth format"@,
            RelayError::InvalidRole => "invalid role"@,
            RelayError::RoomNotFound => "room not found"@,
            RelayError::InvalidToken => "invalid relay token"@,
            RelayError::JoinClosed => "join closed before handshake"@,
            RelayError::NotMinecraft(id) => "relay rejected non-MC traffic (pkt id 0x"@ + text::hex(
                seq![id],
            ) + ")"@,
        }
    }

    /// What the client is told. Whoever has presented a line is answered, be it too
    /// long; one that presents none is not, nor is one that has been let in before.
    pub open spec fn answer(self) -> Option<Seq<char>> {
        match self {
            RelayError::BadAuth => Some("ERROR bad auth\n"@),
            RelayError::InvalidRole => Some("ERROR invalid role\n"@),
            RelayError::RoomNotFound => Some("ERROR room not found\n"@),
            RelayError::InvalidToken => Some("ERROR invalid token\n"@),
            RelayError::LineTooLong => Some("ERROR auth line too long\n"@),
            RelayError::AuthTimeout => None,
            RelayError::Eof => None,
            RelayError::JoinClosed => None,
            RelayError::NotMinecraft(_) => None,
        }
    }

    /// What the client is told.
    pub fn reply(self) -> (r: Option<&'static str>)
        ensures
            match r {
                Some(s) => self.answer() == Some(s@),
                None => self.answer() is None,
            },
    {
        match self {
            RelayError::BadAuth => Some("ERROR bad auth\n"),
            RelayError::InvalidRole => Some("ERROR invalid role\n"),
            RelayError::RoomNotFound => Some("ERROR room not found\n"),
            RelayError::InvalidToken => Some("ERROR invalid token\n"),
            RelayError::LineTooLong => Some("ERROR auth line too long\n"),
            RelayError::AuthTimeout => None,
            RelayError::Eof => None,
            RelayError::JoinClosed => None,
            RelayError::NotMinecraft(_) => None,
        }
    }

    /// The error as the log shows it.
    pub fn message(self) -> (r: String)
        ensures
            r@ == self.text(),
    {
        match self {
            RelayError::AuthTimeout => String::from_str("auth timeout"),
            RelayError::Eof => String::from_str("eof during auth"),
            RelayError::LineTooLong => String::from_str("auth line too long"),
            RelayError::BadAuth => String::from_str("bad auth format"),
            RelayError::InvalidRole => String::from_str("invalid role"),
            RelayError::RoomNotFound => String::from_str("room not found"),
            RelayError::InvalidToken => String::from_str("invalid relay token"),
            RelayError::JoinClosed => String::from_str("join closed before handshake"),
            RelayError::NotMinecraft(id) => {
                let mut s = String::from_str("relay rejected non-MC traffic (pkt id 0x");
                let bytes = [id];
                assert(bytes@ =~= seq![id]);
                let hex = text::hex_text(bytes.as_slice());
                s.append(hex.as_str());
                s.append(")");
                s
            },
        }
    }
}

// ── The auth line ────────────────────────────────────────────────────────────

/// Where the first line of `input` ends: at its first newline, or at its end.
pub open spec fn line_end(input: Seq<u8>) -> nat
    decreases input.len(),
{
    if input.len() == 0 || input[0] == 10 {
        0
    } else {
        1 + line_end(input.drop_first())
    }
}

proof fn lemma_line_end(input: Seq<u8>)
    ensures
        line_end(input) <= input.len(),
        forall|i: int| 0 <= i < line_end(input) ==> #[trigger] input[i] != 10,
        line_end(input) < input.len() ==> input[line_end(input) as int] == 10,
    decreases input.len(),
{
    if input.len() > 0 && input[0] != 10 {
        let rest = input.drop_first();
        lemma_line_end(rest);
        assert forall|i: int| 0 <= i < line_end(input) implies #[trigger] input[i] != 10 by {
            if i > 0 {
                assert(input[i] == rest[i - 1]);
            }
        }
        if line_end(input) < input.len() {
            assert(input[line_end(input) as int] == rest[line_end(rest) as int]);
        }
    }
}

pub proof fn lemma_line_end_is(input: Seq<u8>, k: nat)
    requires
        k <= input.len(),
        forall|i: int| 0 <= i < k ==> #[trigger] input[i] != 10,
        k < input.len() ==> input[k as int] == 10,
    ensures
        line_end(input) == k,
{
    lemma_line_end(input);
    if line_end(input) < k {
        assert(input[line_end(input) as int] != 10);
    }
    if k < line_end(input) {
        assert(input[k as int] != 10);
    }
}

/// What is known of the first line once `input` has come in.
pub enum LineState {
    /// The line has not ended yet.
    Open,
    /// The bytes of the line, without its newline.
    Closed(Seq<u8>),
    /// The line is longer than it may be.
    TooLong,
}

/// What is known of the first line once `input` has come in.
pub open spec fn line_state(input: Seq<u8>) -> LineState {
    let k = line_end(input);
    if k > MAX_AUTH_LINE {
        LineState::TooLong
    } else if k < input.len() {
        LineState::Closed(input.take(k as int))
    } else {
        LineState::Open
    }
}

/// What a byte has brought.
#[derive(Debug)]
pub enum LineStep {
    /// Read on.
    More,
    /// The line has ended.
    Line(String),
    /// The line is too long.
    TooLong,
}

/// Reads one line, byte by byte, so that nothing behind it is taken.
#[derive(Debug)]
pub struct LineReader {
    buf: Vec<u8>,
}

impl View for LineReader {
    type V = Seq<u8>;

    /// The bytes read so far.
    closed spec fn view(&self) -> Seq<u8> {
        self.buf@
    }
}

impl LineReader {
    /// A reader that has read nothing.
    pub fn new() -> (r: Self)
        ensures
            r@ == Seq::<u8>::empty(),
            line_state(r@) == LineState::Open,
    {
        Self { buf: Vec::new() }
    }

    /// Takes one more byte.
    pub fn read_byte(&mut self, b: u8) -> (r: LineStep)
        requires
            line_state(old(self)@) == LineState::Open,
        ensures
            match r {
                LineStep::More => {
                    &&& final(self)@ == old(self)@.push(b)
                    &&& line_state(final(self)@) == LineState::Open
                },
                LineStep::Line(s) => {
                    &&& line_state(old(self)@.push(b)) == LineState::Closed(old(self)@)
                    &&& s@ == text::utf8_lossy(old(self)@)
                    &&& vstd::utf8::valid_utf8(old(self)@) ==> s@ == vstd::utf8::decode_utf8(
                        old(self)@,
                    )
                },
                LineStep::TooLong => line_state(old(self)@.push(b)) == LineState::TooLong,
            },
            r !is More ==> final(self)@ == old(self)@,
    {
        let ghost seen = self.buf@;
        let ghost next = seen.push(b);
        proof {
            lemma_line_end(seen);
            assert forall|i: int| 0 <= i < seen.len() implies #[trigger] next[i] != 10 by {
                assert(next[i] == seen[i]);
            }
            if b == 10 {
                lemma_line_end_is(next, seen.len());
                assert(next.take(seen.len() as int) =~= seen);
            } else {
                lemma_line_end_is(next, next.len());
            }
        }
        if b == 10 {
            return LineStep::Line(text::utf8_lossy_text(self.buf.as_slice()));
        }
        if self.buf.len() >= MAX_AUTH_LINE {
            return LineStep::TooLong;
        }
        self.buf.push(b);
        LineStep::More
    }
}

// ── Authorisation ────────────────────────────────────────────────────────────

/// Which end of a room a stream belongs to.
#[derive(Clone, Copy, Debug, PartialEq, Eq, Structural)]
pub enum Role {
    Host,
    Join,
}

impl Role {
    /// The role as it is written in a line.
    pub open spec fn text(self) -> Seq<char> {
        match self {
            Role::Host => "host"@,
            Role::Join => "join"@,
        }
    }

    /// The role of the partner.
    pub open spec fn opposite(self) -> Role {
        match self {
            Role::Host => Role::Join,
            Role::Join => Role::Host,
        }
    }

    /// The role of the partner.
    pub fn partner(self) -> (r: Role)
        ensures
            r == self.opposite(),
    {
        match self {
            Role::Host => Role::Join,
            Role::Join => Role::Host,
        }
    }

    /// The role as it is written in a line.
    pub fn name(self) -> (r: &'static str)
        ensures
            r@ == self.text(),
    {
        match self {
            Role::Host => "host",
            Role::Join => "join",
        }
    }
}

/// The fields of an auth line.
pub struct AuthView {
    pub room_id: Seq<char>,
    pub role: Role,
    pub token: Seq<char>,
}

/// What an auth line says.
pub open spec fn auth_fields(line: Seq<char>) -> Result<AuthView, RelayError> {
    let w = text::words(line);
    if w.len() != 4 || w[0] != "RELAY"@ {
        Err(RelayError::BadAuth)
    } else if w[2] == "host"@ {
        Ok(AuthView { room_id: w[1], role: Role::Host, token: w[3] })
    } else if w[2] == "join"@ {
        Ok(AuthView { room_id: w[1], role: Role::Join, token: w[3] })
    } else {
        Err(RelayError::InvalidRole)
    }
}

/// Whether an auth line is let in, and as what.
pub open spec fn authorized(line: Seq<char>, rooms: Map<Seq<char>, RoomView>) -> Result<
    (Seq<char>, Role),
    RelayError,
> {
    match auth_fields(line) {
        Err(e) => Err(e),
        Ok(a) => if !rooms.contains_key(a.room_id) {
            Err(RelayError::RoomNotFound)
        } else if rooms[a.room_id].relay_token != a.token {
            Err(RelayError::InvalidToken)
        } else {
            Ok((a.room_id, a.role))
        },
    }
}

/// The answer to an auth line, where one is owed.
pub open spec fn auth_reply(outcome: Result<(Seq<char>, Role), RelayError>) -> Option<Seq<char>> {
    match outcome {
        Ok(_) => Some("OK\n"@),
        Err(e) => e.answer(),
    }
}

/// A stream that has been let in.
#[derive(Debug)]
pub struct Admission {
    pub room_id: String,
    pub role: Role,
}

/// The fields of a line that is well formed.
#[derive(Debug)]
pub struct AuthLine {
    pub room_id: String,
    pub role: Role,
    pub token: String,
}

/// Reads an auth line.
pub fn parse_auth(line: &str) -> (r: Result<AuthLine, RelayError>)
    ensures
        match r {
            Ok(a) => auth_fields(line@) == Ok::<AuthView, RelayError>(
                AuthView { room_id: a.room_id@, role: a.role, token: a.token@ },
            ),
            Err(e) => auth_fields(line@) == Err::<AuthView, RelayError>(e),
        },
{
    let chars = text::chars_of(line);
    let w = text::split_words(chars.as_slice());
    proof {
        assert(text::pieces(w@).len() == w@.len());
        assert forall|i: int| 0 <= i < w@.len() implies text::pieces(w@)[i] == #[trigger] w@[i]@ by {
        }
    }
    if w.len() != 4 {
        return Err(RelayError::BadAuth);
    }
    let head = text::string_of(w[0].as_slice());
    if !text::same_text(head.as_str(), "RELAY") {
        return Err(RelayError::BadAuth);
    }
    let role_word = text::string_of(w[2].as_slice());
    let role = if text::same_text(role_word.as_str(), "host") {
        Role::Host
    } else if text::same_text(role_word.as_str(), "join") {
        Role::Join
    } else {
        return Err(RelayError::InvalidRole);
    };
    Ok(
        AuthLine {
            room_id: text::string_of(w[1].as_slice()),
            role,
            token: text::string_of(w[3].as_slice()),
        },
    )
}

/// Decides on an auth line, and gives the answer to send.
pub fn authorize(line: &str, registry: &Registry) -> (r: (Result<Admission, RelayError>, &'static str))
    ensures
        match r.0 {
            Ok(a) => authorized(line@, registry@) == Ok::<(Seq<char>, Role), RelayError>(
                (a.room_id@, a.role),
            ),
            Err(e) => authorized(line@, registry@) == Err::<(Seq<char>, Role), RelayError>(e),
        },
        auth_reply(authorized(line@, registry@)) == Some(r.1@),
{
    let auth = match parse_auth(line) {
        Ok(a) => a,
        Err(e) => {
            let reply = match e {
                RelayError::BadAuth => "ERROR bad auth\n",
                _ => "ERROR invalid role\n",
            };
            return (Err(e), reply);
        },
    };
    match registry.get(auth.room_id.as_str()) {
        None => (Err(RelayError::RoomNotFound), "ERROR room not found\n"),
        Some(room) => if text::same_text(room.relay_token.as_str(), auth.token.as_str()) {
            (Ok(Admission { room_id: auth.room_id, role: auth.role }), "OK\n")
        } else {
            (Err(RelayError::InvalidToken), "ERROR invalid token\n")
        },
    }
}

// ── Pairing ──────────────────────────────────────────────────────────────────

/// A stream that waits for its partner. The id tells it from others of its room
/// and role, so that its timeout takes no other stream away.
pub struct Parked<T> {
    pub room_id: String,
    pub role: Role,
    pub id: u64,
    pub stream: T,
}

/// The content of a `Parked`.
pub struct ParkedView<T> {
    pub room_id: Seq<char>,
    pub role: Role,
    pub id: u64,
    pub stream: T,
}

impl<T> View for Parked<T> {
    type V = ParkedView<T>;

    open spec fn view(&self) -> ParkedView<T> {
        ParkedView { room_id: self.room_id@, role: self.role, id: self.id, stream: self.stream }
    }
}

impl<T> ParkedView<T> {
    /// The stream waits in this room, in this role.
    pub open spec fn waits_as(self, room_id: Seq<char>, role: Role) -> bool {
        self.room_id == room_id && self.role == role
    }
}

/// The oldest stream of a room and role: its place in the queue, or the queue's
/// length where there is none.
pub open spec fn oldest<T>(queue: Seq<ParkedView<T>>, room_id: Seq<char>, role: Role) -> nat
    decreases queue.len(),
{
    if queue.len() == 0 || queue[0].waits_as(room_id, role) {
        0
    } else {
        1 + oldest(queue.drop_first(), room_id, role)
    }
}

proof fn lemma_oldest<T>(queue: Seq<ParkedView<T>>, room_id: Seq<char>, role: Role)
    ensures
        oldest(queue, room_id, role) <= queue.len(),
        forall|i: int|
            0 <= i < oldest(queue, room_id, role) ==> !(#[trigger] queue[i]).waits_as(
                room_id,
                role,
            ),
        oldest(queue, room_id, role) < queue.len() ==> queue[oldest(
            queue,
            room_id,
            role,
        ) as int].waits_as(room_id, role),
    decreases queue.len(),
{
    if queue.len() > 0 && !queue[0].waits_as(room_id, role) {
        let rest = queue.drop_first();
        lemma_oldest(rest, room_id, role);
        assert forall|i: int| 0 <= i < oldest(queue, room_id, role) implies !(
        #[trigger] queue[i]).waits_as(room_id, role) by {
            if i > 0 {
                assert(queue[i] == rest[i - 1]);
            }
        }
        if oldest(queue, room_id, role) < queue.len() {
            assert(queue[oldest(queue, room_id, role) as int] == rest[oldest(
                rest,
                room_id,
                role,
            ) as int]);
        }
    }
}

/// The queue after the arrival of a stream: its partner has left, or else the
/// stream waits at the end.
pub open spec fn after_arrival<T>(
    queue: Seq<ParkedView<T>>,
    arriver: ParkedView<T>,
) -> Seq<ParkedView<T>> {
    let k = oldest(queue, arriver.room_id, arriver.role.opposite());
    if k < queue.len() {
        queue.remove(k as int)
    } else {
        queue.push(arriver)
    }
}

/// The queue after the timeout of one stream.
pub open spec fn after_timeout<T>(
    queue: Seq<ParkedView<T>>,
    room_id: Seq<char>,
    role: Role,
    id: u64,
) -> Seq<ParkedView<T>> {
    queue.filter(|p: ParkedView<T>| !(p.waits_as(room_id, role) && p.id == id))
}

/// What the arrival of a stream has led to.
pub enum Arrival<T> {
    /// The two ends of a room, to be spliced together.
    Paired { host: T, join: T },
    /// The stream waits, under this id.
    Parked(u64),
}

/// What the arrival of a stream leads to.
pub open spec fn arrival<T>(queue: Seq<ParkedView<T>>, arriver: ParkedView<T>) -> Arrival<T> {
    let k = oldest(queue, arriver.room_id, arriver.role.opposite());
    if k < queue.len() {
        match arriver.role {
            Role::Host => Arrival::Paired { host: arriver.stream, join: queue[k as int].stream },
            Role::Join => Arrival::Paired { host: queue[k as int].stream, join: arriver.stream },
        }
    } else {
        Arrival::Parked(arriver.id)
    }
}

/// The streams that wait for their partners, oldest first.
pub struct Parkers<T> {
    queue: Vec<Parked<T>>,
}

impl<T> View for Parkers<T> {
    type V = Seq<ParkedView<T>>;

    closed spec fn view(&self) -> Seq<ParkedView<T>> {
        self.queue@.map_values(|p: Parked<T>| p@)
    }
}

impl<T> Parkers<T> {
    /// Nobody waits.
    pub fn new() -> (r: Self)
        ensures
            r@ == Seq::<ParkedView<T>>::empty(),
    {
        let r = Self { queue: Vec::new() };
        assert(r@ =~= Seq::empty());
        r
    }

    /// The place of the oldest stream of a room and role.
    fn find(&self, room_id: &str, role: Role) -> (k: usize)
        ensures
            k == oldest(self@, room_id@, role),
            k <= self@.len() == self.queue@.len(),
    {
        let mut k: usize = 0;
        assert(self@.skip(0) =~= self@);
        while k < self.queue.len()
            invariant
                k <= self.queue@.len() == self@.len(),
                oldest(self@, room_id@, role) == k + oldest(self@.skip(k as int), room_id@, role),
            decreases self.queue@.len() - k,
        {
            let ghost rest = self@.skip(k as int);
            assert(rest[0] == self.queue@[k as int]@);
            let p = &self.queue[k];
            if p.role == role && text::same_text(p.room_id.as_str(), room_id) {
                return k;
            }
            assert(rest.drop_first() =~= self@.skip(k + 1));
            k = k + 1;
        }
        k
    }

    /// Takes in a stream, which waits under `id` if no partner is there.
    pub fn arrive_as(&mut self, room_id: &str, role: Role, id: u64, stream: T) -> (r: Arrival<T>)
        ensures
            final(self)@ == after_arrival(
                old(self)@,
                ParkedView { room_id: room_id@, role, id, stream },
            ),
            r == arrival(old(self)@, ParkedView { room_id: room_id@, role, id, stream }),
            ({
                let k = oldest(old(self)@, room_id@, role.opposite());
                r == (if k < old(self)@.len() {
                    let partner = old(self)@[k as int].stream;
                    match role {
                        Role::Host => Arrival::Paired { host: stream, join: partner },
                        Role::Join => Arrival::Paired { host: partner, join: stream },
                    }
                } else {
                    Arrival::Parked(id)
                })
            }),
    {
        let k: usize = self.find(room_id, role.partner());
        if k < self.queue.len() {
            let partner = self.queue.remove(k);
            assert(final(self)@ =~= old(self)@.remove(k as int));
            match role {
                Role::Host => Arrival::Paired { host: stream, join: partner.stream },
                Role::Join => Arrival::Paired { host: partner.stream, join: stream },
            }
        } else {
            let entry = Parked { room_id: String::from_str(room_id), role, id, stream };
            let ghost view = entry@;
            self.queue.push(entry);
            assert(final(self)@ =~= old(self)@.push(view));
            Arrival::Parked(id)
        }
    }

    /// Takes in a stream, which waits under a random id if no partner is there.
    pub fn arrive(&mut self, room_id: &str, role: Role, stream: T) -> (r: Arrival<T>)
        ensures
            exists|id: u64|
                r == #[trigger] arrival(
                    old(self)@,
                    ParkedView { room_id: room_id@, role, id, stream },
                ) && final(self)@ == after_arrival(
                    old(self)@,
                    ParkedView { room_id: room_id@, role, id, stream },
                ),
            match r {
                Arrival::Paired { host, join } => {
                    let k = oldest(old(self)@, room_id@, role.opposite());
                    &&& k < old(self)@.len()
                    &&& final(self)@ == old(self)@.remove(k as int)
                    &&& role == Role::Host ==> host == stream && join == old(
                        self,
                    )@[k as int].stream
                    &&& role == Role::Join ==> join == stream && host == old(
                        self,
                    )@[k as int].stream
                },
                Arrival::Parked(id) => {
                    &&& oldest(old(self)@, room_id@, role.opposite()) == old(self)@.len()
                    &&& final(self)@ == old(self)@.push(
                        ParkedView { room_id: room_id@, role, id, stream },
                    )
                },
            },
    {
        proof {
            lemma_oldest(self@, room_id@, role.opposite());
        }
        let id: u64 = entropy::random_u64();
        self.arrive_as(room_id, role, id, stream)
    }

    /// Drops one stream that has waited too long; tells whether it was still there.
    pub fn expire(&mut self, room_id: &str, role: Role, id: u64) -> (r: bool)
        ensures
            final(self)@ == after_timeout(old(self)@, room_id@, role, id),
            r == (final(self)@.len() < old(self)@.len()),
    {
        let ghost before = self@;
        let ghost keep = |p: ParkedView<T>| !(p.waits_as(room_id@, role) && p.id == id);
        let mut i: usize = 0;
        let mut gone = false;
        let ghost mut j: int = 0;
        proof {
            reveal(Seq::filter);
            assert(before.take(0).filter(keep) =~= before.take(0));
        }
        while i < self.queue.len()
            invariant
                keep == (|p: ParkedView<T>| !(p.waits_as(room_id@, role) && p.id == id)),
                self@.len() == self.queue@.len(),
                0 <= i <= j <= before.len(),
                i <= self@.len(),
                self@.take(i as int) == before.take(j).filter(keep),
                self@.skip(i as int) == before.skip(j),
                gone == (i < j),
            decreases self.queue@.len() - i,
        {
            let ghost now = self@;
            proof {
                reveal(Seq::filter);
                assert(now.skip(i as int).len() == before.skip(j).len());
                assert(now[i as int] == now.skip(i as int)[0]);
                assert(before[j] == before.skip(j)[0]);
                assert(before.take(j + 1).drop_last() =~= before.take(j));
                assert(before.take(j + 1).last() == before[j]);
                assert(now[i as int] == self.queue@[i as int]@);
                assert(before.skip(j + 1) =~= before.skip(j).drop_first());
            }
            let p = &self.queue[i];
            if p.role == role && p.id == id && text::same_text(p.room_id.as_str(), room_id) {
                let _ = self.queue.remove(i);
                gone = true;
                proof {
                    assert(self@ =~= now.remove(i as int));
                    assert(self@.take(i as int) =~= now.take(i as int));
                    assert(self@.skip(i as int) =~= now.skip(i as int).drop_first());
                }
            } else {
                proof {
                    assert(now.take(i + 1) =~= now.take(i as int).push(now[i as int]));
                    assert(now.skip(i + 1) =~= now.skip(i as int).drop_first());
                }
                i = i + 1;
            }
            proof {
                j = j + 1;
            }
        }
        proof {
            assert(self@.skip(i as int).len() == 0);
            assert(before.take(j) =~= before);
            assert(self@.take(i as int) =~= self@);
        }
        gone
    }
}

// ── The handshake ────────────────────────────────────────────────────────────

/// Whether the first bytes of the join side may be relayed.
pub open spec fn handshake(head: Seq<u8>) -> Result<(), RelayError> {
    if head[1] == MC_HANDSHAKE_PACKET_ID {
        Ok(())
    } else {
        Err(RelayError::NotMinecraft(head[1]))
    }
}

/// What a read leads to, by the bytes before it and its own; none of its own mean
/// that the stream has ended.
pub open spec fn sniffed(before: Seq<u8>, chunk: Seq<u8>) -> SniffStep {
    let head = before + chunk;
    if chunk.len() == 0 {
        SniffStep::Refuse(RelayError::JoinClosed)
    } else if head.len() < HANDSHAKE_HEAD {
        SniffStep::More((HANDSHAKE_HEAD - head.len()) as usize)
    } else {
        match handshake(head) {
            Ok(_) => SniffStep::Relay,
            Err(e) => SniffStep::Refuse(e),
        }
    }
}

/// What a read from the join side has led to.
#[derive(Debug)]
pub enum SniffStep {
    /// Read on, at most this many bytes.
    More(usize),
    /// Relay, beginning with the bytes that were looked at.
    Relay,
    /// Close both streams.
    Refuse(RelayError),
}

/// Looks at the first bytes of the join side.
#[derive(Debug)]
pub struct Sniffer {
    head: Vec<u8>,
}

impl View for Sniffer {
    type V = Seq<u8>;

    /// The bytes read so far.
    closed spec fn view(&self) -> Seq<u8> {
        self.head@
    }
}

impl Sniffer {
    /// A sniffer that has read nothing.
    pub fn new() -> (r: Self)
        ensures
            r@ == Seq::<u8>::empty(),
    {
        Self { head: Vec::new() }
    }

    /// Takes what a read has brought; nothing means that the stream has ended.
    pub fn read(&mut self, chunk: &[u8]) -> (r: SniffStep)
        requires
            old(self)@.len() < HANDSHAKE_HEAD,
            old(self)@.len() + chunk@.len() <= HANDSHAKE_HEAD,
        ensures
            final(self)@ == old(self)@ + chunk@,
            r == sniffed(old(self)@, chunk@),
            r == (if chunk@.len() == 0 {
                SniffStep::Refuse(RelayError::JoinClosed)
            } else if final(self)@.len() < HANDSHAKE_HEAD {
                SniffStep::More((HANDSHAKE_HEAD - final(self)@.len()) as usize)
            } else {
                match handshake(final(self)@) {
                    Ok(_) => SniffStep::Relay,
                    Err(e) => SniffStep::Refuse(e),
                }
            }),
    {
        self.head.extend_from_slice(chunk);
        if chunk.len() == 0 {
            SniffStep::Refuse(RelayError::JoinClosed)
        } else if self.head.len() < HANDSHAKE_HEAD {
            SniffStep::More(HANDSHAKE_HEAD - self.head.len())
        } else if self.head[1] == MC_HANDSHAKE_PACKET_ID {
            SniffStep::Relay
        } else {
            SniffStep::Refuse(RelayError::NotMinecraft(self.head[1]))
        }
    }

    /// The bytes read so far.
    pub fn head(&self) -> (r: &[u8])
        ensures
            r@ == self@,
    {
        self.head.as_slice()
    }
}

// ── Laws ─────────────────────────────────────────────────────────────────────

/// A room never has streams of both roles waiting.
pub open spec fn settled<T>(queue: Seq<ParkedView<T>>) -> bool {
    forall|i: int, j: int|
        0 <= i < queue.len() && 0 <= j < queue.len() && (#[trigger] queue[i]).room_id == (
        #[trigger] queue[j]).room_id ==> queue[i].role == queue[j].role
}

/// Nobody waits while a partner waits too: it is so at the start, and arrivals
/// and timeouts keep it so.
pub proof fn law_no_partners_both_wait<T>(
    queue: Seq<ParkedView<T>>,
    arriver: ParkedView<T>,
    room_id: Seq<char>,
    role: Role,
    id: u64,
)
    requires
        settled(queue),
    ensures
        settled(Seq::<ParkedView<T>>::empty()),
        settled(after_arrival(queue, arriver)),
        settled(after_timeout(queue, room_id, role, id)),
{
    let partner = arriver.role.opposite();
    lemma_oldest(queue, arriver.room_id, partner);
    let next = after_arrival(queue, arriver);
    let k = oldest(queue, arriver.room_id, partner);
    if k < queue.len() {
        assert forall|i: int| 0 <= i < next.len() implies #[trigger] next[i] == queue[if i < k {
            i
        } else {
            i + 1
        }] by {
        }
    } else {
        assert forall|i: int| 0 <= i < queue.len() && queue[i].room_id
            == arriver.room_id implies #[trigger] queue[i].role == arriver.role by {
            assert(!queue[i].waits_as(arriver.room_id, partner));
        }
    }
    let keep = |p: ParkedView<T>| !(p.waits_as(room_id, role) && p.id == id);
    lemma_filter_settled(queue, keep);
}

proof fn lemma_filter_keeps_all<T>(queue: Seq<ParkedView<T>>, keep: spec_fn(ParkedView<T>) -> bool)
    requires
        forall|i: int| 0 <= i < queue.len() ==> keep(#[trigger] queue[i]),
    ensures
        queue.filter(keep) == queue,
    decreases queue.len(),
{
    reveal(Seq::filter);
    if queue.len() > 0 {
        let head = queue.drop_last();
        assert forall|i: int| 0 <= i < head.len() implies keep(#[trigger] head[i]) by {
            assert(head[i] == queue[i]);
        }
        lemma_filter_keeps_all(head, keep);
        assert(keep(queue[queue.len() - 1]));
        assert(queue =~= head.push(queue.last()));
    } else {
        assert(queue.filter(keep) =~= queue);
    }
}

/// A timeout takes just its own stream out of the queue, as long as no other stream
/// of the same room and role waits under the same id; the others keep their order.
/// Where the stream is gone already, nothing changes.
pub proof fn law_timeouts_take_just_their_own<T>(
    queue: Seq<ParkedView<T>>,
    room_id: Seq<char>,
    role: Role,
    id: u64,
    k: int,
)
    requires
        0 <= k <= queue.len(),
        forall|i: int|
            0 <= i < queue.len() ==> ((#[trigger] queue[i]).waits_as(room_id, role) && queue[i].id
                == id <==> i == k),
    ensures
        after_timeout(queue, room_id, role, id) == (if k < queue.len() {
            queue.remove(k)
        } else {
            queue
        }),
{
    let keep = |p: ParkedView<T>| !(p.waits_as(room_id, role) && p.id == id);
    if k < queue.len() {
        let a = queue.take(k);
        let b = seq![queue[k]];
        let c = queue.skip(k + 1);
        assert forall|i: int| 0 <= i < a.len() implies keep(#[trigger] a[i]) by {
            assert(a[i] == queue[i]);
        }
        assert forall|i: int| 0 <= i < c.len() implies keep(#[trigger] c[i]) by {
            assert(c[i] == queue[k + 1 + i]);
        }
        lemma_filter_keeps_all(a, keep);
        lemma_filter_keeps_all(c, keep);
        assert(b.filter(keep) =~= Seq::<ParkedView<T>>::empty()) by {
            reveal_with_fuel(Seq::filter, 2);
            assert(!keep(queue[k]));
        }
        assert(queue =~= (a + b) + c);
        Seq::filter_distributes_over_add(a + b, c, keep);
        Seq::filter_distributes_over_add(a, b, keep);
        assert(queue.remove(k) =~= a + c);
        assert((a + Seq::<ParkedView<T>>::empty()) + c =~= a + c);
    } else {
        lemma_filter_keeps_all(queue, keep);
    }
}

proof fn lemma_filter_settled<T>(queue: Seq<ParkedView<T>>, keep: spec_fn(ParkedView<T>) -> bool)
    requires
        settled(queue),
    ensures
        settled(queue.filter(keep)),
{
    let f = queue.filter(keep);
    lemma_filter_members(queue, keep);
    assert forall|i: int, j: int|
        0 <= i < f.len() && 0 <= j < f.len() && (#[trigger] f[i]).room_id == (
        #[trigger] f[j]).room_id implies f[i].role == f[j].role by {
        assert(queue.contains(f[i]));
        assert(queue.contains(f[j]));
    }
}

proof fn lemma_filter_members<T>(queue: Seq<ParkedView<T>>, keep: spec_fn(ParkedView<T>) -> bool)
    ensures
        forall|i: int|
            0 <= i < queue.filter(keep).len() ==> queue.contains(#[trigger] queue.filter(keep)[i]),
    decreases queue.len(),
{
    reveal(Seq::filter);
    if queue.len() > 0 {
        let rest = queue.drop_last();
        lemma_filter_members(rest, keep);
        let f = queue.filter(keep);
        let g = rest.filter(keep);
        assert forall|i: int| 0 <= i < f.len() implies queue.contains(#[trigger] f[i]) by {
            if i < g.len() {
                assert(f[i] == g[i]);
                assert(rest.contains(g[i]));
                let n = choose|n: int| 0 <= n < rest.len() && rest[n] == g[i];
                assert(queue[n] == f[i]);
            } else {
                assert(f[i] == queue[queue.len() - 1]);
            }
        }
    }
}

/// The streams of a room and role, in the order in which they wait.
pub open spec fn waiting<T>(queue: Seq<ParkedView<T>>, room_id: Seq<char>, role: Role) -> Seq<
    ParkedView<T>,
> {
    queue.filter(|p: ParkedView<T>| p.waits_as(room_id, role))
}

/// First come, first served: an arrival takes the partner that has waited
/// longest, or else queues behind those of its own role. Nobody else's place
/// changes.
pub proof fn law_first_come_first_served<T>(
    queue: Seq<ParkedView<T>>,
    arriver: ParkedView<T>,
    room_id: Seq<char>,
    role: Role,
)
    ensures
        ({
            let partners = waiting(queue, arriver.room_id, arriver.role.opposite());
            let next = after_arrival(queue, arriver);
            let k = oldest(queue, arriver.room_id, arriver.role.opposite());
            &&& k < queue.len() <==> partners.len() > 0
            &&& partners.len() > 0 ==> {
                &&& queue[k as int] == partners[0]
                &&& waiting(next, arriver.room_id, arriver.role.opposite()) == partners.drop_first()
                &&& !(room_id == arriver.room_id && role == arriver.role.opposite()) ==> waiting(
                    next,
                    room_id,
                    role,
                ) == waiting(queue, room_id, role)
            }
            &&& partners.len() == 0 ==> {
                &&& waiting(next, arriver.room_id, arriver.role) == waiting(
                    queue,
                    arriver.room_id,
                    arriver.role,
                ).push(arriver)
                &&& !(room_id == arriver.room_id && role == arriver.role) ==> waiting(
                    next,
                    room_id,
                    role,
                ) == waiting(queue, room_id, role)
            }
        }),
{
    let partner = arriver.role.opposite();
    let k = oldest(queue, arriver.room_id, partner);
    lemma_oldest(queue, arriver.room_id, partner);
    if k < queue.len() {
        lemma_waiting_removed(queue, k as int, arriver.room_id, partner);
        lemma_waiting_removed(queue, k as int, room_id, role);
        lemma_waiting_none(queue.take(k as int), arriver.room_id, partner);
    } else {
        lemma_waiting_none(queue, arriver.room_id, partner);
        lemma_waiting_pushed(queue, arriver, arriver.room_id, arriver.role);
        lemma_waiting_pushed(queue, arriver, room_id, role);
    }
}

proof fn lemma_waiting_pushed<T>(
    queue: Seq<ParkedView<T>>,
    p: ParkedView<T>,
    room_id: Seq<char>,
    role: Role,
)
    ensures
        waiting(queue.push(p), room_id, role) == (if p.waits_as(room_id, role) {
            waiting(queue, room_id, role).push(p)
        } else {
            waiting(queue, room_id, role)
        }),
{
    reveal(Seq::filter);
    assert(queue.push(p).drop_last() =~= queue);
}

/// Without its `k`th stream a queue has the same streams waiting, but for that one.
proof fn lemma_waiting_removed<T>(
    queue: Seq<ParkedView<T>>,
    k: int,
    room_id: Seq<char>,
    role: Role,
)
    requires
        0 <= k < queue.len(),
    ensures
        waiting(queue, room_id, role) == waiting(queue.take(k), room_id, role) + (
        if queue[k].waits_as(room_id, role) {
            seq![queue[k]]
        } else {
            seq![]
        }) + waiting(queue.skip(k + 1), room_id, role),
        waiting(queue.remove(k), room_id, role) == waiting(queue.take(k), room_id, role) + waiting(
            queue.skip(k + 1),
            room_id,
            role,
        ),
        !queue[k].waits_as(room_id, role) ==> waiting(queue.remove(k), room_id, role) == waiting(
            queue,
            room_id,
            role,
        ),
{
    let head = queue.take(k);
    let tail = queue.skip(k + 1);
    let one = seq![queue[k]];
    assert(queue =~= head + one + tail);
    assert(queue.remove(k) =~= head + tail);
    lemma_waiting_parts(head, one, tail, room_id, role);
    let nobody = Seq::<ParkedView<T>>::empty();
    assert(one =~= nobody.push(queue[k]));
    lemma_waiting_none(nobody, room_id, role);
    lemma_waiting_pushed(nobody, queue[k], room_id, role);
}

proof fn lemma_waiting_parts<T>(
    head: Seq<ParkedView<T>>,
    one: Seq<ParkedView<T>>,
    tail: Seq<ParkedView<T>>,
    room_id: Seq<char>,
    role: Role,
)
    ensures
        waiting(head + one + tail, room_id, role) == waiting(head, room_id, role) + waiting(
            one,
            room_id,
            role,
        ) + waiting(tail, room_id, role),
        waiting(head + tail, room_id, role) == waiting(head, room_id, role) + waiting(
            tail,
            room_id,
            role,
        ),
{
    let f = |p: ParkedView<T>| p.waits_as(room_id, role);
    Seq::filter_distributes_over_add(head + one, tail, f);
    Seq::filter_distributes_over_add(head, one, f);
    Seq::filter_distributes_over_add(head, tail, f);
}

proof fn lemma_waiting_none<T>(queue: Seq<ParkedView<T>>, room_id: Seq<char>, role: Role)
    requires
        forall|i: int| 0 <= i < queue.len() ==> !(#[trigger] queue[i]).waits_as(room_id, role),
    ensures
        waiting(queue, room_id, role) == Seq::<ParkedView<T>>::empty(),
    decreases queue.len(),
{
    reveal(Seq::filter);
    if queue.len() > 0 {
        assert(queue.last() == queue[queue.len() - 1]);
        lemma_waiting_none(queue.drop_last(), room_id, role);
    }
}

/// An answer that tells of an error, on a line of its own.
pub open spec fn is_error_line(reply: Seq<char>) -> bool {
    text::begins_with(reply, "ERROR "@) && reply.last() == '\n'
}

/// Every line is answered, and the answer tells who is let in: `OK` goes to those
/// alone that name an open room and present its token; everyone else is told
/// that there was an error, and so is one whose line is too long.
pub proof fn law_only_token_holders_are_let_in(line: Seq<char>, rooms: Map<Seq<char>, RoomView>)
    ensures
        ({
            let reply = auth_reply(authorized(line, rooms))->0;
            let w = text::words(line);
            &&& auth_reply(authorized(line, rooms)) is Some
            &&& reply == "OK\n"@ <==> {
                &&& w.len() == 4
                &&& w[0] == "RELAY"@
                &&& (w[2] == "host"@ || w[2] == "join"@)
                &&& rooms.contains_key(w[1])
                &&& rooms[w[1]].relay_token == w[3]
            }
            &&& reply != "OK\n"@ ==> is_error_line(reply)
        }),
        RelayError::LineTooLong.answer() is Some,
        is_error_line(RelayError::LineTooLong.answer()->0),
{
    reveal_strlit("OK\n");
    reveal_strlit("ERROR bad auth\n");
    reveal_strlit("ERROR invalid role\n");
    reveal_strlit("ERROR room not found\n");
    reveal_strlit("ERROR invalid token\n");
    reveal_strlit("ERROR auth line too long\n");
    reveal_strlit("ERROR ");
    let reply = auth_reply(authorized(line, rooms))->0;
    assert("ERROR auth line too long\n"@.subrange(0, 6) =~= "ERROR "@);
    assert("OK\n"@.len() == 3);
    if reply.len() > 3 {
        assert(reply.subrange(0, 6) =~= "ERROR "@);
    }
}

/// Minecraft handshakes are let through, and nothing else: of three bytes from the join
/// side, however they come in, the stream is relayed if and only if the second one is
/// 0, whatever the first and the third are. Otherwise it is refused for that byte.
pub proof fn law_handshakes_alone_are_relayed(a: u8, b: u8, c: u8, before: Seq<u8>, chunk: Seq<u8>)
    requires
        before + chunk == seq![a, b, c],
        chunk.len() > 0,
    ensures
        sniffed(before, chunk) == SniffStep::Relay <==> b == 0,
        b != 0 ==> sniffed(before, chunk) == SniffStep::Refuse(RelayError::NotMinecraft(b)),
{
    assert((before + chunk)[1] == b);
}

/// Three bytes are looked at: with fewer, just the missing ones are read next; and a
/// stream that ends before is refused.
pub proof fn law_three_bytes_are_looked_at(before: Seq<u8>, chunk: Seq<u8>)
    requires
        before.len() + chunk.len() < 3,
    ensures
        chunk.len() > 0 ==> sniffed(before, chunk) == SniffStep::More(
            (3 - before.len() - chunk.len()) as usize,
        ),
        chunk.len() == 0 ==> sniffed(before, chunk) == SniffStep::Refuse(RelayError::JoinClosed),
{
}

/// A pair is made of two ends of one room: of the two streams that are spliced
/// together one is the arriver, the other has waited in the same room, and the host's
/// end is the one that came as a host.
pub proof fn law_pairs_join_a_host_and_a_joiner<T>(
    queue: Seq<ParkedView<T>>,
    arriver: ParkedView<T>,
)
    ensures
        match arrival(queue, arriver) {
            Arrival::Paired { host, join } => exists|i: int|
                {
                    &&& 0 <= i < queue.len()
                    &&& (#[trigger] queue[i]).room_id == arriver.room_id
                    &&& arriver.role == Role::Host ==> queue[i].role == Role::Join && host
                        == arriver.stream && join == queue[i].stream
                    &&& arriver.role == Role::Join ==> queue[i].role == Role::Host && join
                        == arriver.stream && host == queue[i].stream
                    &&& after_arrival(queue, arriver) == queue.remove(i)
                    &&& forall|j: int|
                        0 <= j < i ==> !((#[trigger] queue[j]).room_id == arriver.room_id
                            && queue[j].role != arriver.role)
                },
            Arrival::Parked(id) => {
                &&& id == arriver.id
                &&& after_arrival(queue, arriver) == queue.push(arriver)
                &&& forall|j: int|
                    0 <= j < queue.len() ==> !((#[trigger] queue[j]).room_id == arriver.room_id
                        && queue[j].role != arriver.role)
            },
        },
{
    let partner = arriver.role.opposite();
    let k = oldest(queue, arriver.room_id, partner) as int;
    lemma_oldest(queue, arriver.room_id, partner);
    assert forall|j: int| 0 <= j < k implies !((#[trigger] queue[j]).room_id == arriver.room_id
        && queue[j].role != arriver.role) by {
        assert(!queue[j].waits_as(arriver.room_id, partner));
    }
    if k < queue.len() {
        assert(queue[k].waits_as(arriver.room_id, partner));
    }
}

/// A timeout takes out every stream of that room, role and id, and no other, and the
/// others keep their order.
pub proof fn law_timeouts_name_room_role_and_id<T>(
    queue: Seq<ParkedView<T>>,
    p: ParkedView<T>,
    room_id: Seq<char>,
    role: Role,
    id: u64,
)
    ensures
        after_timeout(queue.push(p), room_id, role, id) == (if p.room_id == room_id && p.role
            == role && p.id == id {
            after_timeout(queue, room_id, role, id)
        } else {
            after_timeout(queue, room_id, role, id).push(p)
        }),
        after_timeout(Seq::<ParkedView<T>>::empty(), room_id, role, id) == Seq::<
            ParkedView<T>,
        >::empty(),
{
    reveal(Seq::filter);
    assert(queue.push(p).drop_last() =~= queue);
}

/// A line is what stands before the first newline, whatever follows; it may have 256
/// bytes, and with more it is too long as soon as they have come.
pub proof fn law_lines_end_at_their_newline(line: Seq<u8>, behind: Seq<u8>)
    requires
        forall|i: int| 0 <= i < line.len() ==> #[trigger] line[i] != 10,
    ensures
        line.len() <= 256 ==> line_state(line.push(10u8) + behind) == LineState::Closed(line),
        line.len() <= 256 ==> line_state(line) == LineState::Open,
        line.len() > 256 ==> line_state(line + behind) == LineState::TooLong,
{
    let whole = line.push(10u8) + behind;
    assert forall|i: int| 0 <= i < line.len() implies #[trigger] whole[i] != 10 by {
        assert(whole[i] == line[i]);
    }
    lemma_line_end_is(whole, line.len());
    assert(whole.take(line.len() as int) =~= line);
    lemma_line_end_is(line, line.len());
    let long = line + behind;
    lemma_line_end(long);
    if line_end(long) < line.len() {
        assert(long[line_end(long) as int] == line[line_end(long) as int]);
    }
}

/// Each refusal has its reason: four words are asked for, of which the first is
/// `RELAY`; then a role, `host` or `join`; then an open room; then its token. Who is
/// let in is let in to the room and as the role that the line names.
pub proof fn law_refusals_have_their_reason(line: Seq<char>, rooms: Map<Seq<char>, RoomView>)
    ensures
        ({
            let w = text::words(line);
            let formed = w.len() == 4 && w[0] == "RELAY"@;
            let cast = w[2] == "host"@ || w[2] == "join"@;
            let open = rooms.contains_key(w[1]);
            match authorized(line, rooms) {
                Ok((room_id, role)) => {
                    &&& formed && open
                    &&& room_id == w[1]
                    &&& w[2] == (if role == Role::Host {
                        "host"@
                    } else {
                        "join"@
                    })
                    &&& rooms[w[1]].relay_token == w[3]
                },
                Err(RelayError::BadAuth) => !formed,
                Err(RelayError::InvalidRole) => formed && !cast,
                Err(RelayError::RoomNotFound) => formed && cast && !open,
                Err(RelayError::InvalidToken) => formed && cast && open
                    && rooms[w[1]].relay_token != w[3],
                Err(_) => false,
            }
        }),
{
}

/// Each error that is answered has an answer of its own.
pub proof fn law_answers_tell_errors_apart(a: RelayError, b: RelayError)
    requires
        a.answer() is Some,
        a.answer() == b.answer(),
    ensures
        a == b,
{
    reveal_strlit("ERROR bad auth\n");
    reveal_strlit("ERROR invalid role\n");
    reveal_strlit("ERROR room not found\n");
    reveal_strlit("ERROR invalid token\n");
    reveal_strlit("ERROR auth line too long\n");
    assert("ERROR bad auth\n"@.len() == 15);
    assert("ERROR invalid role\n"@.len() == 19);
    assert("ERROR room not found\n"@.len() == 21);
    assert("ERROR invalid token\n"@.len() == 20);
    assert("ERROR auth line too long\n"@.len() == 25);
    assert(a.answer()->0.len() == b.answer()->0.len());
}

/// Traffic that is refused is named by its packet id, in two hexadecimal digits.
pub proof fn law_refused_traffic_is_named(id: u8)
    ensures
        text::contains_text(RelayError::NotMinecraft(id).text(), "0x"@ + text::hex(seq![id])),
{
    reveal_strlit("relay rejected non-MC traffic (pkt id 0x");
    reveal_strlit("0x");
    reveal_strlit(")");
    let s = RelayError::NotMinecraft(id).text();
    let p = "0x"@ + text::hex(seq![id]);
    let k = "relay rejected non-MC traffic (pkt id 0x"@.len() - 2;
    assert(s.subrange(k, k + p.len()) =~= p);
    assert(text::occurs_at(s, p, k));
}

/// A line asks for a room in a role and with a token, in this order, behind the word RELAY;
/// any space parts the words. Hosts say `host` and joiners say `join`; another word in
/// that place is told to be no role, and a line with another first word is none at all.
pub proof fn law_lines_name_room_role_and_token(
    first: Seq<char>,
    room_id: Seq<char>,
    role: Seq<char>,
    token: Seq<char>,
    c: char,
)
    requires
        text::is_word(first),
        text::is_word(room_id),
        text::is_word(role),
        text::is_word(token),
        text::is_space(c),
    ensures
        ({
            let r = auth_fields(
                first + seq![c] + (room_id + seq![c] + (role + seq![c] + token)),
            );
            &&& first != "RELAY"@ <==> r == Err::<AuthView, RelayError>(RelayError::BadAuth)
            &&& first == "RELAY"@ && role == "host"@ <==> r == Ok::<AuthView, RelayError>(
                AuthView { room_id, role: Role::Host, token },
            )
            &&& first == "RELAY"@ && role == "join"@ <==> r == Ok::<AuthView, RelayError>(
                AuthView { room_id, role: Role::Join, token },
            )
            &&& first == "RELAY"@ && role != "host"@ && role != "join"@ <==> r == Err::<
                AuthView,
                RelayError,
            >(RelayError::InvalidRole)
        }),
        auth_fields(first + seq![c] + (room_id + seq![c] + role)) == Err::<AuthView, RelayError>(
            RelayError::BadAuth,
        ),
{
    let t2 = role + seq![c] + token;
    let t3 = room_id + seq![c] + t2;
    text::law_words_are_parted_by_space(token, c, seq![]);
    text::law_words_are_parted_by_space(role, c, token);
    text::law_words_are_parted_by_space(room_id, c, t2);
    text::law_words_are_parted_by_space(first, c, t3);
    let w = text::words(first + seq![c] + t3);
    assert(w =~= seq![first, room_id, role, token]);
    text::law_words_are_parted_by_space(role, c, seq![]);
    text::law_words_are_parted_by_space(room_id, c, role);
    text::law_words_are_parted_by_space(first, c, room_id + seq![c] + role);
    let v = text::words(first + seq![c] + (room_id + seq![c] + role));
    assert(v =~= seq![first, room_id, role]);
    reveal_strlit("host");
    reveal_strlit("join");
    assert("host"@[0] == 'h' && "join"@[0] == 'j');
}

} // verus!
