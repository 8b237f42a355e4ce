//! The coordination server, as the client sees it: what is sent, and what the
//! replies mean.
use crate::text;
use vstd::prelude::*;
use vstd::string::*;

verus! {

// ── Shared types ─────────────────────────────────────────────────────────────

#[derive(Debug)]
pub struct CreateRoomRequest {
    pub host_pubkey: String,
    pub host_stun: String,
    pub cert_fingerprint: String,
}

#[derive(Debug)]
pub struct CreateRoomResponse {
    pub room_id: String,
    pub host_token: String,
    pub relay_token: String,
    pub relay_addr: String,
    pub share_url: String,
}

#[derive(Debug)]
pub struct JoinRoomRequest {
    pub join_pubkey: String,
    pub join_stun: String,
}

#[derive(Debug)]
pub struct JoinRoomResponse {
    pub host_pubkey: String,
    pub host_stun: String,
    pub cert_fingerprint: String,
    pub relay_token: String,
    pub relay_addr: String,
}

/// A joiner with its 0-based index in the room's peer list.
#[derive(Debug)]
pub struct IndexedPeer {
    pub idx: usize,
    pub join_pubkey: String,
    pub join_stun: String,
}

/// How long a call may take, in seconds.
pub const CALL_TIMEOUT_S: u64 = 15;

/// The HTTP method of a call.
#[derive(Clone, Copy, Debug, PartialEq, Eq, Structural)]
pub enum Method {
    Get,
    Post,
}

/// A call to the coordination server.
#[derive(Debug)]
pub struct Call {
    pub method: Method,
    pub url: String,
    /// The bearer token to authorise with.
    pub bearer: Option<String>,
}

/// A reply that is no success: which call it answers, and what it says.
#[derive(Debug)]
pub struct CallError {
    pub message: String,
}

// ── Calls ────────────────────────────────────────────────────────────────────

/// The path of a room's resource.
pub open spec fn room_url(base: Seq<char>, room_id: Seq<char>, leaf: Seq<char>) -> Seq<char> {
    base + "/api/v1/rooms/"@ + room_id + leaf
}

/// The call opens a room.
pub open spec fn opens_a_room(base: Seq<char>, r: Call) -> bool {
    r.method == Method::Post && r.url@ == base + "/api/v1/rooms"@ && r.bearer is None
}

/// The call asks for a room's joiners from an index on.
pub open spec fn asks_for_joiners(
    base: Seq<char>,
    room_id: Seq<char>,
    host_token: Seq<char>,
    after: usize,
    r: Call,
) -> bool {
    &&& r.method == Method::Get
    &&& r.url@ == poll_url(base, room_id, after)
    &&& r.bearer matches Some(t) && t@ == host_token
}

/// The call joins a room.
pub open spec fn joins_a_room(base: Seq<char>, room_id: Seq<char>, r: Call) -> bool {
    r.method == Method::Post && r.url@ == room_url(base, room_id, "/join"@) && r.bearer is None
}

/// The URL that asks for a room's joiners from an index on.
pub open spec fn poll_url(base: Seq<char>, room_id: Seq<char>, after: usize) -> Seq<char> {
    room_url(base, room_id, "/peers?after="@) + text::decimal(after as nat)
}

/// A client of one coordination server.
#[derive(Debug)]
pub struct Client {
    base_url: String,
}

impl Client {
    /// The server's URL, without a slash at its end.
    pub closed spec fn base(self) -> Seq<char> {
        self.base_url@
    }

    /// A client of the server at `base_url`, with or without slashes at its end.
    pub fn new(base_url: String) -> (r: Self)
        ensures
            r.base() == text::without_trailing(base_url@, '/'),
    {
        let c = text::chars_of(base_url.as_str());
        let t = text::trim_end_char(c.as_slice(), '/');
        Self { base_url: text::string_of(t.as_slice()) }
    }

    /// The call that registers a room.
    pub fn create_room(&self) -> (r: Call)
        ensures
            opens_a_room(self.base(), r),
            r.method == Method::Post,
            r.url@ == self.base() + "/api/v1/rooms"@,
            r.bearer is None,
    {
        let mut url = self.base_url.clone();
        url.append("/api/v1/rooms");
        Call { method: Method::Post, url, bearer: None }
    }

    /// The call that asks for the joiners with an index of at least `after_idx`.
    pub fn poll_peers(&self, room_id: &str, host_token: &str, after_idx: usize) -> (r: Call)
        ensures
            asks_for_joiners(self.base(), room_id@, host_token@, after_idx, r),
            r.method == Method::Get,
            r.url@ == room_url(self.base(), room_id@, "/peers?after="@) + text::decimal(
                after_idx as nat,
            ),
            r.url@ == poll_url(self.base(), room_id@, after_idx),
            r.bearer matches Some(t) && t@ == host_token@,
    {
        let mut url = self.base_url.clone();
        url.append("/api/v1/rooms/");
        url.append(room_id);
        url.append("/peers?after=");
        text::push_number(&mut url, after_idx as u64);
        Call { method: Method::Get, url, bearer: Some(String::from_str(host_token)) }
    }

    /// The call that joins a room.
    pub fn join_room(&self, room_id: &str) -> (r: Call)
        ensures
            joins_a_room(self.base(), room_id@, r),
            r.method == Method::Post,
            r.url@ == room_url(self.base(), room_id@, "/join"@),
            r.bearer is None,
    {
        let mut url = self.base_url.clone();
        url.append("/api/v1/rooms/");
        url.append(room_id);
        url.append("/join");
        Call { method: Method::Post, url, bearer: None }
    }
}

// ── Replies ──────────────────────────────────────────────────────────────────

/// The status codes that report success.
pub open spec fn is_success(code: u16) -> bool {
    200 <= code < 300
}

/// Tells whether a status code reports success.
pub fn succeeded(code: u16) -> (r: bool)
    ensures
        r == is_success(code),
{
    200 <= code && code < 300
}

/// The message of a reply that is no success.
pub open spec fn refusal(call: Seq<char>, status: Seq<char>, body: Seq<char>) -> Seq<char> {
    call + " "@ + status + ": "@ + body
}

/// Tells success from failure. `status` is the status line and `body` the text of
/// the reply.
pub fn check_reply(call: &str, code: u16, status: &str, body: &str) -> (r: Result<(), CallError>)
    ensures
        r is Ok <==> is_success(code),
        r matches Err(e) ==> e.message@ == refusal(call@, status@, body@),
{
    if succeeded(code) {
        Ok(())
    } else {
        let mut message = String::from_str(call);
        message.append(" ");
        message.append(status);
        message.append(": ");
        message.append(body);
        Err(CallError { message })
    }
}

/// What a reply to a poll for joiners means.
#[derive(Clone, Copy, Debug, PartialEq, Eq, Structural)]
pub enum PollReply {
    /// The reply lists joiners.
    Peers,
    /// The room is gone: no one can join any more.
    Expired,
    /// The poll failed and may be tried again.
    Failed,
}

/// What a reply to a poll for joiners means.
pub open spec fn poll_reply(code: u16) -> PollReply {
    if is_success(code) {
        PollReply::Peers
    } else if code == 404 {
        PollReply::Expired
    } else {
        PollReply::Failed
    }
}

/// What a reply to a poll for joiners means.
pub fn read_poll_reply(code: u16) -> (r: PollReply)
    ensures
        r == poll_reply(code),
{
    if succeeded(code) {
        PollReply::Peers
    } else if code == 404 {
        PollReply::Expired
    } else {
        PollReply::Failed
    }
}

// ── Waiting for the first joiner ─────────────────────────────────────────────

/// How long to wait between two polls.
pub const POLL_PAUSE_MS: u64 = 2000;

/// What a wait for a joiner does next.
#[derive(Debug)]
pub enum WaitStep {
    /// The deadline has passed.
    TimedOut,
    /// Ask the server for joiners.
    Poll(Call),
    /// This is the joiner.
    Found(IndexedPeer),
    /// Sleep for so many milliseconds, then look at the clock again.
    Sleep(u64),
}

impl Client {
    /// What a wait for a joiner with an index of at least `after_idx` does when it
    /// looks at the clock.
    pub fn wait_for_peer(
        &self,
        room_id: &str,
        host_token: &str,
        after_idx: usize,
        now: u64,
        deadline: u64,
    ) -> (r: WaitStep)
        ensures
            match r {
                WaitStep::TimedOut => now >= deadline,
                WaitStep::Poll(call) => {
                    &&& now < deadline
                    &&& call.method == Method::Get
                    &&& call.url@ == room_url(self.base(), room_id@, "/peers?after="@)
                        + text::decimal(after_idx as nat)
                    &&& call.url@ == poll_url(self.base(), room_id@, after_idx)
                    &&& call.bearer matches Some(t) && t@ == host_token@
                },
                _ => false,
            },
    {
        if now >= deadline {
            WaitStep::TimedOut
        } else {
            WaitStep::Poll(self.poll_peers(room_id, host_token, after_idx))
        }
    }
}

/// The message of a wait that nobody has ended.
pub fn wait_timed_out() -> (r: &'static str)
    ensures
        r@ == "Timed out waiting for someone to join"@,
{
    "Timed out waiting for someone to join"
}

/// What a wait does with the joiners that a poll has listed.
pub open spec fn poll_result(peers: Seq<IndexedPeer>) -> WaitStep {
    if peers.len() > 0 {
        WaitStep::Found(peers[0])
    } else {
        WaitStep::Sleep(POLL_PAUSE_MS)
    }
}

/// What a wait does with the joiners that a poll has listed: the first of them
/// ends it.
pub fn after_poll(peers: Vec<IndexedPeer>) -> (r: WaitStep)
    ensures
        r == poll_result(peers@),
        peers@.len() > 0 ==> r == WaitStep::Found(peers@[0]),
        peers@.len() == 0 ==> r == WaitStep::Sleep(POLL_PAUSE_MS),
{
    let mut peers = peers;
    if peers.len() > 0 {
        WaitStep::Found(peers.remove(0))
    } else {
        WaitStep::Sleep(POLL_PAUSE_MS)
    }
}

// ── Room ids ─────────────────────────────────────────────────────────────────

/// The room that a share URL or a bare room code names: what follows the last
/// slash, slashes at the end aside.
pub open spec fn room_of(target: Seq<char>) -> Seq<char> {
    text::after_last(text::without_trailing(target, '/'), '/')
}

/// The room that a share URL or a bare room code names.
pub fn parse_room_id(target: &str) -> (r: String)
    ensures
        r@ == room_of(target@),
{
    let c = text::chars_of(target);
    let t = text::trim_end_char(c.as_slice(), '/');
    let last = text::last_segment(t.as_slice(), '/');
    text::string_of(last.as_slice())
}

/// The text can be a room code: it is not empty and holds no slash.
pub open spec fn is_room_code(id: Seq<char>) -> bool {
    id.len() > 0 && forall|i: int| 0 <= i < id.len() ==> #[trigger] id[i] != '/'
}

/// A bare room code names itself.
pub proof fn law_bare_code_names_itself(id: Seq<char>)
    requires
        is_room_code(id),
    ensures
        room_of(id) == id,
{
    assert(id.last() == id[id.len() - 1]);
    text::lemma_after_last_is(id, '/', 0);
    assert(id.skip(0) =~= id);
}

/// A URL that ends in a slash and a room code names that room, whatever precedes
/// it, and however many slashes follow.
pub proof fn law_url_names_its_room(prefix: Seq<char>, id: Seq<char>, slashes: nat)
    requires
        is_room_code(id),
    ensures
        room_of(prefix + "/"@ + id + Seq::new(slashes, |i: int| '/')) == id,
    decreases slashes,
{
    reveal_strlit("/");
    let tail = Seq::new(slashes, |i: int| '/');
    let url = prefix + "/"@ + id + tail;
    if slashes == 0 {
        assert(url =~= prefix + "/"@ + id);
        assert(url.last() == id[id.len() - 1]);
        text::lemma_after_last_is(url, '/', prefix.len() as int + 1);
        assert(url.skip(prefix.len() as int + 1) =~= id);
    } else {
        law_url_names_its_room(prefix, id, (slashes - 1) as nat);
        assert(url.last() == '/');
        assert(url.drop_last() =~= prefix + "/"@ + id + Seq::new(
            (slashes - 1) as nat,
            |i: int| '/',
        ));
    }
}

/// The server's URL may end in slashes or not: the calls are the same.
pub proof fn law_slashes_at_the_end_do_not_count(base: Seq<char>, n: nat)
    ensures
        text::without_trailing(base + Seq::new(n, |i: int| '/'), '/') == text::without_trailing(
            base,
            '/',
        ),
    decreases n,
{
    let s = base + Seq::new(n, |i: int| '/');
    if n > 0 {
        assert(s.last() == '/');
        assert(s.drop_last() =~= base + Seq::new((n - 1) as nat, |i: int| '/'));
        law_slashes_at_the_end_do_not_count(base, (n - 1) as nat);
    } else {
        assert(s =~= base);
    }
}

/// The URL of a poll says from which index on joiners are asked for: the number behind
/// its last equals sign is that index.
pub proof fn law_polls_name_their_index(base: Seq<char>, room_id: Seq<char>, after: usize)
    ensures
        text::number(text::after_last(poll_url(base, room_id, after), '='), usize::MAX as int)
            == Some(after as int),
        text::begins_with(poll_url(base, room_id, after), base + "/api/v1/rooms/"@ + room_id),
{
    reveal_strlit("/peers?after=");
    let d = text::decimal(after as nat);
    text::lemma_decimal(after as nat);
    let url = poll_url(base, room_id, after);
    let head = base + "/api/v1/rooms/"@ + room_id + "/peers?after="@.drop_last();
    assert forall|i: int| 0 <= i < d.len() implies #[trigger] d[i] != '=' by {
        assert(text::is_digit(d[i]));
    }
    assert(url =~= head + seq!['='] + d);
    text::law_last_piece_is_found(head, '=', d);
    text::lemma_number_of_decimal(after as nat, usize::MAX as int);
    let front = base + "/api/v1/rooms/"@ + room_id;
    assert(url.subrange(0, front.len() as int) =~= front);
}

/// The URLs of two calls on one room differ by what is asked of it, and those of two
/// rooms by the room: what stands between the path of the rooms and the leaf is the
/// room's id.
pub proof fn law_urls_name_their_room(base: Seq<char>, a: Seq<char>, b: Seq<char>, leaf: Seq<char>)
    requires
        room_url(base, a, leaf) == room_url(base, b, leaf),
    ensures
        a == b,
{
    let p = base + "/api/v1/rooms/"@;
    let u = room_url(base, a, leaf);
    let v = room_url(base, b, leaf);
    assert(u.len() == p.len() + a.len() + leaf.len());
    assert(v.len() == p.len() + b.len() + leaf.len());
    assert(a =~= u.subrange(p.len() as int, p.len() as int + a.len()));
    assert(b =~= v.subrange(p.len() as int, p.len() as int + b.len()));
}

/// The codes of the two hundreds are successes, and no others. Of the failures only
/// 404 means that the room is gone.
pub proof fn law_codes_are_told_by_their_hundred(code: u16)
    ensures
        is_success(code) <==> code / 100 == 2,
        poll_reply(code) == PollReply::Peers <==> code / 100 == 2,
        poll_reply(code) == PollReply::Expired <==> code == 404,
{
}

/// A refusal is told with the call that it answers, the status and the body.
pub proof fn law_refusals_are_told_in_full(call: Seq<char>, status: Seq<char>, body: Seq<char>)
    ensures
        text::begins_with(refusal(call, status, body), call),
        text::contains_text(refusal(call, status, body), status),
        refusal(call, status, body).skip(
            refusal(call, status, body).len() - body.len(),
        ) == body,
{
    let m = refusal(call, status, body);
    let k = call.len() + 1;
    reveal_strlit(" ");
    assert(m.subrange(0, call.len() as int) =~= call);
    assert(m.subrange(k as int, k as int + status.len()) =~= status);
    assert(text::occurs_at(m, status, k as int));
    assert(m.skip(m.len() - body.len()) =~= body);
}

/// The joiner that has waited longest is found first: of listed joiners, which come in
/// the order of their indices, the one with the least index. Nobody listed, the wait
/// goes on for two seconds.
pub proof fn law_first_joiner_is_found_first(peers: Seq<IndexedPeer>)
    requires
        forall|i: int, j: int|
            0 <= i <= j < peers.len() ==> (#[trigger] peers[i]).idx <= (#[trigger] peers[j]).idx,
    ensures
        peers.len() > 0 ==> (poll_result(peers) matches WaitStep::Found(p) && peers.contains(p)
            && forall|i: int| 0 <= i < peers.len() ==> p.idx <= (#[trigger] peers[i]).idx),
        peers.len() == 0 ==> poll_result(peers) == WaitStep::Sleep(2_000),
{
    if peers.len() > 0 {
        assert(peers.contains(peers[0]));
    }
}

/// Whatever is asked of a room is asked below the place where rooms are opened, under the
/// room's id. Opening and joining post something; asking for joiners does not, and is the
/// one call that presents a token: the host's.
pub proof fn law_rooms_are_asked_below_their_place(
    base: Seq<char>,
    room_id: Seq<char>,
    host_token: Seq<char>,
    after: usize,
    opening: Call,
    asking: Call,
    joining: Call,
)
    requires
        opens_a_room(base, opening),
        asks_for_joiners(base, room_id, host_token, after, asking),
        joins_a_room(base, room_id, joining),
    ensures
        opening.url@ == base + "/api/v1/rooms"@,
        joining.url@ == opening.url@ + "/"@ + room_id + "/join"@,
        asking.url@ == opening.url@ + "/"@ + room_id + "/peers?after="@ + text::decimal(
            after as nat,
        ),
        opening.method == Method::Post && joining.method == Method::Post,
        asking.method == Method::Get,
        opening.bearer is None && joining.bearer is None,
        asking.bearer matches Some(t) && t@ == host_token,
{
    reveal_strlit("/api/v1/rooms");
    reveal_strlit("/api/v1/rooms/");
    reveal_strlit("/");
    assert("/api/v1/rooms/"@ =~= "/api/v1/rooms"@ + "/"@);
    assert(joining.url@ =~= opening.url@ + "/"@ + room_id + "/join"@);
    assert(asking.url@ =~= opening.url@ + "/"@ + room_id + "/peers?after="@ + text::decimal(
        after as nat,
    ));
}

/// A room code is at least one character long and holds no slash at any place.
pub proof fn law_room_codes_hold_no_slash(id: Seq<char>, c: char)
    ensures
        !is_room_code(Seq::<char>::empty()),
        is_room_code(seq![c]) <==> c != '/',
        id.len() > 0 ==> (is_room_code(id.push(c)) <==> is_room_code(id) && c != '/'),
{
    let t = id.push(c);
    if is_room_code(t) && id.len() > 0 {
        assert(t[id.len() as int] != '/');
        assert forall|i: int| 0 <= i < id.len() implies #[trigger] id[i] != '/' by {
            assert(t[i] == id[i]);
        }
    }
    if c == '/' {
        assert(seq![c][0] == '/');
    }
}

} // verus!
