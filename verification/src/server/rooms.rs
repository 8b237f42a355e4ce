//! The rooms that hosts have opened, and who has joined them.
use crate::client::coord;
use crate::encoding;
use crate::entropy;
use dashmap::DashMap;
use crate::text;
use vstd::prelude::*;
use vstd::string::*;

verus! {

/// How long a room lives, in nanoseconds.
pub const ROOM_EXPIRY_NS: u64 = 900_000_000_000;

/// How often expired rooms are looked for, in seconds.
pub const CLEANUP_PERIOD_S: u64 = 60;

// ── Rooms ────────────────────────────────────────────────────────────────────

/// What a joiner has told of itself.
#[derive(Debug)]
pub struct PeerInfo {
    pub join_pubkey: String,
    pub join_stun: String,
}

/// A room that a host has opened.
#[derive(Debug)]
pub struct Room {
    pub room_id: String,
    pub host_token: String,
    pub relay_token: String,
    pub host_pubkey: String,
    pub host_stun: String,
    pub cert_fingerprint: String,
    /// All joiners so far; index = position in this vec.
    pub peers: Vec<PeerInfo>,
    /// When the room was opened, in nanoseconds of the server's clock.
    pub created_at: u64,
}

/// The content of a `PeerInfo`.
#[verifier::ext_equal]
pub struct PeerView {
    pub join_pubkey: Seq<char>,
    pub join_stun: Seq<char>,
}

/// The content of a `Room`.
#[verifier::ext_equal]
pub struct RoomView {
    pub room_id: Seq<char>,
    pub host_token: Seq<char>,
    pub relay_token: Seq<char>,
    pub host_pubkey: Seq<char>,
    pub host_stun: Seq<char>,
    pub cert_fingerprint: Seq<char>,
    pub peers: Seq<PeerView>,
    pub created_at: u64,
}

impl View for PeerInfo {
    type V = PeerView;

    open spec fn view(&self) -> PeerView {
        PeerView { join_pubkey: self.join_pubkey@, join_stun: self.join_stun@ }
    }
}

impl View for Room {
    type V = RoomView;

    open spec fn view(&self) -> RoomView {
        RoomView {
            room_id: self.room_id@,
            host_token: self.host_token@,
            relay_token: self.relay_token@,
            host_pubkey: self.host_pubkey@,
            host_stun: self.host_stun@,
            cert_fingerprint: self.cert_fingerprint@,
            peers: peer_views(self.peers@),
            created_at: self.created_at,
        }
    }
}

/// The contents of a list of joiners.
pub open spec fn peer_views(peers: Seq<PeerInfo>) -> Seq<PeerView> {
    peers.map_values(|p: PeerInfo| p@)
}

impl Clone for PeerInfo {
    fn clone(&self) -> (r: Self)
        ensures
            r@ == self@,
    {
        PeerInfo { join_pubkey: self.join_pubkey.clone(), join_stun: self.join_stun.clone() }
    }
}

impl Clone for Room {
    fn clone(&self) -> (r: Self)
        ensures
            r@ == self@,
    {
        let mut peers: Vec<PeerInfo> = Vec::new();
        let mut i: usize = 0;
        while i < self.peers.len()
            invariant
                i <= self.peers@.len(),
                peer_views(peers@) == peer_views(self.peers@).take(i as int),
            decreases self.peers@.len() - i,
        {
            let ghost before = peers@;
            peers.push(self.peers[i].clone());
            assert(peer_views(peers@) =~= peer_views(before).push(self.peers@[i as int]@));
            assert(peer_views(self.peers@).take(i + 1) =~= peer_views(self.peers@).take(
                i as int,
            ).push(self.peers@[i as int]@));
            i = i + 1;
        }
        assert(peer_views(peers@) =~= peer_views(self.peers@));
        Room {
            room_id: self.room_id.clone(),
            host_token: self.host_token.clone(),
            relay_token: self.relay_token.clone(),
            host_pubkey: self.host_pubkey.clone(),
            host_stun: self.host_stun.clone(),
            cert_fingerprint: self.cert_fingerprint.clone(),
            peers,
            created_at: self.created_at,
        }
    }
}

impl RoomView {
    /// The room is younger than its lifetime. A clock that stands before the
    /// room's opening counts as no time gone by.
    pub open spec fn is_fresh(self, now: u64) -> bool {
        now - self.created_at < ROOM_EXPIRY_NS
    }

    /// The room after one more joiner.
    pub open spec fn joined(self, peer: PeerView) -> RoomView {
        RoomView { peers: self.peers.push(peer), ..self }
    }

    /// The joiners from index `from` on, each with its index.
    pub open spec fn peers_from(self, from: int) -> Seq<(usize, PeerView)> {
        if from < self.peers.len() {
            Seq::new(
                (self.peers.len() - from) as nat,
                |i: int| ((from + i) as usize, self.peers[from + i]),
            )
        } else {
            seq![]
        }
    }
}

impl Room {
    /// Tells whether the room is younger than its lifetime.
    pub fn is_fresh(&self, now: u64) -> (r: bool)
        ensures
            r == self@.is_fresh(now),
    {
        now.saturating_sub(self.created_at) < ROOM_EXPIRY_NS
    }
}

// ── Outside: the concurrent map ──────────────────────────────────────────────

/// The map type of `dashmap`.
#[verifier::external_type_specification]
#[verifier::external_body]
#[verifier::reject_recursive_types(K)]
#[verifier::reject_recursive_types(V)]
#[verifier::reject_recursive_types(S)]
pub struct ExDashMap<K, V, S>(DashMap<K, V, S>);

/// The rooms that a map holds, by key.
pub uninterp spec fn rooms_in(map: DashMap<String, Room>) -> Map<Seq<char>, RoomView>;

/// No rooms at all.
pub open spec fn no_rooms() -> Map<Seq<char>, RoomView> {
    Map::empty()
}

/// `DashMap::new` makes an empty map.
#[verifier::external_body]
fn new_map() -> (r: DashMap<String, Room>)
    ensures
        rooms_in(r) == no_rooms(),
{
    DashMap::new()
}

/// `DashMap::insert` puts the value under the key, in place of what was there.
#[verifier::external_body]
fn map_insert(map: &mut DashMap<String, Room>, key: String, room: Room)
    ensures
        rooms_in(*final(map)) == rooms_in(*old(map)).insert(key@, room@),
{
    map.insert(key, room);
}

/// `DashMap::get` finds the value under the key, here to be copied.
#[verifier::external_body]
fn map_get(map: &DashMap<String, Room>, key: &str) -> (r: Option<Room>)
    ensures
        match r {
            Some(room) => rooms_in(*map).contains_key(key@) && room@ == rooms_in(*map)[key@],
            None => !rooms_in(*map).contains_key(key@),
        },
{
    map.get(key).map(|r| r.clone())
}

/// `DashMap::remove` takes the key and its value out of the map and hands them
/// over, where the key is there.
#[verifier::external_body]
fn map_remove(map: &mut DashMap<String, Room>, key: &str) -> (r: Option<(String, Room)>)
    ensures
        rooms_in(*final(map)) == rooms_in(*old(map)).remove(key@),
        match r {
            Some((k, room)) => {
                &&& rooms_in(*old(map)).contains_key(key@)
                &&& k@ == key@
                &&& room@ == rooms_in(*old(map))[key@]
            },
            None => !rooms_in(*old(map)).contains_key(key@),
        },
{
    map.remove(key)
}

/// `DashMap::retain` keeps exactly the entries that the closure accepts.
#[verifier::external_body]
fn map_retain_fresh(map: &mut DashMap<String, Room>, now: u64)
    ensures
        rooms_in(*final(map)) == fresh_rooms(rooms_in(*old(map)), now),
{
    map.retain(|_id, room| room.is_fresh(now));
}

// ── The registry ─────────────────────────────────────────────────────────────

/// The rooms that are still fresh.
pub open spec fn fresh_rooms(rooms: Map<Seq<char>, RoomView>, now: u64) -> Map<
    Seq<char>,
    RoomView,
> {
    rooms.restrict(Set::new(|id: Seq<char>| rooms.contains_key(id) && rooms[id].is_fresh(now)))
}

/// The rooms after one more joiner of room `id`, where there is such a room.
pub open spec fn rooms_joined(
    rooms: Map<Seq<char>, RoomView>,
    id: Seq<char>,
    peer: PeerView,
) -> Map<Seq<char>, RoomView> {
    if rooms.contains_key(id) {
        rooms.insert(id, rooms[id].joined(peer))
    } else {
        rooms
    }
}

/// Every open room, by its id.
pub struct Registry {
    map: DashMap<String, Room>,
}

impl View for Registry {
    type V = Map<Seq<char>, RoomView>;

    closed spec fn view(&self) -> Map<Seq<char>, RoomView> {
        rooms_in(self.map)
    }
}

impl Registry {
    /// A registry without rooms.
    pub fn new() -> (r: Self)
        ensures
            r@ == no_rooms(),
    {
        Self { map: new_map() }
    }

    /// Opens a room, in place of one with the same id.
    pub fn insert(&mut self, room: Room)
        ensures
            final(self)@ == old(self)@.insert(room@.room_id, room@),
    {
        let id = room.room_id.clone();
        map_insert(&mut self.map, id, room);
    }

    /// A copy of a room.
    pub fn get(&self, room_id: &str) -> (r: Option<Room>)
        ensures
            match r {
                Some(room) => self@.contains_key(room_id@) && room@ == self@[room_id@],
                None => !self@.contains_key(room_id@),
            },
    {
        map_get(&self.map, room_id)
    }

    /// Append a new joiner; returns the 0-based index of the new peer.
    pub fn add_peer(&mut self, room_id: &str, peer: PeerInfo) -> (r: Option<usize>)
        ensures
            final(self)@ == rooms_joined(old(self)@, room_id@, peer@),
            match r {
                Some(idx) => old(self)@.contains_key(room_id@) && idx == old(
                    self,
                )@[room_id@].peers.len(),
                None => !old(self)@.contains_key(room_id@),
            },
    {
        match map_remove(&mut self.map, room_id) {
            Some((key, taken)) => {
                let mut room = taken;
                let idx: usize = room.peers.len();
                let ghost before = room@;
                room.peers.push(peer);
                assert(room@.peers =~= before.peers.push(peer@));
                map_insert(&mut self.map, key, room);
                assert(final(self)@ =~= rooms_joined(old(self)@, room_id@, peer@));
                Some(idx)
            },
            None => {
                assert(final(self)@ =~= old(self)@);
                None
            },
        }
    }

    /// Return peers whose index is >= from_idx.
    pub fn get_peers_from(&self, room_id: &str, from_idx: usize) -> (r: Option<
        Vec<(usize, PeerInfo)>,
    >)
        ensures
            match r {
                Some(v) => self@.contains_key(room_id@) && indexed_views(v@)
                    == self@[room_id@].peers_from(from_idx as int),
                None => !self@.contains_key(room_id@),
            },
    {
        match map_get(&self.map, room_id) {
            Some(room) => Some(peers_from(room.peers.as_slice(), from_idx)),
            None => None,
        }
    }

    /// Closes a room.
    pub fn remove(&mut self, room_id: &str)
        ensures
            final(self)@ == old(self)@.remove(room_id@),
    {
        let _ = map_remove(&mut self.map, room_id);
    }

    /// Closes every room that has outlived its time.
    pub fn cleanup(&mut self, now: u64)
        ensures
            final(self)@ == fresh_rooms(old(self)@, now),
    {
        map_retain_fresh(&mut self.map, now);
    }
}

/// The contents of a list of joiners with their indices.
pub open spec fn indexed_views(v: Seq<(usize, PeerInfo)>) -> Seq<(usize, PeerView)> {
    v.map_values(|e: (usize, PeerInfo)| (e.0, e.1@))
}

/// The joiners from an index on, each with its index.
fn peers_from(peers: &[PeerInfo], from_idx: usize) -> (r: Vec<(usize, PeerInfo)>)
    ensures
        r@.len() == (if from_idx < peers@.len() {
            peers@.len() - from_idx
        } else {
            0
        }),
        forall|k: int|
            0 <= k < r@.len() ==> (#[trigger] r@[k]).0 == from_idx + k && r@[k].1@ == peers@[from_idx
                + k]@,
{
    let mut out: Vec<(usize, PeerInfo)> = Vec::new();
    let mut i: usize = from_idx;
    while i < peers.len()
        invariant
            from_idx <= i,
            i <= peers@.len() || i == from_idx,
            out@.len() == i - from_idx,
            forall|k: int|
                0 <= k < out@.len() ==> (#[trigger] out@[k]).0 == from_idx + k && out@[k].1@
                    == peers@[from_idx + k]@,
        decreases peers@.len() - i,
    {
        out.push((i, peers[i].clone()));
        i = i + 1;
    }
    out
}

// ── Identifiers ──────────────────────────────────────────────────────────────

/// The characters of room ids: `a` to `z` and `0` to `9`.
pub open spec fn is_room_char(c: char) -> bool {
    'a' <= c <= 'z' || '0' <= c <= '9'
}

/// The text is six room characters.
pub open spec fn is_room_id(id: Seq<char>) -> bool {
    id.len() == 6 && forall|i: int| 0 <= i < id.len() ==> is_room_char(#[trigger] id[i])
}

/// The `i`th of the 36 room characters.
pub open spec fn nth_room_char(i: int) -> char {
    if i < 26 {
        ('a' as int + i) as char
    } else {
        ('0' as int + (i - 26)) as char
    }
}

/// The `i`th of the 36 room characters.
fn room_char(i: usize) -> (c: char)
    requires
        i < 36,
    ensures
        c == nth_room_char(i as int),
        is_room_char(c),
{
    if i < 26 {
        (97u8 + i as u8) as char
    } else {
        (48u8 + (i - 26) as u8) as char
    }
}

/// The room id that six draws from the room characters make.
pub fn room_id_of(draws: &[usize; 6]) -> (r: String)
    requires
        forall|i: int| 0 <= i < 6 ==> #[trigger] draws@[i] < 36,
    ensures
        r@ == Seq::new(6, |i: int| nth_room_char(draws@[i] as int)),
        is_room_id(r@),
{
    let mut out = String::new();
    let mut n: usize = 0;
    while n < 6
        invariant
            n <= 6,
            forall|i: int| 0 <= i < 6 ==> #[trigger] draws@[i] < 36,
            out@ == Seq::new(n as nat, |i: int| nth_room_char(draws@[i] as int)),
            forall|i: int| 0 <= i < out@.len() ==> is_room_char(#[trigger] out@[i]),
        decreases 6 - n,
    {
        out.push(room_char(draws[n]));
        n = n + 1;
        assert(out@ =~= Seq::new(n as nat, |i: int| nth_room_char(draws@[i] as int)));
    }
    out
}

/// A random room id.
pub fn generate_room_id() -> (r: String)
    ensures
        is_room_id(r@),
{
    let draws: [usize; 6] = [
        entropy::random_below(36),
        entropy::random_below(36),
        entropy::random_below(36),
        entropy::random_below(36),
        entropy::random_below(36),
        entropy::random_below(36),
    ];
    room_id_of(&draws)
}

/// The text is 22 characters of URL-safe Base64: 128 bits.
pub open spec fn is_token(t: Seq<char>) -> bool {
    t.len() == 22 && forall|i: int| 0 <= i < t.len() ==> encoding::is_url_safe(#[trigger] t[i])
}

/// The text is 16 bytes in URL-safe Base64.
pub open spec fn encodes_16_bytes(t: Seq<char>) -> bool {
    exists|b: Seq<u8>| b.len() == 16 && t == #[trigger] encoding::url_safe(b)
}

/// The token that 16 bytes make.
pub fn token_of(bytes: &[u8]) -> (r: String)
    requires
        bytes@.len() == 16,
    ensures
        r@ == encoding::url_safe(bytes@),
        is_token(r@),
{
    encoding::url_safe_encode(bytes)
}

/// A random token: 16 random bytes in URL-safe Base64.
pub fn generate_token() -> (r: String)
    ensures
        is_token(r@),
        encodes_16_bytes(r@),
{
    let bytes = entropy::random_bytes(16);
    token_of(bytes.as_slice())
}

// ── Laws ─────────────────────────────────────────────────────────────────────

/// Every room is found under its own id.
pub open spec fn keyed(rooms: Map<Seq<char>, RoomView>) -> bool {
    forall|id: Seq<char>| #[trigger] rooms.contains_key(id) ==> rooms[id].room_id == id
}

/// Every room is found under its own id: it is so at the start, and opening a
/// room, joining, closing and clean-up keep it so.
pub proof fn law_rooms_stay_under_their_ids(
    rooms: Map<Seq<char>, RoomView>,
    room: RoomView,
    id: Seq<char>,
    peer: PeerView,
    now: u64,
)
    requires
        keyed(rooms),
    ensures
        keyed(no_rooms()),
        keyed(rooms.insert(room.room_id, room)),
        keyed(rooms_joined(rooms, id, peer)),
        keyed(rooms.remove(id)),
        keyed(fresh_rooms(rooms, now)),
{
}

/// A joiner keeps its index: whoever is listed before one more joins is listed
/// after it at the same place, and the new joiner comes last, under the index
/// that it was given.
pub proof fn law_joiners_keep_their_index(room: RoomView, peer: PeerView, from: nat)
    requires
        room.peers.len() < usize::MAX,
        from <= room.peers.len(),
    ensures
        room.joined(peer).peers_from(from as int) == room.peers_from(from as int).push(
            (room.peers.len() as usize, peer),
        ),
{
    assert(room.joined(peer).peers_from(from as int) =~= room.peers_from(from as int).push(
        (room.peers.len() as usize, peer),
    ));
}

/// A host that polls from one past the last index that it has seen misses no
/// joiner and sees none twice: the two lists put together are the whole list.
pub proof fn law_polls_cover_every_joiner(room: RoomView, from: nat, next: nat)
    requires
        from <= next <= room.peers.len(),
    ensures
        room.peers_from(from as int) == room.peers_from(from as int).take(next - from)
            + room.peers_from(next as int),
        room.peers_from(from as int).take(next - from).len() == next - from,
{
    assert(room.peers_from(from as int) =~= room.peers_from(from as int).take(next - from)
        + room.peers_from(next as int));
}

/// A room is open for its whole lifetime, and clean-up closes it after that.
pub proof fn law_rooms_live_fifteen_minutes(
    rooms: Map<Seq<char>, RoomView>,
    id: Seq<char>,
    now: u64,
)
    requires
        rooms.contains_key(id),
    ensures
        fresh_rooms(rooms, now).contains_key(id) <==> now - rooms[id].created_at
            < 15 * 60 * 1_000_000_000,
        fresh_rooms(rooms, now).contains_key(id) ==> fresh_rooms(rooms, now)[id] == rooms[id],
{
}

/// A generated room id can be a room code of a share URL.
pub proof fn law_room_ids_are_room_codes(id: Seq<char>)
    requires
        is_room_id(id),
    ensures
        coord::is_room_code(id),
{
    assert forall|i: int| 0 <= i < id.len() implies #[trigger] id[i] != '/' by {
        assert(is_room_char(id[i]));
    }
}

/// The 36 room characters are all different, and there are no others: each of the small
/// letters and of the digits is one of them.
pub proof fn law_room_characters_are_36(i: int, j: int, c: char)
    requires
        0 <= i < 36,
        0 <= j < 36,
    ensures
        is_room_char(nth_room_char(i)),
        nth_room_char(i) == nth_room_char(j) ==> i == j,
        is_room_char(c) ==> exists|k: int| 0 <= k < 36 && #[trigger] nth_room_char(k) == c,
        is_room_char(c) <==> (97 <= (c as u32) <= 122) || (48 <= (c as u32) <= 57),
{
    if 'a' <= c <= 'z' {
        assert(nth_room_char(c as int - 'a' as int) == c);
    } else if '0' <= c <= '9' {
        assert(nth_room_char(26 + (c as int - '0' as int)) == c);
    }
}

/// Joining adds one joiner to one room: it comes last there, and nothing else changes.
pub proof fn law_joining_adds_one_joiner(
    rooms: Map<Seq<char>, RoomView>,
    id: Seq<char>,
    peer: PeerView,
    other: Seq<char>,
)
    ensures
        ({
            let next = rooms_joined(rooms, id, peer);
            &&& next.contains_key(other) <==> rooms.contains_key(other)
            &&& other != id && rooms.contains_key(other) ==> next[other] == rooms[other]
            &&& rooms.contains_key(id) ==> {
                &&& next[id].peers.len() == rooms[id].peers.len() + 1
                &&& next[id].peers.drop_last() == rooms[id].peers
                &&& next[id].peers.last() == peer
                &&& next[id].room_id == rooms[id].room_id
                &&& next[id].host_token == rooms[id].host_token
                &&& next[id].relay_token == rooms[id].relay_token
                &&& next[id].created_at == rooms[id].created_at
            }
        }),
{
    if rooms.contains_key(id) {
        let next = rooms_joined(rooms, id, peer);
        assert(next[id].peers.drop_last() =~= rooms[id].peers);
    }
}

/// A token is 22 characters long, and each of them is URL-safe: none parts the words of a
/// line or the pieces of an address.
pub proof fn law_tokens_are_22_characters(t: Seq<char>, i: int)
    requires
        is_token(t),
    ensures
        t.len() == 22,
        0 <= i < 22 ==> encoding::is_url_safe(t[i]),
        0 <= i < 22 ==> !text::is_space(t[i]),
{
    if 0 <= i < 22 {
        assert(encoding::is_url_safe(t[i]));
        encoding::law_url_safe_characters(t[i]);
        text::law_ascii_space(t[i]);
    }
}

/// Sixteen bytes in URL-safe Base64 are a token's text, whichever they are.
pub proof fn law_tokens_encode_16_bytes(b: Seq<u8>)
    requires
        b.len() == 16,
    ensures
        encodes_16_bytes(encoding::url_safe(b)),
{
}

} // verus!
