//! STUN Binding requests and responses (RFC 5389), IPv4 only.
use crate::text;
use vstd::prelude::*;
use vstd::string::*;

verus! {

pub const MAGIC_COOKIE: u32 = 0x2112_A442;

pub const ATTR_XOR_MAPPED_ADDRESS: u16 = 0x0020;

/// Some servers send the deprecated MAPPED-ADDRESS instead.
pub const ATTR_MAPPED_ADDRESS: u16 = 0x0001;

/// How often a request is sent before the query is given up.
pub const MAX_ATTEMPTS: u32 = 3;

/// An IPv4 address, as a big-endian number, with a port.
#[derive(Clone, Copy, Debug, PartialEq, Eq, Structural)]
pub struct Endpoint {
    pub ip: u32,
    pub port: u16,
}

/// Why a datagram yields no address.
#[derive(Clone, Copy, Debug, PartialEq, Eq, Structural)]
pub enum StunError {
    TooShort(usize),
    NotSuccess,
    BadCookie,
    TransactionMismatch,
    NoAddress,
    XorMappedTooShort,
    XorMappedNotIpv4,
    MappedTooShort,
    MappedNotIpv4,
}

impl StunError {
    /// The error in words.
    pub open spec fn text(self) -> Seq<char> {
        match self {
            StunError::TooShort(n) => "STUN response too short ("@ + text::decimal(n as nat)
                + " bytes)"@,
            StunError::NotSuccess => "Not a STUN binding success response"@,
            StunError::BadCookie => "Invalid STUN magic cookie"@,
            StunError::TransactionMismatch => "STUN transaction ID mismatch"@,
            StunError::NoAddress => "No address attribute in STUN response"@,
            StunError::XorMappedTooShort => "XOR-MAPPED-ADDRESS too short"@,
            StunError::XorMappedNotIpv4 => "IPv6 STUN addresses are not supported yet"@,
            StunError::MappedTooShort => "MAPPED-ADDRESS too short"@,
            StunError::MappedNotIpv4 => "IPv6 MAPPED-ADDRESS not supported yet"@,
        }
    }

    /// The error in words.
    pub fn message(self) -> (r: String)
        ensures
            r@ == self.text(),
    {
        match self {
            StunError::TooShort(n) => {
                let mut m = String::from_str("STUN response too short (");
                text::push_number(&mut m, n as u64);
                m.append(" bytes)");
                m
            },
            StunError::NotSuccess => String::from_str("Not a STUN binding success response"),
            StunError::BadCookie => String::from_str("Invalid STUN magic cookie"),
            StunError::TransactionMismatch => String::from_str("STUN transaction ID mismatch"),
            StunError::NoAddress => String::from_str("No address attribute in STUN response"),
            StunError::XorMappedTooShort => String::from_str("XOR-MAPPED-ADDRESS too short"),
            StunError::XorMappedNotIpv4 => String::from_str("IPv6 STUN addresses are not supported yet"),
            StunError::MappedTooShort => String::from_str("MAPPED-ADDRESS too short"),
            StunError::MappedNotIpv4 => String::from_str("IPv6 MAPPED-ADDRESS not supported yet"),
        }
    }
}

// ── Model ────────────────────────────────────────────────────────────────────

/// Two bytes, most significant first.
pub open spec fn be16(hi: u8, lo: u8) -> u16 {
    (hi * 256 + lo) as u16
}

/// Four bytes, most significant first.
pub open spec fn be32(b: Seq<u8>) -> u32 {
    (b[0] * 0x100_0000 + b[1] * 0x1_0000 + b[2] * 0x100 + b[3]) as u32
}

/// The bytes of a number, most significant first.
pub open spec fn be_bytes(n: u32) -> Seq<u8> {
    seq![
        (n / 0x100_0000) as u8,
        (n / 0x1_0000 % 0x100) as u8,
        (n / 0x100 % 0x100) as u8,
        (n % 0x100) as u8,
    ]
}

/// A length rounded up to the four-byte boundary that attributes are padded to.
pub open spec fn padded(n: int) -> int {
    (n + 3) / 4 * 4
}

/// The Binding request of a transaction.
pub open spec fn binding_request(tid: Seq<u8>) -> Seq<u8> {
    seq![0x00u8, 0x01u8, 0x00u8, 0x00u8] + be_bytes(MAGIC_COOKIE) + tid
}

/// The attributes, each with its type and value, up to the first one that is cut
/// short.
pub open spec fn attributes(attrs: Seq<u8>) -> Seq<(u16, Seq<u8>)>
    decreases attrs.len(),
{
    if attrs.len() < 4 {
        seq![]
    } else {
        let n = be16(attrs[2], attrs[3]) as int;
        if n < 0 || 4 + n > attrs.len() {
            seq![]
        } else {
            let next = if 4 + padded(n) <= attrs.len() {
                4 + padded(n)
            } else {
                attrs.len() as int
            };
            seq![(be16(attrs[0], attrs[1]), attrs.subrange(4, 4 + n))] + attributes(attrs.skip(next))
        }
    }
}

/// The value of the first attribute of a type.
pub open spec fn value_of(list: Seq<(u16, Seq<u8>)>, atype: u16) -> Option<Seq<u8>>
    decreases list.len(),
{
    if list.len() == 0 {
        None
    } else if list[0].0 == atype {
        Some(list[0].1)
    } else {
        value_of(list.drop_first(), atype)
    }
}

/// The address in the value of a XOR-MAPPED-ADDRESS attribute.
pub open spec fn xor_mapped(v: Seq<u8>) -> Result<Endpoint, StunError> {
    if v.len() < 8 {
        Err(StunError::XorMappedTooShort)
    } else if v[1] != 0x01 {
        Err(StunError::XorMappedNotIpv4)
    } else {
        Ok(
            Endpoint {
                ip: be32(v.subrange(4, 8)) ^ MAGIC_COOKIE,
                port: be16(v[2], v[3]) ^ 0x2112u16,
            },
        )
    }
}

/// The address in the value of a MAPPED-ADDRESS attribute.
pub open spec fn mapped(v: Seq<u8>) -> Result<Endpoint, StunError> {
    if v.len() < 8 {
        Err(StunError::MappedTooShort)
    } else if v[1] != 0x01 {
        Err(StunError::MappedNotIpv4)
    } else {
        Ok(Endpoint { ip: be32(v.subrange(4, 8)), port: be16(v[2], v[3]) })
    }
}

/// The address that a list of attributes reports: XOR-MAPPED-ADDRESS takes
/// precedence, MAPPED-ADDRESS is the fallback where that is missing or holds no
/// address that can be read. Where neither can be read, the defect of the preferred
/// one is told.
pub open spec fn reported_address(list: Seq<(u16, Seq<u8>)>) -> Result<Endpoint, StunError> {
    match (value_of(list, ATTR_XOR_MAPPED_ADDRESS), value_of(list, ATTR_MAPPED_ADDRESS)) {
        (Some(v), Some(w)) => if xor_mapped(v) is Err && mapped(w) is Ok {
            mapped(w)
        } else {
            xor_mapped(v)
        },
        (Some(v), None) => xor_mapped(v),
        (None, Some(w)) => mapped(w),
        (None, None) => Err(StunError::NoAddress),
    }
}

/// The attributes of a message: as many bytes as its header announces, or as
/// there are.
pub open spec fn attribute_bytes(data: Seq<u8>) -> Seq<u8> {
    let announced = 20 + be16(data[2], data[3]);
    let end = if announced <= data.len() {
        announced
    } else {
        data.len() as int
    };
    data.subrange(20, end)
}

/// What a datagram says to the sender of transaction `tid`.
pub open spec fn binding_response(data: Seq<u8>, tid: Seq<u8>) -> Result<Endpoint, StunError> {
    if data.len() < 20 {
        Err(StunError::TooShort(data.len() as usize))
    } else if data[0] != 0x01 || data[1] != 0x01 {
        Err(StunError::NotSuccess)
    } else if be32(data.subrange(4, 8)) != MAGIC_COOKIE {
        Err(StunError::BadCookie)
    } else if data.subrange(8, 20) != tid {
        Err(StunError::TransactionMismatch)
    } else {
        reported_address(attributes(attribute_bytes(data)))
    }
}

// ── Messages ─────────────────────────────────────────────────────────────────

fn read_be16(data: &[u8], i: usize) -> (r: u16)
    requires
        i + 1 < data@.len(),
    ensures
        r == be16(data@[i as int], data@[i + 1]),
{
    (data[i] as u16) * 256 + data[i + 1] as u16
}

fn read_be32(data: &[u8], i: usize) -> (r: u32)
    requires
        i + 3 < data@.len(),
    ensures
        r == be32(data@.subrange(i as int, i + 4)),
{
    (data[i] as u32) * 0x100_0000 + (data[i + 1] as u32) * 0x1_0000 + (data[i + 2] as u32) * 0x100
        + data[i + 3] as u32
}

/// The Binding request of a transaction.
pub fn build_binding_request(tid: &[u8; 12]) -> (r: [u8; 20])
    ensures
        r@ == binding_request(tid@),
{
    let r: [u8; 20] = [
        0x00,
        0x01,
        0x00,
        0x00,
        0x21,
        0x12,
        0xA4,
        0x42,
        tid[0],
        tid[1],
        tid[2],
        tid[3],
        tid[4],
        tid[5],
        tid[6],
        tid[7],
        tid[8],
        tid[9],
        tid[10],
        tid[11],
    ];
    assert(r@ =~= binding_request(tid@));
    r
}

/// Reads the value of a XOR-MAPPED-ADDRESS attribute. An IPv4 address is masked by
/// the magic cookie alone, so the transaction has no say.
pub fn parse_xor_mapped(data: &[u8], _tid: &[u8; 12]) -> (r: Result<Endpoint, StunError>)
    ensures
        r == xor_mapped(data@),
        r is Ok <==> data@.len() >= 8 && data@[1] == 0x01,
        r is Ok <==> mapped(masked(data@)) is Ok,
        r is Ok ==> r == mapped(masked(data@)),
{
    proof {
        law_xor_mapped_is_mapped_under_the_mask(data@);
    }
    if data.len() < 8 {
        return Err(StunError::XorMappedTooShort);
    }
    if data[1] == 0x01 {
        Ok(
            Endpoint {
                ip: read_be32(data, 4) ^ MAGIC_COOKIE,
                port: read_be16(data, 2) ^ 0x2112u16,
            },
        )
    } else {
        Err(StunError::XorMappedNotIpv4)
    }
}

/// Reads the value of a MAPPED-ADDRESS attribute.
pub fn parse_mapped(data: &[u8]) -> (r: Result<Endpoint, StunError>)
    ensures
        r == mapped(data@),
        r is Ok <==> data@.len() >= 8 && data@[1] == 0x01,
{
    if data.len() < 8 {
        return Err(StunError::MappedTooShort);
    }
    if data[1] == 0x01 {
        Ok(Endpoint { ip: read_be32(data, 4), port: read_be16(data, 2) })
    } else {
        Err(StunError::MappedNotIpv4)
    }
}

/// Where the value of the first attribute of a type stands, of the attributes before
/// position `i`; where there is none, the first one is to be found behind it.
spec fn first_seen(attrs: Seq<u8>, i: int, atype: u16, at: Option<(usize, usize)>) -> bool {
    match at {
        Some(_) => first_found(attrs, atype, at),
        None => value_of(attributes(attrs), atype) == value_of(attributes(attrs.skip(i)), atype),
    }
}

/// Where the value of the first attribute of a type stands.
spec fn first_found(attrs: Seq<u8>, atype: u16, at: Option<(usize, usize)>) -> bool {
    match at {
        Some((a, b)) => a <= b <= attrs.len() && value_of(attributes(attrs), atype) == Some(
            attrs.subrange(a as int, b as int),
        ),
        None => value_of(attributes(attrs), atype) is None,
    }
}

fn parse_attributes(attrs: &[u8], tid: &[u8; 12]) -> (r: Result<Endpoint, StunError>)
    ensures
        r == reported_address(attributes(attrs@)),
{
    let ghost all = attributes(attrs@);
    let mut preferred: Option<(usize, usize)> = None;
    let mut fallback: Option<(usize, usize)> = None;
    let mut i: usize = 0;
    assert(attrs@.skip(0) == attrs@);
    while attrs.len() - i >= 4
        invariant_except_break
            i <= attrs@.len(),
            all == attributes(attrs@),
            first_seen(attrs@, i as int, ATTR_XOR_MAPPED_ADDRESS, preferred),
            first_seen(attrs@, i as int, ATTR_MAPPED_ADDRESS, fallback),
        ensures
            all == attributes(attrs@),
            first_found(attrs@, ATTR_XOR_MAPPED_ADDRESS, preferred),
            first_found(attrs@, ATTR_MAPPED_ADDRESS, fallback),
        decreases attrs@.len() - i,
    {
        let ghost rest = attrs@.skip(i as int);
        let atype = read_be16(attrs, i);
        let alen: usize = read_be16(attrs, i + 2) as usize;
        if attrs.len() - i - 4 < alen {
            break;
        }
        let a: usize = i + 4;
        let b: usize = a + alen;
        let pad: usize = (alen + 3) / 4 * 4;
        let next: usize = if attrs.len() - a >= pad {
            a + pad
        } else {
            attrs.len()
        };
        proof {
            let list = attributes(rest);
            let tail = attributes(attrs@.skip(next as int));
            assert(rest.skip(next - i) == attrs@.skip(next as int));
            assert(rest.subrange(4, 4 + alen) == attrs@.subrange(a as int, b as int));
            assert(list == seq![(atype, attrs@.subrange(a as int, b as int))] + tail);
            assert(list.drop_first() == tail);
        }
        if atype == ATTR_XOR_MAPPED_ADDRESS && preferred.is_none() {
            preferred = Some((a, b));
        }
        if atype == ATTR_MAPPED_ADDRESS && fallback.is_none() {
            fallback = Some((a, b));
        }
        i = next;
    }
    match preferred {
        Some((a, b)) => {
            let first = parse_xor_mapped(&attrs[a..b], tid);
            match fallback {
                Some((c, d)) if first.is_err() => {
                    let second = parse_mapped(&attrs[c..d]);
                    if second.is_ok() {
                        second
                    } else {
                        first
                    }
                },
                _ => first,
            }
        },
        None => match fallback {
            Some((c, d)) => parse_mapped(&attrs[c..d]),
            None => Err(StunError::NoAddress),
        },
    }
}

/// Reads a datagram as the response to the transaction `tid`.
pub fn parse_binding_response(data: &[u8], tid: &[u8; 12]) -> (r: Result<Endpoint, StunError>)
    ensures
        r == binding_response(data@, tid@),
{
    if data.len() < 20 {
        return Err(StunError::TooShort(data.len()));
    }
    if data[0] != 0x01 || data[1] != 0x01 {
        return Err(StunError::NotSuccess);
    }
    if read_be32(data, 4) != MAGIC_COOKIE {
        return Err(StunError::BadCookie);
    }
    let mut k: usize = 0;
    while k < 12
        invariant
            k <= 12,
            data@.len() >= 20,
            data@[0] == 0x01,
            data@[1] == 0x01,
            be32(data@.subrange(4, 8)) == MAGIC_COOKIE,
            forall|j: int| 0 <= j < k ==> data@[8 + j] == tid@[j],
        decreases 12 - k,
    {
        if data[8 + k] != tid[k] {
            proof {
                assert(data@.subrange(8, 20)[k as int] != tid@[k as int]);
            }
            return Err(StunError::TransactionMismatch);
        }
        k = k + 1;
    }
    assert(data@.subrange(8, 20) =~= tid@);
    let announced: usize = 20 + read_be16(data, 2) as usize;
    let end: usize = if announced <= data.len() {
        announced
    } else {
        data.len()
    };
    parse_attributes(&data[20..end], tid)
}

impl Endpoint {
    /// The address in dotted decimal, a colon and the port.
    pub open spec fn text(self) -> Seq<char> {
        let ip = self.ip as nat;
        text::decimal(ip / 0x100_0000) + "."@ + text::decimal(ip / 0x1_0000 % 0x100) + "."@
            + text::decimal(ip / 0x100 % 0x100) + "."@ + text::decimal(ip % 0x100) + ":"@
            + text::decimal(self.port as nat)
    }

    /// The address in dotted decimal, a colon and the port.
    pub fn to_text(&self) -> (r: String)
        ensures
            r@ == self.text(),
    {
        let mut out = text::number_text((self.ip / 0x100_0000) as u64);
        out.append(".");
        text::push_number(&mut out, (self.ip / 0x1_0000 % 0x100) as u64);
        out.append(".");
        text::push_number(&mut out, (self.ip / 0x100 % 0x100) as u64);
        out.append(".");
        text::push_number(&mut out, (self.ip % 0x100) as u64);
        out.append(":");
        text::push_number(&mut out, self.port as u64);
        out
    }
}

// ── Query ────────────────────────────────────────────────────────────────────

/// What an attempt ended with.
#[derive(Debug)]
pub enum StunEvent {
    /// A datagram came in.
    Datagram(Vec<u8>),
    /// Nothing came in for three seconds.
    Timeout,
    /// The socket failed.
    SocketError,
}

/// What to do after an attempt.
#[derive(Clone, Copy, Debug, PartialEq, Eq, Structural)]
pub enum StunStep {
    /// The query has its answer.
    Found(Endpoint),
    /// Send the request again.
    Resend,
    /// Stop: every attempt went without an answer.
    GiveUp,
    /// Stop: the socket failed.
    SocketFailed,
}

/// A query under way: its transaction, and how many requests have gone out.
#[derive(Clone, Copy, Debug)]
pub struct StunQuery {
    pub tid: [u8; 12],
    pub sent: u32,
}

impl StunQuery {
    /// At least one request has gone out, and no more than are allowed.
    pub open spec fn wf(self) -> bool {
        1 <= self.sent <= MAX_ATTEMPTS
    }

    /// What follows an attempt that ended with `event`.
    pub open spec fn step(self, event: StunEvent) -> StunStep {
        match event {
            StunEvent::SocketError => StunStep::SocketFailed,
            StunEvent::Datagram(d) if binding_response(d@, self.tid@) is Ok => StunStep::Found(
                binding_response(d@, self.tid@)->Ok_0,
            ),
            _ => if self.sent < MAX_ATTEMPTS {
                StunStep::Resend
            } else {
                StunStep::GiveUp
            },
        }
    }

    /// The query whose first request goes out now.
    pub fn start(tid: [u8; 12]) -> (r: StunQuery)
        ensures
            r.wf(),
            r.tid == tid,
            r.sent == 1,
    {
        StunQuery { tid, sent: 1 }
    }

    /// The request that the query sends.
    pub fn request(&self) -> (r: [u8; 20])
        ensures
            r@ == binding_request(self.tid@),
    {
        build_binding_request(&self.tid)
    }

    /// Takes in how an attempt ended. A request that is to be sent again is
    /// counted.
    pub fn advance(&mut self, event: &StunEvent) -> (r: StunStep)
        requires
            old(self).wf(),
        ensures
            final(self).wf(),
            r == old(self).step(*event),
            final(self).tid == old(self).tid,
            final(self).sent == old(self).sent + (if r is Resend {
                1int
            } else {
                0int
            }),
    {
        match event {
            StunEvent::SocketError => {
                return StunStep::SocketFailed;
            },
            StunEvent::Datagram(d) => {
                let answer = parse_binding_response(d.as_slice(), &self.tid);
                if let Ok(addr) = answer {
                    return StunStep::Found(addr);
                }
            },
            StunEvent::Timeout => {},
        }
        if self.sent < MAX_ATTEMPTS {
            self.sent = self.sent + 1;
            StunStep::Resend
        } else {
            StunStep::GiveUp
        }
    }
}

/// The message of a query that was given up.
pub open spec fn gave_up(server: Seq<char>) -> Seq<char> {
    "STUN failed after 3 attempts (server: "@ + server + ")"@
}

/// The message of a server that has no IPv4 address.
pub open spec fn unresolved(server: Seq<char>) -> Seq<char> {
    "Could not resolve STUN server: "@ + server
}

/// The message of a query that was given up.
pub fn gave_up_message(server: &str) -> (r: String)
    ensures
        r@ == gave_up(server@),
{
    let mut out = String::from_str("STUN failed after 3 attempts (server: ");
    out.append(server);
    out.append(")");
    out
}

/// The message of a server that has no IPv4 address.
pub fn unresolved_message(server: &str) -> (r: String)
    ensures
        r@ == unresolved(server@),
{
    let mut out = String::from_str("Could not resolve STUN server: ");
    out.append(server);
    out
}

// ── Laws ─────────────────────────────────────────────────────────────────────

/// The value of the XOR-MAPPED-ADDRESS attribute that reports `e`.
pub open spec fn xor_mapped_value(e: Endpoint) -> Seq<u8> {
    let port = e.port ^ 0x2112u16;
    seq![0x00u8, 0x01u8, (port / 256) as u8, (port % 256) as u8] + be_bytes(e.ip ^ MAGIC_COOKIE)
}

/// The Binding success response that reports `e` to the transaction `tid`.
pub open spec fn success_response(e: Endpoint, tid: Seq<u8>) -> Seq<u8> {
    seq![0x01u8, 0x01u8, 0x00u8, 0x0cu8] + be_bytes(MAGIC_COOKIE) + tid + seq![
        0x00u8,
        0x20u8,
        0x00u8,
        0x08u8,
    ] + xor_mapped_value(e)
}

proof fn lemma_be32(n: u32)
    ensures
        be32(be_bytes(n)) == n,
{
    assert(n as int == (n / 0x100_0000) * 0x100_0000 + (n / 0x1_0000 % 0x100) * 0x1_0000 + (n / 0x100
        % 0x100) * 0x100 + (n % 0x100));
}

proof fn lemma_xor_twice(ip: u32, port: u16)
    ensures
        (ip ^ MAGIC_COOKIE) ^ MAGIC_COOKIE == ip,
        (port ^ 0x2112u16) ^ 0x2112u16 == port,
{
    assert((ip ^ 0x2112_A442u32) ^ 0x2112_A442u32 == ip) by (bit_vector);
    assert((port ^ 0x2112u16) ^ 0x2112u16 == port) by (bit_vector);
}

/// An address that a server reports in XOR-MAPPED-ADDRESS form is read back
/// unchanged, whatever the address.
pub proof fn law_reported_address_is_read(e: Endpoint, tid: Seq<u8>)
    requires
        tid.len() == 12,
    ensures
        binding_response(success_response(e, tid), tid) == Ok::<Endpoint, StunError>(e),
{
    let data = success_response(e, tid);
    let v = xor_mapped_value(e);
    let attrs = seq![0x00u8, 0x20u8, 0x00u8, 0x08u8] + v;
    lemma_be32(MAGIC_COOKIE);
    lemma_be32(e.ip ^ MAGIC_COOKIE);
    lemma_xor_twice(e.ip, e.port);
    assert(data.len() == 32);
    assert(data.subrange(4, 8) =~= be_bytes(MAGIC_COOKIE));
    assert(data.subrange(8, 20) =~= tid);
    assert(be16(data[2], data[3]) == 12);
    assert(attribute_bytes(data) =~= attrs);
    assert(be16(attrs[2], attrs[3]) == 8);
    assert(be16(attrs[0], attrs[1]) == 0x20);
    assert(attrs.subrange(4, 12) =~= v);
    let list = attributes(attrs);
    assert(attributes(attrs.skip(12)) =~= seq![]);
    assert(list[0] == (0x20u16, v));
    assert(value_of(list, ATTR_XOR_MAPPED_ADDRESS) == Some(v));
    assert(v.subrange(4, 8) =~= be_bytes(e.ip ^ MAGIC_COOKIE));
    let port = e.port ^ 0x2112u16;
    assert(be16(v[2], v[3]) == port);
}

/// A response to one transaction is never taken for the answer to another.
pub proof fn law_other_transactions_are_refused(data: Seq<u8>, tid: Seq<u8>, other: Seq<u8>)
    requires
        tid != other,
        binding_response(data, tid) is Ok,
    ensures
        binding_response(data, other) == Err::<Endpoint, StunError>(StunError::TransactionMismatch),
{
}

/// Where XOR-MAPPED-ADDRESS holds an address, MAPPED-ADDRESS has no say, in whichever
/// order they stand.
pub proof fn law_xor_mapped_takes_precedence(
    list: Seq<(u16, Seq<u8>)>,
    v: Seq<u8>,
    other: Seq<u8>,
)
    requires
        value_of(list, ATTR_XOR_MAPPED_ADDRESS) == Some(v),
        xor_mapped(v) is Ok,
    ensures
        reported_address(list) == xor_mapped(v),
        reported_address(seq![(ATTR_MAPPED_ADDRESS, other)] + list) == xor_mapped(v),
{
    let longer = seq![(ATTR_MAPPED_ADDRESS, other)] + list;
    assert(longer.drop_first() == list);
}

/// Where XOR-MAPPED-ADDRESS is missing or holds no address, a MAPPED-ADDRESS that
/// holds one is taken, in whichever order they stand.
pub proof fn law_mapped_is_the_fallback(list: Seq<(u16, Seq<u8>)>, w: Seq<u8>)
    requires
        value_of(list, ATTR_MAPPED_ADDRESS) == Some(w),
        mapped(w) is Ok,
        value_of(list, ATTR_XOR_MAPPED_ADDRESS) matches Some(v) ==> xor_mapped(v) is Err,
    ensures
        reported_address(list) == mapped(w),
{
}

/// An attribute's value with its port and address masked by the magic cookie.
pub open spec fn masked(v: Seq<u8>) -> Seq<u8> {
    if v.len() < 8 {
        v
    } else {
        v.update(2, v[2] ^ 0x21).update(3, v[3] ^ 0x12).update(4, v[4] ^ 0x21).update(
            5,
            v[5] ^ 0x12,
        ).update(6, v[6] ^ 0xA4).update(7, v[7] ^ 0x42)
    }
}

/// XOR-MAPPED-ADDRESS is MAPPED-ADDRESS under the mask of the magic cookie: of any
/// bytes the one reads the address that the other reads of the masked bytes, and
/// both read one just where there are eight bytes of the IPv4 family.
pub proof fn law_xor_mapped_is_mapped_under_the_mask(v: Seq<u8>)
    ensures
        xor_mapped(v) is Ok <==> v.len() >= 8 && v[1] == 0x01,
        mapped(masked(v)) is Ok <==> v.len() >= 8 && v[1] == 0x01,
        xor_mapped(v) is Ok ==> xor_mapped(v) == mapped(masked(v)),
        masked(masked(v)) == v,
{
    if v.len() >= 8 {
        let w = masked(v);
        lemma_mask16(v[2], v[3]);
        lemma_mask32(v[4], v[5], v[6], v[7]);
        lemma_mask_twice(v[2], 0x21);
        lemma_mask_twice(v[3], 0x12);
        lemma_mask_twice(v[4], 0x21);
        lemma_mask_twice(v[5], 0x12);
        lemma_mask_twice(v[6], 0xA4);
        lemma_mask_twice(v[7], 0x42);
        let a = v.subrange(4, 8);
        let b = w.subrange(4, 8);
        assert(a[0] == v[4] && a[1] == v[5] && a[2] == v[6] && a[3] == v[7]);
        assert(b[0] == w[4] && b[1] == w[5] && b[2] == w[6] && b[3] == w[7]);
        assert(masked(w) =~= v);
    }
}

proof fn lemma_mask_twice(b: u8, mask: u8)
    ensures
        (b ^ mask) ^ mask == b,
{
    assert((b ^ mask) ^ mask == b) by (bit_vector);
}

proof fn lemma_mask16(hi: u8, lo: u8)
    ensures
        be16(hi ^ 0x21, lo ^ 0x12) == be16(hi, lo) ^ 0x2112u16,
{
    assert(((hi ^ 0x21u8) * 256 + (lo ^ 0x12u8)) as u16 == ((hi * 256 + lo) as u16) ^ 0x2112u16)
        by (bit_vector);
}

proof fn lemma_mask32(a: u8, b: u8, c: u8, d: u8)
    ensures
        be32(seq![a ^ 0x21, b ^ 0x12, c ^ 0xA4, d ^ 0x42]) == be32(seq![a, b, c, d])
            ^ MAGIC_COOKIE,
{
    assert(((a ^ 0x21u8) * 0x100_0000 + (b ^ 0x12u8) * 0x1_0000 + (c ^ 0xA4u8) * 0x100 + (d
        ^ 0x42u8)) as u32 == ((a * 0x100_0000 + b * 0x1_0000 + c * 0x100 + d) as u32)
        ^ 0x2112_A442u32) by (bit_vector);
}

/// A run of digits holds no dot and no colon.
proof fn lemma_digits_hold_no_mark(n: nat, i: int)
    requires
        0 <= i < text::decimal(n).len(),
    ensures
        text::decimal(n)[i] != '.',
        text::decimal(n)[i] != ':',
{
    text::lemma_decimal(n);
    assert(text::is_digit(text::decimal(n)[i]));
}

/// Four numbers with dots between them, a colon, and a fifth.
pub open spec fn dotted(a: nat, b: nat, c: nat, d: nat, port: nat) -> Seq<char> {
    text::decimal(a) + seq!['.'] + (text::decimal(b) + seq!['.'] + (text::decimal(c) + seq!['.'] + (
    text::decimal(d) + seq![':'] + text::decimal(port))))
}

/// Where a number ends at a mark, the text determines the number and what follows.
proof fn lemma_number_before_mark(
    a: nat,
    b: nat,
    x: Seq<char>,
    y: Seq<char>,
    mark: char,
)
    requires
        mark == '.' || mark == ':',
        text::decimal(a) + seq![mark] + x == text::decimal(b) + seq![mark] + y,
    ensures
        a == b,
        x == y,
{
    let p = text::decimal(a);
    let q = text::decimal(b);
    let s = p + seq![mark] + x;
    let t = q + seq![mark] + y;
    if p.len() < q.len() {
        lemma_digits_hold_no_mark(b, p.len() as int);
        assert(s[p.len() as int] == mark);
        assert(t[p.len() as int] == q[p.len() as int]);
    }
    if q.len() < p.len() {
        lemma_digits_hold_no_mark(a, q.len() as int);
        assert(t[q.len() as int] == mark);
        assert(s[q.len() as int] == p[q.len() as int]);
    }
    assert(p =~= s.take(p.len() as int));
    assert(q =~= t.take(q.len() as int));
    text::lemma_decimal(a);
    text::lemma_decimal(b);
    assert(x =~= s.skip(p.len() as int + 1));
    assert(y =~= t.skip(q.len() as int + 1));
}

/// The text of an endpoint names that endpoint: it is four decimal numbers below 256
/// with dots between them, a colon and a decimal number; the four numbers are the
/// address, read as digits to the base 256, and the last one is the port.
pub proof fn law_texts_name_their_endpoint(e: Endpoint)
    ensures
        exists|a: nat, b: nat, c: nat, d: nat|
            {
                &&& a < 256 && b < 256 && c < 256 && d < 256
                &&& e.ip == a * 256 * 256 * 256 + b * 256 * 256 + c * 256 + d
                &&& e.text() == #[trigger] dotted(a, b, c, d, e.port as nat)
            },
{
    reveal_strlit(".");
    reveal_strlit(":");
    let ip = e.ip as nat;
    let a = ip / 0x100_0000;
    let b = ip / 0x1_0000 % 0x100;
    let c = ip / 0x100 % 0x100;
    let d = ip % 0x100;
    assert(e.text() =~= dotted(a, b, c, d, e.port as nat));
    assert(ip == a * 256 * 256 * 256 + b * 256 * 256 + c * 256 + d);
}

/// Two different endpoints never have the same text.
pub proof fn law_texts_tell_endpoints_apart(e: Endpoint, f: Endpoint)
    requires
        e.text() == f.text(),
    ensures
        e == f,
{
    law_texts_name_their_endpoint(e);
    law_texts_name_their_endpoint(f);
    let (a, b, c, d) = choose|a: nat, b: nat, c: nat, d: nat|
        {
            &&& a < 256 && b < 256 && c < 256 && d < 256
            &&& e.ip == a * 256 * 256 * 256 + b * 256 * 256 + c * 256 + d
            &&& e.text() == #[trigger] dotted(a, b, c, d, e.port as nat)
        };
    let (p, q, r, s) = choose|a: nat, b: nat, c: nat, d: nat|
        {
            &&& a < 256 && b < 256 && c < 256 && d < 256
            &&& f.ip == a * 256 * 256 * 256 + b * 256 * 256 + c * 256 + d
            &&& f.text() == #[trigger] dotted(a, b, c, d, f.port as nat)
        };
    let e4 = text::decimal(e.port as nat);
    let f4 = text::decimal(f.port as nat);
    let e3 = text::decimal(d) + seq![':'] + e4;
    let f3 = text::decimal(s) + seq![':'] + f4;
    let e2 = text::decimal(c) + seq!['.'] + e3;
    let f2 = text::decimal(r) + seq!['.'] + f3;
    let e1 = text::decimal(b) + seq!['.'] + e2;
    let f1 = text::decimal(q) + seq!['.'] + f2;
    lemma_number_before_mark(a, p, e1, f1, '.');
    lemma_number_before_mark(b, q, e2, f2, '.');
    lemma_number_before_mark(c, r, e3, f3, '.');
    lemma_number_before_mark(d, s, e4, f4, ':');
    text::lemma_decimal(e.port as nat);
    text::lemma_decimal(f.port as nat);
}

/// The octets of an address that a server reports in plain are those of its text, in
/// the order in which they come.
pub proof fn law_mapped_octets_are_shown_in_order(
    zero: u8,
    hi: u8,
    lo: u8,
    a: u8,
    b: u8,
    c: u8,
    d: u8,
    rest: Seq<u8>,
)
    ensures
        ({
            let read = mapped(seq![zero, 1u8, hi, lo, a, b, c, d] + rest);
            &&& read is Ok
            &&& read->Ok_0.text() == dotted(
                a as nat,
                b as nat,
                c as nat,
                d as nat,
                (hi * 256 + lo) as nat,
            )
        }),
{
    reveal_strlit(".");
    reveal_strlit(":");
    let v = seq![zero, 1u8, hi, lo, a, b, c, d] + rest;
    let e = mapped(v)->Ok_0;
    assert(v.subrange(4, 8) =~= seq![a, b, c, d]);
    assert(e.ip == a * 0x100_0000 + b * 0x1_0000 + c * 0x100 + d);
    assert(e.port == hi * 256 + lo);
    let ip = e.ip as nat;
    assert(ip / 0x100_0000 == a && ip / 0x1_0000 % 0x100 == b && ip / 0x100 % 0x100 == c && ip
        % 0x100 == d);
    assert(e.text() =~= dotted(a as nat, b as nat, c as nat, d as nat, (hi * 256 + lo) as nat));
}

/// Attributes are read one after the other: an attribute that is filled up to a
/// multiple of four bytes is followed by whatever stands behind it.
pub proof fn law_attributes_are_read_in_turn(
    t_hi: u8,
    t_lo: u8,
    n_hi: u8,
    n_lo: u8,
    value: Seq<u8>,
    fill: Seq<u8>,
    rest: Seq<u8>,
)
    requires
        value.len() == n_hi * 256 + n_lo,
        fill.len() < 4,
        (value.len() + fill.len()) % 4 == 0,
    ensures
        ({
            let bytes = seq![t_hi, t_lo, n_hi, n_lo] + value + fill + rest;
            attributes(bytes) == seq![((t_hi * 256 + t_lo) as u16, value)] + attributes(rest)
        }),
{
    let bytes = seq![t_hi, t_lo, n_hi, n_lo] + value + fill + rest;
    let n = value.len() as int;
    assert(be16(bytes[2], bytes[3]) == n);
    assert(padded(n) == n + fill.len());
    assert(bytes.subrange(4, 4 + n) =~= value);
    assert(bytes.skip(4 + padded(n)) =~= rest);
}

/// An attribute that announces more than there is ends the reading.
pub proof fn law_cut_attributes_are_not_read(bytes: Seq<u8>)
    requires
        bytes.len() < 4 || bytes.len() < 4 + bytes[2] * 256 + bytes[3],
    ensures
        attributes(bytes).len() == 0,
{
}

/// A request asks for a binding of its transaction: type 1, no attributes, the magic
/// cookie, and then the transaction.
pub proof fn law_requests_carry_their_transaction(tid: Seq<u8>)
    requires
        tid.len() == 12,
    ensures
        binding_request(tid).len() == 20,
        be16(binding_request(tid)[0], binding_request(tid)[1]) == 1,
        be16(binding_request(tid)[2], binding_request(tid)[3]) == 0,
        binding_request(tid).subrange(4, 8) == seq![0x21u8, 0x12u8, 0xA4u8, 0x42u8],
        binding_request(tid).subrange(8, 20) == tid,
{
    let r = binding_request(tid);
    assert(r.subrange(4, 8) =~= seq![0x21u8, 0x12u8, 0xA4u8, 0x42u8]);
    assert(r.subrange(8, 20) =~= tid);
}

/// A datagram is taken for an answer only if it is a success response with the magic
/// cookie to this transaction.
pub proof fn law_only_success_responses_are_answers(data: Seq<u8>, tid: Seq<u8>)
    requires
        binding_response(data, tid) is Ok,
    ensures
        data.len() >= 20,
        data[0] == 1 && data[1] == 1,
        data[4] == 0x21 && data[5] == 0x12 && data[6] == 0xA4 && data[7] == 0x42,
        data.subrange(8, 20) == tid,
{
    let c = data.subrange(4, 8);
    assert(c[0] == data[4] && c[1] == data[5] && c[2] == data[6] && c[3] == data[7]);
    assert(data[4] * 0x100_0000 + data[5] * 0x1_0000 + data[6] * 0x100 + data[7] == 0x2112_A442);
}

/// A query sends its request three times at most: without an answer, the first two
/// attempts are followed by another, and the third is the last. An answer ends it at
/// any attempt, with the address that the answer holds.
pub proof fn law_queries_try_three_times(query: StunQuery, event: StunEvent)
    requires
        query.wf(),
    ensures
        ({
            let answered = event matches StunEvent::Datagram(d) && binding_response(
                d@,
                query.tid@,
            ) is Ok;
            let step = query.step(event);
            &&& event is SocketError <==> step == StunStep::SocketFailed
            &&& !answered && !(event is SocketError) ==> {
                &&& step == StunStep::Resend <==> query.sent < 3
                &&& step == StunStep::GiveUp <==> query.sent == 3
            }
            &&& answered ==> step == StunStep::Found(
                binding_response(event->Datagram_0@, query.tid@)->Ok_0,
            )
        }),
{
}

/// The message of a query that was given up tells how often was tried, and whom.
pub proof fn law_given_up_queries_name_their_server(server: Seq<char>)
    ensures
        gave_up(server) == "STUN failed after "@ + text::decimal(MAX_ATTEMPTS as nat)
            + " attempts (server: "@ + server + ")"@,
{
    reveal_strlit("STUN failed after 3 attempts (server: ");
    reveal_strlit("STUN failed after ");
    reveal_strlit(" attempts (server: ");
    reveal_strlit(")");
    assert(gave_up(server) =~= "STUN failed after "@ + text::decimal(3) + " attempts (server: "@
        + server + ")"@);
}

/// The header says how long the attributes are, the higher byte first. What stands behind
/// them is not read, and where less has come, what has come is read.
pub proof fn law_announced_attributes_are_read(head: Seq<u8>, attrs: Seq<u8>, behind: Seq<u8>)
    requires
        head.len() == 20,
    ensures
        attrs.len() == head[2] * 256 + head[3] ==> attribute_bytes(head + attrs + behind) == attrs,
        attrs.len() <= head[2] * 256 + head[3] ==> attribute_bytes(head + attrs) == attrs,
{
    let data = head + attrs + behind;
    if attrs.len() == head[2] * 256 + head[3] {
        assert(data.subrange(20, 20 + attrs.len() as int) =~= attrs);
    }
    assert((head + attrs).subrange(20, 20 + attrs.len() as int) =~= attrs);
}

/// Why an attribute's value holds no address is told: it is too short, or it is one of
/// another family.
pub proof fn law_unreadable_addresses_have_their_reason(v: Seq<u8>)
    ensures
        v.len() < 8 <==> mapped(v) == Err::<Endpoint, StunError>(StunError::MappedTooShort),
        v.len() < 8 <==> xor_mapped(v) == Err::<Endpoint, StunError>(StunError::XorMappedTooShort),
        v.len() >= 8 && v[1] != 1 <==> mapped(v) == Err::<Endpoint, StunError>(
            StunError::MappedNotIpv4,
        ),
        v.len() >= 8 && v[1] != 1 <==> xor_mapped(v) == Err::<Endpoint, StunError>(
            StunError::XorMappedNotIpv4,
        ),
{
}

/// Why a datagram is no answer is told: the first of its defects.
pub proof fn law_refused_datagrams_have_their_reason(data: Seq<u8>, tid: Seq<u8>)
    ensures
        ({
            let r = binding_response(data, tid);
            let cookie = seq![0x21u8, 0x12u8, 0xA4u8, 0x42u8];
            let success = data.len() >= 20 && data[0] == 1 && data[1] == 1;
            &&& data.len() < 20 ==> r == Err::<Endpoint, StunError>(
                StunError::TooShort(data.len() as usize),
            )
            &&& data.len() >= 20 && !success <==> r == Err::<Endpoint, StunError>(
                StunError::NotSuccess,
            )
            &&& success && data.subrange(4, 8) != cookie <==> r == Err::<Endpoint, StunError>(
                StunError::BadCookie,
            )
            &&& success && data.subrange(4, 8) == cookie && data.subrange(8, 20) != tid <==> r
                == Err::<Endpoint, StunError>(StunError::TransactionMismatch)
        }),
{
    if data.len() >= 20 {
        let c = data.subrange(4, 8);
        let cookie = seq![0x21u8, 0x12u8, 0xA4u8, 0x42u8];
        if be32(c) == MAGIC_COOKIE {
            assert(c[0] * 0x100_0000 + c[1] * 0x1_0000 + c[2] * 0x100 + c[3] == 0x2112_A442);
            assert(c[0] == 0x21 && c[1] == 0x12 && c[2] == 0xA4 && c[3] == 0x42);
            assert(c =~= cookie);
        }
        if c == cookie {
            assert(c[0] == 0x21 && c[1] == 0x12 && c[2] == 0xA4 && c[3] == 0x42);
        }
    }
}

/// Each defect of a response is told in words of its own; a response that is too short
/// is told with its length.
pub proof fn law_defects_are_told_in_words(n: usize)
    ensures
        StunError::TooShort(n).text() == "STUN response too short ("@ + text::decimal(n as nat)
            + " bytes)"@,
        StunError::NotSuccess.text() == "Not a STUN binding success response"@,
        StunError::BadCookie.text() == "Invalid STUN magic cookie"@,
        StunError::TransactionMismatch.text() == "STUN transaction ID mismatch"@,
        StunError::NoAddress.text() == "No address attribute in STUN response"@,
        StunError::XorMappedTooShort.text() == "XOR-"@ + StunError::MappedTooShort.text(),
        StunError::MappedTooShort.text() == "MAPPED-ADDRESS too short"@,
        StunError::XorMappedNotIpv4.text() == "IPv6 STUN addresses are not supported yet"@,
        StunError::MappedNotIpv4.text() == "IPv6 MAPPED-ADDRESS not supported yet"@,
{
    reveal_strlit("XOR-MAPPED-ADDRESS too short");
    reveal_strlit("XOR-");
    reveal_strlit("MAPPED-ADDRESS too short");
    assert("XOR-MAPPED-ADDRESS too short"@ =~= "XOR-"@ + "MAPPED-ADDRESS too short"@);
}

} // verus!
