//! The encrypted tunnel between host and joiner: opening the way for it through
//! both NATs, and telling the right host from a wrong one.
//!
//! Hole punching is done on the same UDP socket before QUIC takes ownership.
//! All times are nanoseconds since the start of the punching.
use crate::client::crypto;
use crate::text;
use vstd::prelude::*;
use vstd::string::*;

verus! {

// ── Hole punching ────────────────────────────────────────────────────────────

/// How long punching may take.
pub const HOLE_PUNCH_TIMEOUT_NS: u64 = 20_000_000_000;

/// The time between two probes.
pub const PROBE_INTERVAL_NS: u64 = 100_000_000;

/// After receiving the first probe, keep sending for this long before handing
/// off to QUIC.  Ensures the remote side receives our probes too.
pub const GRACE_AFTER_RECEIVE_NS: u64 = 2_500_000_000;

/// If no probe is received within this window, proceed anyway.
/// Handles 2nd+ joiners where the host is already in QUIC mode and won't
/// reply with raw probes — the joiner still needs to open its own NAT hole.
pub const BEST_EFFORT_SEND_NS: u64 = 5_000_000_000;

/// The bytes of a probe: `MCS` and the number 1.
pub open spec fn probe() -> Seq<u8> {
    seq![0x4du8, 0x43u8, 0x53u8, 0x01u8]
}

/// The bytes of a probe.
pub fn probe_bytes() -> (r: [u8; 4])
    ensures
        r@ == probe(),
{
    let r = [0x4du8, 0x43u8, 0x53u8, 0x01u8];
    assert(r@ =~= probe());
    r
}

/// The datagram begins as a probe does.
pub open spec fn is_probe(data: Seq<u8>) -> bool {
    data.len() >= 4 && data.take(4) == probe()
}

/// Tests whether a datagram begins as a probe does.
pub fn has_probe(data: &[u8]) -> (r: bool)
    ensures
        r == is_probe(data@),
{
    if data.len() < 4 {
        return false;
    }
    let r = data[0] == 0x4d && data[1] == 0x43 && data[2] == 0x53 && data[3] == 0x01;
    proof {
        if r {
            assert(data@.take(4) =~= probe());
        } else {
            let head = data@.take(4);
            assert(head[0] == data@[0] && head[1] == data@[1] && head[2] == data@[2] && head[3]
                == data@[3]);
            assert(probe()[0] == 0x4d && probe()[1] == 0x43 && probe()[2] == 0x53 && probe()[3]
                == 0x01);
        }
    }
    r
}

/// What punching does after a probe has been sent.
#[derive(Clone, Copy, Debug, PartialEq, Eq, Structural)]
pub enum PunchStep {
    /// Go on.
    Continue,
    /// The peer has been heard, and has had time to hear us: proceed to QUIC.
    Punched,
    /// The peer has not been heard: proceed all the same.
    BestEffort,
    /// The time is up.
    TimedOut,
}

/// Hole punching under way: until when to go on, once the peer has been heard.
#[derive(Clone, Copy, Debug, PartialEq, Eq, Structural)]
pub struct Punch {
    pub grace_deadline: Option<u64>,
}

impl Punch {
    /// Punching that has not heard the peer after `datagrams`, or until when it
    /// goes on. A datagram is its time, whether it came from the peer, and its
    /// bytes.
    pub open spec fn after(datagrams: Seq<(u64, bool, Seq<u8>)>) -> Punch
        decreases datagrams.len(),
    {
        if datagrams.len() == 0 {
            Punch { grace_deadline: None }
        } else {
            let (now, from_peer, data) = datagrams.last();
            Punch::after(datagrams.drop_last()).heard(now, from_peer, data)
        }
    }

    /// Punching after one more datagram.
    pub open spec fn heard(self, now: u64, from_peer: bool, data: Seq<u8>) -> Punch {
        if self.grace_deadline is None && from_peer && is_probe(data) {
            Punch { grace_deadline: Some((now + GRACE_AFTER_RECEIVE_NS) as u64) }
        } else {
            self
        }
    }

    /// What to do at a time, once the probe has been sent.
    pub open spec fn decision(self, now: u64) -> PunchStep {
        match self.grace_deadline {
            Some(deadline) if now >= deadline => PunchStep::Punched,
            None if now >= BEST_EFFORT_SEND_NS => PunchStep::BestEffort,
            _ => if now >= HOLE_PUNCH_TIMEOUT_NS {
                PunchStep::TimedOut
            } else {
                PunchStep::Continue
            },
        }
    }

    /// Punching that has just begun.
    pub fn new() -> (r: Self)
        ensures
            r == Punch::after(seq![]),
    {
        Punch { grace_deadline: None }
    }

    /// Takes in a datagram; tells whether it is the first probe of the peer.
    pub fn received(&mut self, now: u64, from_peer: bool, data: &[u8]) -> (r: bool)
        requires
            now <= u64::MAX - GRACE_AFTER_RECEIVE_NS,
        ensures
            *final(self) == old(self).heard(now, from_peer, data@),
            r == (old(self).grace_deadline is None && from_peer && is_probe(data@)),
            r == (old(self).grace_deadline is None && final(self).grace_deadline is Some),
    {
        if self.grace_deadline.is_none() && from_peer && has_probe(data) {
            self.grace_deadline = Some(now + GRACE_AFTER_RECEIVE_NS);
            true
        } else {
            false
        }
    }

    /// Decides, once the probe of this time has been sent.
    pub fn tick(&self, now: u64) -> (r: PunchStep)
        ensures
            r == self.decision(now),
    {
        match self.grace_deadline {
            Some(deadline) => {
                if now >= deadline {
                    return PunchStep::Punched;
                }
            },
            None => {
                if now >= BEST_EFFORT_SEND_NS {
                    return PunchStep::BestEffort;
                }
            },
        }
        if now >= HOLE_PUNCH_TIMEOUT_NS {
            PunchStep::TimedOut
        } else {
            PunchStep::Continue
        }
    }
}

/// The message of punching that took too long.
pub open spec fn timed_out() -> Seq<char> {
    "Hole punching timed out after 20s"@
}

/// The message of punching that took too long.
pub fn timed_out_message() -> (r: String)
    ensures
        r@ == timed_out(),
{
    String::from_str("Hole punching timed out after 20s")
}

// ── Poking ───────────────────────────────────────────────────────────────────

/// How often a new joiner is poked from the QUIC port.
pub const POKE_ROUNDS: u32 = 15;

/// How long a poke waits for an answer, in milliseconds.
pub const POKE_TIMEOUT_MS: u64 = 150;

/// The pause after a poke, in milliseconds.
pub const POKE_PAUSE_MS: u64 = 200;

/// The name of the protocol that runs in the tunnel.
pub fn alpn() -> (r: &'static str)
    ensures
        r@ == "minescale-1"@,
{
    "minescale-1"
}

// ── Certificate pinning ──────────────────────────────────────────────────────

/// The certificate is the one whose fingerprint was handed over.
pub open spec fn is_pinned(cert_der: Seq<u8>, fingerprint: Seq<u8>) -> bool {
    crypto::sha256(cert_der) == fingerprint
}

/// The fingerprint of the one certificate that is accepted.
#[derive(Debug)]
pub struct PinnedCert {
    pub fingerprint: Vec<u8>,
}

/// The certificate is not the pinned one.
#[derive(Clone, Copy, Debug, PartialEq, Eq, Structural)]
pub struct FingerprintMismatch;

impl PinnedCert {
    /// Tells whether a certificate with this fingerprint is accepted.
    pub fn accepts(&self, fingerprint: &[u8]) -> (r: bool)
        ensures
            r == (fingerprint@ == self.fingerprint@),
    {
        same_bytes(fingerprint, self.fingerprint.as_slice())
    }

    /// Accepts the certificate with the pinned fingerprint, and no other.
    pub fn verify_server_cert(&self, cert_der: &[u8]) -> (r: Result<(), FingerprintMismatch>)
        ensures
            r is Ok <==> is_pinned(cert_der@, self.fingerprint@),
    {
        let fp = crypto::cert_fingerprint(cert_der);
        if self.accepts(fp.as_slice()) {
            Ok(())
        } else {
            Err(FingerprintMismatch)
        }
    }
}

/// Tests whether two byte strings are the same.
fn same_bytes(a: &[u8], b: &[u8]) -> (r: bool)
    ensures
        r == (a@ == b@),
{
    if a.len() != b.len() {
        return false;
    }
    let mut i: usize = 0;
    while i < a.len()
        invariant
            a@.len() == b@.len(),
            i <= a@.len(),
            forall|k: int| 0 <= k < i ==> a@[k] == b@[k],
        decreases a@.len() - i,
    {
        if a[i] != b[i] {
            return false;
        }
        i = i + 1;
    }
    assert(a@ =~= b@);
    true
}

// ── Laws ─────────────────────────────────────────────────────────────────────

/// Both sides get probes through: after the first probe of the peer at time `t`,
/// probes go on for the whole grace period, and punching ends with the first
/// decision after it, whatever else comes in.
pub proof fn law_grace_runs_from_the_first_probe(
    before: Seq<(u64, bool, Seq<u8>)>,
    t: u64,
    data: Seq<u8>,
    later: Seq<(u64, bool, Seq<u8>)>,
    now: u64,
)
    requires
        Punch::after(before).grace_deadline is None,
        is_probe(data),
        t <= u64::MAX - GRACE_AFTER_RECEIVE_NS,
    ensures
        ({
            let punch = Punch::after(before.push((t, true, data)) + later);
            punch.decision(now) == PunchStep::Punched <==> now >= t + GRACE_AFTER_RECEIVE_NS
        }),
{
    lemma_deadline_stays(before, t, data, later);
}

proof fn lemma_deadline_stays(
    before: Seq<(u64, bool, Seq<u8>)>,
    t: u64,
    data: Seq<u8>,
    later: Seq<(u64, bool, Seq<u8>)>,
)
    requires
        Punch::after(before).grace_deadline is None,
        is_probe(data),
        t <= u64::MAX - GRACE_AFTER_RECEIVE_NS,
    ensures
        Punch::after(before.push((t, true, data)) + later).grace_deadline == Some(
            (t + GRACE_AFTER_RECEIVE_NS) as u64,
        ),
    decreases later.len(),
{
    let all = before.push((t, true, data)) + later;
    if later.len() == 0 {
        assert(all =~= before.push((t, true, data)));
        assert(all.drop_last() =~= before);
    } else {
        lemma_deadline_stays(before, t, data, later.drop_last());
        assert(all.drop_last() =~= before.push((t, true, data)) + later.drop_last());
    }
}

/// Strangers and stray datagrams have no say: whatever comes in that is not a probe
/// of the peer changes nothing.
pub proof fn law_only_the_peer_is_heard(
    datagrams: Seq<(u64, bool, Seq<u8>)>,
    now: u64,
    from_peer: bool,
    data: Seq<u8>,
)
    requires
        !(from_peer && is_probe(data)),
    ensures
        Punch::after(datagrams.push((now, from_peer, data))) == Punch::after(datagrams),
{
    assert(datagrams.push((now, from_peer, data)).drop_last() =~= datagrams);
}

/// Punching that hears nobody ends at the first decision after five seconds, and
/// never with a timeout.
pub proof fn law_silence_ends_in_best_effort(punch: Punch, now: u64)
    requires
        punch.grace_deadline is None,
    ensures
        punch.decision(now) == (if now >= 5_000_000_000 {
            PunchStep::BestEffort
        } else {
            PunchStep::Continue
        }),
{
}

/// The datagram comes from the peer and begins with the letters `MCS` and a one.
pub open spec fn is_peers_probe(datagram: (u64, bool, Seq<u8>)) -> bool {
    let (_, from_peer, data) = datagram;
    &&& from_peer
    &&& data.len() >= 4
    &&& data[0] == 'M' as u8
    &&& data[1] == 'C' as u8
    &&& data[2] == 'S' as u8
    &&& data[3] == 1
}

/// What is sent as a probe is heard as one, and nothing is that does not begin with
/// its four bytes.
pub proof fn law_probes_are_recognised(data: Seq<u8>, tail: Seq<u8>)
    ensures
        is_probe(probe()),
        is_probe(probe() + tail),
        is_probe(data) <==> is_peers_probe((0u64, true, data)),
{
    assert((probe() + tail).take(4) =~= probe());
    assert(probe().take(4) =~= probe());
    if data.len() >= 4 {
        let head = data.take(4);
        assert(head[0] == data[0] && head[1] == data[1] && head[2] == data[2] && head[3]
            == data[3]);
        if is_peers_probe((0u64, true, data)) {
            assert(head =~= probe());
        }
        if is_probe(data) {
            assert(probe()[0] == 0x4d && probe()[1] == 0x43 && probe()[2] == 0x53 && probe()[3]
                == 1);
        }
    }
}

/// Nothing is decided by datagrams that are no probes of the peer.
proof fn lemma_nobody_heard(datagrams: Seq<(u64, bool, Seq<u8>)>)
    requires
        forall|i: int| 0 <= i < datagrams.len() ==> !is_peers_probe(#[trigger] datagrams[i]),
    ensures
        Punch::after(datagrams).grace_deadline is None,
    decreases datagrams.len(),
{
    if datagrams.len() > 0 {
        let head = datagrams.drop_last();
        assert forall|i: int| 0 <= i < head.len() implies !is_peers_probe(#[trigger] head[i]) by {
            assert(head[i] == datagrams[i]);
        }
        lemma_nobody_heard(head);
        let (now, from_peer, data) = datagrams.last();
        assert(!is_peers_probe(datagrams[datagrams.len() - 1]));
        law_probes_are_recognised(data, seq![]);
    }
}

/// How punching ends, by what has come in: where the peer was first heard at `t`, the
/// peer's grace period of 2.5 s runs out first, and then punching has succeeded, or
/// 20 s pass first, and then it is given up; until either, it goes on. Where the peer
/// has not been heard, it goes on for 5 s and then proceeds all the same.
pub proof fn law_punching_ends_as_it_should(
    datagrams: Seq<(u64, bool, Seq<u8>)>,
    k: int,
    now: u64,
)
    requires
        0 <= k <= datagrams.len(),
        forall|i: int| 0 <= i < k ==> !is_peers_probe(#[trigger] datagrams[i]),
        k < datagrams.len() ==> is_peers_probe(datagrams[k]) && datagrams[k].0 <= u64::MAX
            - 2_500_000_000,
    ensures
        ({
            let step = Punch::after(datagrams).decision(now);
            if k < datagrams.len() {
                let t = datagrams[k].0;
                &&& step == PunchStep::Punched <==> now >= t + 2_500_000_000
                &&& step == PunchStep::TimedOut <==> now < t + 2_500_000_000 && now
                    >= 20_000_000_000
                &&& step == PunchStep::Continue <==> now < t + 2_500_000_000 && now
                    < 20_000_000_000
            } else {
                &&& step == PunchStep::BestEffort <==> now >= 5_000_000_000
                &&& step == PunchStep::Continue <==> now < 5_000_000_000
            }
        }),
{
    if k < datagrams.len() {
        let before = datagrams.take(k);
        let later = datagrams.skip(k + 1);
        let (t, from_peer, data) = datagrams[k];
        assert forall|i: int| 0 <= i < before.len() implies !is_peers_probe(
            #[trigger] before[i],
        ) by {
            assert(before[i] == datagrams[i]);
        }
        lemma_nobody_heard(before);
        law_probes_are_recognised(data, seq![]);
        lemma_deadline_stays(before, t, data, later);
        assert(datagrams =~= before.push((t, true, data)) + later);
    } else {
        lemma_nobody_heard(datagrams);
    }
}

/// The message of punching that took too long names the time that it took.
pub proof fn law_timeouts_name_their_time()
    ensures
        timed_out() == "Hole punching timed out after "@ + text::decimal(
            (HOLE_PUNCH_TIMEOUT_NS / 1_000_000_000) as nat,
        ) + "s"@,
{
    reveal_strlit("Hole punching timed out after 20s");
    reveal_strlit("Hole punching timed out after ");
    reveal_strlit("s");
    reveal_with_fuel(text::decimal, 2);
    assert(timed_out() =~= "Hole punching timed out after "@ + text::decimal(20) + "s"@);
}

/// A probe goes out at least 25 times in a grace period, which ends before the time
/// is up.
pub proof fn law_grace_leaves_time_for_probes()
    ensures
        25 * PROBE_INTERVAL_NS <= GRACE_AFTER_RECEIVE_NS,
        BEST_EFFORT_SEND_NS + GRACE_AFTER_RECEIVE_NS < HOLE_PUNCH_TIMEOUT_NS,
{
}

/// The pauses between the pokes of a new joiner make three seconds, and with the waiting
/// for answers the pokes go on for longer than probes are sent at the least.
pub proof fn law_pokes_outlast_the_probes()
    ensures
        POKE_ROUNDS * POKE_PAUSE_MS == 3000,
        POKE_ROUNDS * (POKE_TIMEOUT_MS + POKE_PAUSE_MS) == 5250,
        POKE_ROUNDS * (POKE_TIMEOUT_MS + POKE_PAUSE_MS) * 1_000_000 > BEST_EFFORT_SEND_NS,
{
}

} // verus!
