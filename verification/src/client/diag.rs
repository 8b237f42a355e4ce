//! Network and system diagnostics.
use crate::client::stun::Endpoint;
use crate::client::system;
use crate::client::system::Os;
use crate::client::telemetry;
use crate::text;
use vstd::prelude::*;
use vstd::string::*;

verus! {

// ── NAT type ─────────────────────────────────────────────────────────────────

#[derive(Clone, Copy, Debug, PartialEq, Eq, Structural)]
pub enum NatType {
    /// STUN request failed; UDP is likely blocked.
    UdpBlocked,
    /// Both STUN queries returned the same external port.
    /// Indicates Full-Cone, Address-Restricted, or Port-Restricted Cone NAT.
    /// P2P hole-punching should work.
    Cone,
    /// STUN queries to two different servers returned different external ports.
    /// Indicates Symmetric NAT; P2P is difficult and relay will be used.
    Symmetric,
    /// Only one STUN server responded; cannot determine type.
    Indeterminate,
}

impl NatType {
    /// The type in words.
    pub open spec fn text(self) -> Seq<char> {
        match self {
            NatType::UdpBlocked => "UDP Blocked (P2P unavailable)"@,
            NatType::Cone => "Cone NAT (P2P ready)"@,
            NatType::Symmetric => "Symmetric NAT (relay mode)"@,
            NatType::Indeterminate => "Indeterminate (1 server only)"@,
        }
    }

    /// The type in words.
    pub fn label(&self) -> (r: &'static str)
        ensures
            r@ == self.text(),
    {
        match self {
            NatType::UdpBlocked => "UDP Blocked (P2P unavailable)",
            NatType::Cone => "Cone NAT (P2P ready)",
            NatType::Symmetric => "Symmetric NAT (relay mode)",
            NatType::Indeterminate => "Indeterminate (1 server only)",
        }
    }

    /// Tells whether peers can be reached directly.
    pub fn is_ok(&self) -> (r: bool)
        ensures
            r == (*self == NatType::Cone),
    {
        *self == NatType::Cone
    }
}

/// What two queries from one socket have shown: the addresses, and what they tell
/// of the NAT.
#[derive(Clone, Copy, Debug, PartialEq, Eq, Structural)]
pub struct NatReport {
    pub primary: Option<Endpoint>,
    pub secondary: Option<Endpoint>,
    pub nat_type: NatType,
}

/// What the answers of the two servers tell. Where just one of them answered, either
/// of the two, nothing can be said of the NAT's type; where neither did, UDP is
/// taken to be blocked.
pub open spec fn nat_report(first: Option<Endpoint>, second: Option<Endpoint>) -> NatReport {
    match (first, second) {
        (None, None) => NatReport {
            primary: None,
            secondary: None,
            nat_type: NatType::UdpBlocked,
        },
        (None, Some(b)) => NatReport {
            primary: None,
            secondary: Some(b),
            nat_type: NatType::Indeterminate,
        },
        (Some(a), None) => NatReport {
            primary: Some(a),
            secondary: None,
            nat_type: NatType::Indeterminate,
        },
        (Some(a), Some(b)) => NatReport {
            primary: Some(a),
            secondary: Some(b),
            nat_type: if a.port == b.port {
                NatType::Cone
            } else {
                NatType::Symmetric
            },
        },
    }
}

/// What the answers of the two servers tell.
pub fn check_nat(first: Option<Endpoint>, second: Option<Endpoint>) -> (r: NatReport)
    ensures
        r == nat_report(first, second),
{
    match first {
        None => match second {
            None => NatReport { primary: None, secondary: None, nat_type: NatType::UdpBlocked },
            Some(b) => NatReport {
                primary: None,
                secondary: Some(b),
                nat_type: NatType::Indeterminate,
            },
        },
        Some(a) => match second {
            None => NatReport {
                primary: Some(a),
                secondary: None,
                nat_type: NatType::Indeterminate,
            },
            Some(b) => {
                let nat_type = if a.port == b.port {
                    NatType::Cone
                } else {
                    NatType::Symmetric
                };
                NatReport { primary: Some(a), secondary: Some(b), nat_type }
            },
        },
    }
}

/// The two servers that are asked.
pub fn stun_servers() -> (r: (&'static str, &'static str))
    ensures
        r.0@ == "stun.l.google.com:19302"@,
        r.1@ == "stun.cloudflare.com:3478"@,
{
    ("stun.l.google.com:19302", "stun.cloudflare.com:3478")
}

// ── Diagnostics result ───────────────────────────────────────────────────────

#[derive(Debug)]
pub struct DiagResult {
    /// STUN server 1
    pub ext_v4_primary: Option<Endpoint>,
    /// STUN server 2 (same local port)
    pub ext_v4_secondary: Option<Endpoint>,
    pub nat_type: NatType,
    pub ipv6_available: bool,
    /// e.g. "Ubuntu 22.04 LTS", "macOS", "Windows 11"
    pub os_detail: String,
    /// "x86_64" / "aarch64" / …
    pub arch: String,
    pub mc_dir: Option<String>,
    pub mc_versions: Vec<String>,
}

// ── System info ──────────────────────────────────────────────────────────────

/// The full label of a macOS system from the lines of its version file.
pub open spec fn macos_name(lines: Seq<Seq<char>>) -> Seq<char> {
    let found = system::product_in(lines, system::ProductView { name: None, version: None });
    match (found.name, found.version) {
        (Some(p), Some(v)) => p + " "@ + v,
        (Some(p), None) => p,
        _ => "macOS"@,
    }
}

/// The full label of a Linux system from the lines of its os-release file.
pub open spec fn linux_name(lines: Seq<Seq<char>>) -> Seq<char> {
    match system::first_value(lines, "PRETTY_NAME="@) {
        Some(name) => name,
        None => "Linux"@,
    }
}

/// The full label of a system. `file` is the content of the file that tells its
/// version, and `name` what the system is called.
pub open spec fn full_label(os: Os, name: Seq<char>, file: Option<Seq<char>>) -> Seq<char> {
    match os {
        Os::Macos => match file {
            Some(c) => macos_name(text::lines(c)),
            None => "macOS"@,
        },
        Os::Linux => match file {
            Some(c) => linux_name(text::lines(c)),
            None => "Linux"@,
        },
        Os::Windows => "Windows"@,
        Os::Other => name,
    }
}

/// The full label of a system.
pub fn os_detail(os: Os, name: &str, file: Option<&str>) -> (r: String)
    ensures
        r@ == full_label(os, name@, telemetry::str_view(file)),
{
    match os {
        Os::Linux => {
            let content = match file {
                Some(c) => c,
                None => {
                    return String::from_str("Linux");
                },
            };
            let chars = text::chars_of(content);
            let lines = text::split_lines(chars.as_slice());
            match system::find_first_value(&lines, "PRETTY_NAME=") {
                Some(v) => text::string_of(v.as_slice()),
                None => String::from_str("Linux"),
            }
        },
        Os::Macos => {
            let content = match file {
                Some(c) => c,
                None => {
                    return String::from_str("macOS");
                },
            };
            let chars = text::chars_of(content);
            let lines = text::split_lines(chars.as_slice());
            let (name, version) = system::find_product(&lines);
            match name {
                None => String::from_str("macOS"),
                Some(p) => {
                    let mut out = text::string_of(p.as_slice());
                    if let Some(v) = version {
                        let v = text::string_of(v.as_slice());
                        out.append(" ");
                        out.append(v.as_str());
                    }
                    out
                },
            }
        },
        Os::Windows => String::from_str("Windows"),
        Os::Other => String::from_str(name),
    }
}

// ── Minecraft detection ──────────────────────────────────────────────────────

/// Where Minecraft keeps its files: the variable that names the directory, and the
/// path below it.
pub open spec fn minecraft_place(os: Os) -> Option<(Seq<char>, Seq<char>)> {
    match os {
        Os::Macos => Some(("HOME"@, "Library/Application Support/minecraft"@)),
        Os::Linux => Some(("HOME"@, ".minecraft"@)),
        Os::Windows => Some(("APPDATA"@, ".minecraft"@)),
        Os::Other => None,
    }
}

/// Where Minecraft keeps its files: the variable that names the directory, and the
/// path below it.
pub fn mc_base_dir(os: Os) -> (r: Option<(&'static str, &'static str)>)
    ensures
        match r {
            Some((variable, path)) => minecraft_place(os) == Some((variable@, path@)),
            None => minecraft_place(os) is None,
        },
{
    match os {
        Os::Macos => Some(("HOME", "Library/Application Support/minecraft")),
        Os::Linux => Some(("HOME", ".minecraft")),
        Os::Windows => Some(("APPDATA", ".minecraft")),
        Os::Other => None,
    }
}

/// The numbers among the texts.
pub open spec fn numbers(parts: Seq<Seq<char>>) -> Seq<int>
    decreases parts.len(),
{
    if parts.len() == 0 {
        seq![]
    } else {
        match text::number(parts[0], u32::MAX as int) {
            Some(n) => seq![n] + numbers(parts.drop_first()),
            None => numbers(parts.drop_first()),
        }
    }
}

/// The `i`th number, or 0.
pub open spec fn nth(n: Seq<int>, i: int) -> int {
    if i < n.len() {
        n[i]
    } else {
        0
    }
}

/// What a version is ordered by: the first three numbers among its parts.
pub open spec fn version_key(name: Seq<char>) -> (int, int, int) {
    let n = numbers(text::split_on(name, '.'));
    (nth(n, 0), nth(n, 1), nth(n, 2))
}

/// `a` is at least as new as `b`.
pub open spec fn key_at_least(a: (int, int, int), b: (int, int, int)) -> bool {
    a.0 > b.0 || (a.0 == b.0 && (a.1 > b.1 || (a.1 == b.1 && a.2 >= b.2)))
}

/// The name is that of a release: it begins with a digit.
pub open spec fn is_release(name: Seq<char>) -> bool {
    name.len() > 0 && text::is_digit(name[0])
}

/// The contents of a list of texts.
pub open spec fn texts(v: Seq<String>) -> Seq<Seq<char>> {
    v.map_values(|s: String| s@)
}

/// What a version is ordered by.
fn parse_version(name: &str) -> (r: (u32, u32, u32))
    ensures
        (r.0 as int, r.1 as int, r.2 as int) == version_key(name@),
{
    let chars = text::chars_of(name);
    let parts = text::split(chars.as_slice(), '.');
    let mut n: Vec<u32> = Vec::new();
    let mut i: usize = 0;
    let ghost all = text::pieces(parts@);
    assert(all.skip(0) =~= all);
    assert(ints(n@) =~= seq![]);
    assert(ints(n@) + numbers(all) =~= numbers(all));
    while i < parts.len()
        invariant
            i <= parts@.len(),
            all == text::pieces(parts@),
            numbers(all) == ints(n@) + numbers(all.skip(i as int)),
        decreases parts@.len() - i,
    {
        let ghost before = n@;
        let ghost rest = all.skip(i as int);
        proof {
            assert(rest[0] == parts@[i as int]@);
            assert(rest.drop_first() =~= all.skip(i + 1));
        }
        if let Some(k) = text::parse_number(parts[i].as_slice(), u32::MAX) {
            n.push(k);
            proof {
                assert(ints(n@) =~= ints(before).push(k as int));
                assert(ints(n@) + numbers(all.skip(i + 1)) =~= ints(before) + (seq![k as int]
                    + numbers(all.skip(i + 1))));
            }
        }
        i = i + 1;
    }
    assert(all.skip(i as int) =~= seq![]);
    assert(ints(n@) =~= numbers(all));
    let a: u32 = if n.len() > 0 {
        n[0]
    } else {
        0
    };
    let b: u32 = if n.len() > 1 {
        n[1]
    } else {
        0
    };
    let c: u32 = if n.len() > 2 {
        n[2]
    } else {
        0
    };
    (a, b, c)
}

/// The values of a list of numbers.
spec fn ints(n: Seq<u32>) -> Seq<int> {
    n.map_values(|k: u32| k as int)
}

/// Tests whether `a` is at least as new as `b`.
fn at_least(a: (u32, u32, u32), b: (u32, u32, u32)) -> (r: bool)
    ensures
        r == key_at_least(
            (a.0 as int, a.1 as int, a.2 as int),
            (b.0 as int, b.1 as int, b.2 as int),
        ),
{
    if a.0 != b.0 {
        a.0 > b.0
    } else if a.1 != b.1 {
        a.1 > b.1
    } else {
        a.2 >= b.2
    }
}

/// The names with the given key, in their order.
pub open spec fn with_key(names: Seq<Seq<char>>, key: (int, int, int)) -> Seq<Seq<char>> {
    names.filter(|n: Seq<char>| version_key(n) == key)
}

/// Newest first.
pub open spec fn newest_first(names: Seq<Seq<char>>) -> bool {
    forall|i: int, j: int|
        0 <= i < j < names.len() ==> key_at_least(
            version_key(#[trigger] names[i]),
            version_key(#[trigger] names[j]),
        )
}

/// The releases among the names.
pub open spec fn releases(names: Seq<Seq<char>>) -> Seq<Seq<char>> {
    names.filter(|n: Seq<char>| is_release(n))
}

/// The lists hold the same names, and names of one key in the same order.
pub open spec fn same_names(a: Seq<Seq<char>>, b: Seq<Seq<char>>) -> bool {
    forall|key: (int, int, int)| #[trigger] with_key(a, key) == with_key(b, key)
}

proof fn lemma_with_key_concat(a: Seq<Seq<char>>, b: Seq<Seq<char>>, key: (int, int, int))
    ensures
        with_key(a + b, key) == with_key(a, key) + with_key(b, key),
{
    Seq::filter_distributes_over_add(a, b, |n: Seq<char>| version_key(n) == key);
}

proof fn lemma_with_key_one(name: Seq<char>, key: (int, int, int))
    ensures
        with_key(seq![name], key) == (if version_key(name) == key {
            seq![name]
        } else {
            seq![]
        }),
{
    reveal_with_fuel(Seq::filter, 2);
    assert(seq![name].drop_last() =~= seq![]);
    assert(with_key(seq![name], key) =~= (if version_key(name) == key {
        seq![name]
    } else {
        seq![]
    }));
}

proof fn lemma_with_key_none(names: Seq<Seq<char>>, key: (int, int, int))
    requires
        forall|i: int| 0 <= i < names.len() ==> version_key(#[trigger] names[i]) != key,
    ensures
        with_key(names, key) == Seq::<Seq<char>>::empty(),
    decreases names.len(),
{
    reveal(Seq::filter);
    if names.len() > 0 {
        assert(names.last() == names[names.len() - 1]);
        lemma_with_key_none(names.drop_last(), key);
    }
}

/// Behind all names that are at least as new, and before all that are older, a name
/// can be put into a sorted list.
proof fn lemma_put_in(sorted: Seq<Seq<char>>, k: int, name: Seq<char>, given: Seq<Seq<char>>)
    requires
        0 <= k <= sorted.len(),
        newest_first(sorted),
        forall|i: int|
            0 <= i < k ==> key_at_least(version_key(#[trigger] sorted[i]), version_key(name)),
        forall|i: int|
            k <= i < sorted.len() ==> !key_at_least(
                version_key(#[trigger] sorted[i]),
                version_key(name),
            ),
        same_names(sorted, given),
    ensures
        newest_first(sorted.insert(k, name)),
        same_names(sorted.insert(k, name), given.push(name)),
{
    let next = sorted.insert(k, name);
    let head = sorted.take(k);
    let tail = sorted.skip(k);
    let one = seq![name];
    assert(next =~= head + one + tail);
    assert(sorted =~= head + tail);
    assert(given.push(name) =~= given + one);
    assert forall|i: int, j: int| 0 <= i < j < next.len() implies key_at_least(
        version_key(#[trigger] next[i]),
        version_key(#[trigger] next[j]),
    ) by {
        let a = if i < k {
            i
        } else {
            i - 1
        };
        let b = if j < k {
            j
        } else {
            j - 1
        };
        if i == k {
            assert(next[j] == sorted[b]);
        } else if j == k {
            assert(next[i] == sorted[a]);
        } else {
            assert(next[i] == sorted[a]);
            assert(next[j] == sorted[b]);
        }
    }
    assert forall|key: (int, int, int)| #[trigger]
        with_key(next, key) == with_key(given.push(name), key) by {
        lemma_with_key_concat(head + one, tail, key);
        lemma_with_key_concat(head, one, key);
        lemma_with_key_concat(head, tail, key);
        lemma_with_key_concat(given, one, key);
        lemma_with_key_one(name, key);
        assert(with_key(sorted, key) == with_key(given, key));
        if version_key(name) == key {
            assert forall|i: int| 0 <= i < tail.len() implies version_key(#[trigger] tail[i])
                != key by {
                assert(tail[i] == sorted[k + i]);
            }
            lemma_with_key_none(tail, key);
        }
        assert(with_key(next, key) =~= with_key(given.push(name), key));
    }
}

/// Sorts versions newest first; those that count as equally new stay in their
/// order.
pub fn sort_versions(names: &Vec<String>) -> (r: Vec<String>)
    ensures
        newest_first(texts(r@)),
        same_names(texts(r@), texts(names@)),
        r@.len() == names@.len(),
{
    let mut out: Vec<String> = Vec::new();
    let mut i: usize = 0;
    assert(texts(out@) =~= texts(names@).take(0));
    while i < names.len()
        invariant
            i <= names@.len(),
            out@.len() == i,
            newest_first(texts(out@)),
            same_names(texts(out@), texts(names@).take(i as int)),
        decreases names@.len() - i,
    {
        let name = names[i].clone();
        let key = parse_version(name.as_str());
        let mut k: usize = 0;
        while k < out.len() && at_least(parse_version(out[k].as_str()), key)
            invariant
                k <= out@.len(),
                version_key(name@) == (key.0 as int, key.1 as int, key.2 as int),
                forall|j: int|
                    0 <= j < k ==> key_at_least(
                        version_key(#[trigger] texts(out@)[j]),
                        version_key(name@),
                    ),
            decreases out@.len() - k,
        {
            assert(texts(out@)[k as int] == out@[k as int]@);
            k = k + 1;
        }
        let ghost before = texts(out@);
        let ghost given = texts(names@).take(i as int);
        proof {
            assert forall|j: int| k <= j < before.len() implies !key_at_least(
                version_key(#[trigger] before[j]),
                version_key(name@),
            ) by {
                assert(before[k as int] == out@[k as int]@);
                if j > k {
                    assert(key_at_least(version_key(before[k as int]), version_key(before[j])));
                }
            }
            lemma_put_in(before, k as int, name@, given);
            assert(texts(names@).take(i + 1) =~= given.push(texts(names@)[i as int]));
        }
        let ghost view = name@;
        out.insert(k, name);
        assert(texts(out@) =~= before.insert(k as int, view));
        i = i + 1;
    }
    assert(texts(names@).take(i as int) =~= texts(names@));
    out
}

/// The releases among the names of the installed versions, newest first.
pub fn detect_minecraft(names: &Vec<String>) -> (r: Vec<String>)
    ensures
        newest_first(texts(r@)),
        same_names(texts(r@), releases(texts(names@))),
{
    let mut kept: Vec<String> = Vec::new();
    let mut i: usize = 0;
    proof {
        reveal(Seq::filter);
        assert(texts(kept@) =~= releases(texts(names@).take(0)));
    }
    while i < names.len()
        invariant
            i <= names@.len(),
            texts(kept@) == releases(texts(names@).take(i as int)),
        decreases names@.len() - i,
    {
        let ghost before = texts(kept@);
        let chars = text::chars_of(names[i].as_str());
        proof {
            reveal(Seq::filter);
            let next = texts(names@).take(i + 1);
            assert(next.drop_last() =~= texts(names@).take(i as int));
            assert(next.last() == names@[i as int]@);
        }
        if chars.len() > 0 && text::digit_char(chars[0]) {
            kept.push(names[i].clone());
            assert(texts(kept@) =~= before.push(names@[i as int]@));
        }
        i = i + 1;
    }
    assert(texts(names@).take(i as int) =~= texts(names@));
    sort_versions(&kept)
}

// ── Laws ─────────────────────────────────────────────────────────────────────

/// The order of two names by their versions is total: one is at least as new as
/// the other, and each as itself.
pub proof fn law_versions_are_comparable(a: Seq<char>, b: Seq<char>)
    ensures
        key_at_least(version_key(a), version_key(b)) || key_at_least(version_key(b), version_key(a)),
        key_at_least(version_key(a), version_key(b)) && key_at_least(
            version_key(b),
            version_key(a),
        ) ==> version_key(a) == version_key(b),
{
}

/// Sorting settles the list: two lists that are newest first and hold the same
/// names, those of one key in the same order, are the same list.
pub proof fn law_sorted_list_is_unique(a: Seq<Seq<char>>, b: Seq<Seq<char>>)
    requires
        newest_first(a),
        newest_first(b),
        same_names(a, b),
    ensures
        a == b,
    decreases a.len(),
{
    if a.len() == 0 {
        if b.len() > 0 {
            lemma_newer_key(b, a);
        }
        assert(a =~= b);
    } else {
        lemma_newer_key(a, b);
        lemma_newer_key(b, a);
        let key = version_key(a[0]);
        assert(version_key(b[0]) == key);
        let ra = a.drop_first();
        let rb = b.drop_first();
        lemma_first_name(a, key);
        lemma_first_name(b, key);
        assert(with_key(a, key) == with_key(b, key));
        assert(with_key(a, key)[0] == a[0]);
        assert(with_key(b, key)[0] == b[0]);
        assert(same_names(ra, rb)) by {
            assert forall|k: (int, int, int)| #[trigger] with_key(ra, k) == with_key(rb, k) by {
                lemma_first_name(a, k);
                lemma_first_name(b, k);
                assert(with_key(a, k) == with_key(b, k));
                let n: int = if k == key {
                    1
                } else {
                    0
                };
                assert(with_key(ra, k) =~= with_key(a, k).skip(n));
                assert(with_key(rb, k) =~= with_key(b, k).skip(n));
            }
        }
        lemma_rest_is_sorted(a);
        lemma_rest_is_sorted(b);
        law_sorted_list_is_unique(ra, rb);
        assert(a =~= seq![a[0]] + ra);
        assert(b =~= seq![b[0]] + rb);
    }
}

proof fn lemma_rest_is_sorted(names: Seq<Seq<char>>)
    requires
        names.len() > 0,
        newest_first(names),
    ensures
        newest_first(names.drop_first()),
{
    let rest = names.drop_first();
    assert forall|x: int, y: int| 0 <= x < y < rest.len() implies key_at_least(
        version_key(#[trigger] rest[x]),
        version_key(#[trigger] rest[y]),
    ) by {
        assert(rest[x] == names[x + 1]);
        assert(rest[y] == names[y + 1]);
    }
}

/// The first name leads the names of its key.
proof fn lemma_first_name(names: Seq<Seq<char>>, key: (int, int, int))
    requires
        names.len() > 0,
    ensures
        with_key(names, key) == (if version_key(names[0]) == key {
            seq![names[0]]
        } else {
            seq![]
        }) + with_key(names.drop_first(), key),
{
    assert(names =~= seq![names[0]] + names.drop_first());
    lemma_with_key_concat(seq![names[0]], names.drop_first(), key);
    lemma_with_key_one(names[0], key);
}

/// Of two sorted lists with the same names, the first name of the one is not older
/// than the first name of the other.
proof fn lemma_newer_key(a: Seq<Seq<char>>, b: Seq<Seq<char>>)
    requires
        newest_first(b),
        same_names(a, b) || same_names(b, a),
        a.len() > 0,
    ensures
        b.len() > 0,
        key_at_least(version_key(b[0]), version_key(a[0])),
{
    let key = version_key(a[0]);
    lemma_key_is_there(a, 0);
    assert(with_key(a, key) == with_key(b, key)) by {
        assert(with_key(b, key) == with_key(b, key));
    }
    lemma_key_stands_somewhere(b, key);
    let i = choose|i: int| 0 <= i < b.len() && version_key(#[trigger] b[i]) == key;
    if i > 0 {
        assert(key_at_least(version_key(b[0]), version_key(b[i])));
    }
}

proof fn lemma_key_is_there(names: Seq<Seq<char>>, i: int)
    requires
        0 <= i < names.len(),
    ensures
        with_key(names, version_key(names[i])).len() > 0,
{
    let key = version_key(names[i]);
    let head = names.take(i);
    let tail = names.skip(i + 1);
    assert(names =~= head + seq![names[i]] + tail);
    lemma_with_key_concat(head + seq![names[i]], tail, key);
    lemma_with_key_concat(head, seq![names[i]], key);
    lemma_with_key_one(names[i], key);
}

proof fn lemma_key_stands_somewhere(names: Seq<Seq<char>>, key: (int, int, int))
    requires
        with_key(names, key).len() > 0,
    ensures
        exists|i: int| 0 <= i < names.len() && version_key(#[trigger] names[i]) == key,
{
    if forall|i: int| 0 <= i < names.len() ==> version_key(#[trigger] names[i]) != key {
        lemma_with_key_none(names, key);
    }
}

/// The NAT is told by the ports that two servers have seen: the same port means a cone,
/// different ones mean a symmetric NAT, one answer tells nothing, and none means that
/// UDP is blocked. The report shows each server's answer as it came.
pub proof fn law_nat_is_told_by_the_ports(first: Option<Endpoint>, second: Option<Endpoint>)
    ensures
        ({
            let r = nat_report(first, second);
            &&& r.primary == first
            &&& r.secondary == second
            &&& r.nat_type == NatType::UdpBlocked <==> first is None && second is None
            &&& r.nat_type == NatType::Cone <==> first is Some && second is Some && first->0.port
                == second->0.port
            &&& r.nat_type == NatType::Symmetric <==> first is Some && second is Some
                && first->0.port != second->0.port
            &&& r.nat_type == NatType::Indeterminate <==> (first is Some) != (second is Some)
        }),
{
}

/// It does not matter which server is asked first.
pub proof fn law_servers_count_alike(first: Option<Endpoint>, second: Option<Endpoint>)
    ensures
        nat_report(first, second).nat_type == nat_report(second, first).nat_type,
{
}

/// The types of NATs are called differently.
pub proof fn law_nats_are_told_apart(a: NatType, b: NatType)
    requires
        a.text() == b.text(),
    ensures
        a == b,
{
    reveal_strlit("UDP Blocked (P2P unavailable)");
    reveal_strlit("Cone NAT (P2P ready)");
    reveal_strlit("Symmetric NAT (relay mode)");
    reveal_strlit("Indeterminate (1 server only)");
    assert("UDP Blocked (P2P unavailable)"@[0] == 'U');
    assert("Cone NAT (P2P ready)"@[0] == 'C');
    assert("Symmetric NAT (relay mode)"@[0] == 'S');
    assert("Indeterminate (1 server only)"@[0] == 'I');
    assert(a.text()[0] == b.text()[0]);
}

/// A piece that is a number counts, and comes before those behind it.
proof fn lemma_numbers_first(n: nat, rest: Seq<Seq<char>>)
    requires
        n <= u32::MAX,
    ensures
        numbers(seq![text::decimal(n)] + rest) == seq![n as int] + numbers(rest),
{
    text::lemma_number_of_decimal(n, u32::MAX as int);
    let all = seq![text::decimal(n)] + rest;
    assert(all[0] == text::decimal(n));
    assert(all.drop_first() =~= rest);
}

/// A number before a dot is the first piece.
proof fn lemma_split_number(n: nat, rest: Seq<char>)
    ensures
        text::split_on(text::decimal(n) + seq!['.'] + rest, '.') == seq![text::decimal(n)]
            + text::split_on(rest, '.'),
        text::split_on(text::decimal(n), '.') == seq![text::decimal(n)],
{
    text::lemma_decimal(n);
    let d = text::decimal(n);
    assert forall|i: int| 0 <= i < d.len() implies #[trigger] d[i] != '.' by {
        assert(text::is_digit(d[i]));
    }
    text::law_pieces_are_parted_by_marks(d, '.', rest);
}

/// A version is ordered by its three numbers, as they are written; where the last one or
/// the last two are missing, they count as zero.
pub proof fn law_versions_are_read_as_written(a: nat, b: nat, c: nat)
    requires
        a <= u32::MAX,
        b <= u32::MAX,
        c <= u32::MAX,
    ensures
        version_key(
            text::decimal(a) + seq!['.'] + (text::decimal(b) + seq!['.'] + text::decimal(c)),
        ) == (a as int, b as int, c as int),
        version_key(text::decimal(a) + seq!['.'] + text::decimal(b)) == (a as int, b as int, 0int),
        version_key(text::decimal(a)) == (a as int, 0int, 0int),
{
    let none = Seq::<Seq<char>>::empty();
    let bc = text::decimal(b) + seq!['.'] + text::decimal(c);
    lemma_split_number(a, bc);
    lemma_split_number(b, text::decimal(c));
    lemma_split_number(a, text::decimal(b));
    lemma_split_number(b, seq![]);
    lemma_split_number(c, seq![]);
    let pc = seq![text::decimal(c)];
    let pb = seq![text::decimal(b)];
    assert(pc =~= seq![text::decimal(c)] + none);
    assert(pb =~= seq![text::decimal(b)] + none);
    assert(seq![text::decimal(a)] =~= seq![text::decimal(a)] + none);
    lemma_numbers_first(c, none);
    lemma_numbers_first(b, none);
    lemma_numbers_first(b, pc);
    lemma_numbers_first(a, pb + pc);
    lemma_numbers_first(a, pb);
    lemma_numbers_first(a, none);
}

/// Of two versions the one with the greater number in the first place where they differ
/// is the newer one.
pub proof fn law_newer_versions_have_greater_numbers(
    p: (int, int, int),
    q: (int, int, int),
)
    ensures
        p.0 > q.0 ==> key_at_least(p, q) && !key_at_least(q, p),
        p.0 == q.0 && p.1 > q.1 ==> key_at_least(p, q) && !key_at_least(q, p),
        p.0 == q.0 && p.1 == q.1 && p.2 > q.2 ==> key_at_least(p, q) && !key_at_least(q, p),
        key_at_least(p, p),
{
}

/// Releases are the names that begin with a digit; snapshots and loaders that do not are
/// left out.
pub proof fn law_releases_begin_with_a_digit(n: nat, rest: Seq<char>, c: char)
    ensures
        is_release(text::decimal(n) + rest),
        !text::is_digit(c) ==> !is_release(seq![c] + rest),
        !is_release(Seq::<char>::empty()),
{
    text::lemma_decimal(n);
    assert((text::decimal(n) + rest)[0] == text::decimal(n)[0]);
    assert(text::is_digit(text::decimal(n)[0]));
}

/// A name is listed if and only if it is a release: nothing is added, and no release is
/// lost.
pub proof fn law_releases_are_kept(names: Seq<Seq<char>>, name: Seq<char>)
    ensures
        releases(names.push(name)) == (if is_release(name) {
            releases(names).push(name)
        } else {
            releases(names)
        }),
        releases(Seq::<Seq<char>>::empty()) == Seq::<Seq<char>>::empty(),
{
    reveal(Seq::filter);
    assert(names.push(name).drop_last() =~= names);
}

/// The full label of a Linux system is the pretty name of its file, in quotes or not,
/// and the name of the family where there is none.
pub proof fn law_linux_is_called_by_its_pretty_name(
    name: Seq<char>,
    q: nat,
    before: Seq<char>,
    rest: Seq<Seq<char>>,
)
    requires
        name.len() > 0,
        name[0] != '"',
        name.last() != '"',
        !text::begins_with(before, "PRETTY_NAME="@),
    ensures
        ({
            let quotes = Seq::new(q, |i: int| '"');
            let line = "PRETTY_NAME="@ + (quotes + name + quotes);
            &&& linux_name(seq![line] + rest) == name
            &&& linux_name(seq![before] + rest) == linux_name(rest)
        }),
        linux_name(Seq::<Seq<char>>::empty()) == "Linux"@,
{
    let quotes = Seq::new(q, |i: int| '"');
    system::law_lines_with_the_prefix_count(
        rest,
        "PRETTY_NAME="@,
        quotes + name + quotes,
        before,
    );
    text::law_marks_around_are_taken_off(name, '"', q, q);
}

/// The full label of a macOS system is the product's name and version from its file.
pub proof fn law_macos_is_called_by_its_product(name_line: Seq<char>, version_line: Seq<char>)
    ensures
        macos_name(
            seq![
                "<key>ProductName</key>"@,
                name_line,
                "<key>ProductVersion</key>"@,
                version_line,
            ],
        ) == system::plist_string(name_line) + " "@ + system::plist_string(version_line),
        macos_name(seq!["<key>ProductName</key>"@, name_line]) == system::plist_string(name_line),
        macos_name(seq![]) == "macOS"@,
{
    reveal_strlit("<key>ProductName</key>");
    reveal_strlit("<key>ProductVersion</key>");
    reveal_strlit("<key>ProductUserVisibleVersion</key>");
    let a = "<key>ProductName</key>"@;
    let b = "<key>ProductVersion</key>"@;
    let none = Seq::<char>::empty();
    assert(a[0] == '<' && a.last() == '>' && b[0] == '<' && b.last() == '>');
    text::law_trimmed_is_what_stands_between(none, a, none);
    text::law_trimmed_is_what_stands_between(none, b, none);
    assert(none + a + none =~= a);
    assert(none + b + none =~= b);
    assert(a.len() != b.len());
    let all = seq![a, name_line, b, version_line];
    let known = system::ProductView { name: None, version: None };
    let named = system::ProductView {
        name: Some(system::plist_string(name_line)),
        version: None,
    };
    let both = system::ProductView {
        name: Some(system::plist_string(name_line)),
        version: Some(system::plist_string(version_line)),
    };
    assert(all.skip(2) =~= seq![b, version_line]);
    assert(seq![b, version_line].skip(2) =~= seq![]);
    assert(seq![a, name_line].skip(2) =~= seq![]);
    assert(system::product_in(seq![], both) == both);
    assert(system::product_in(seq![b, version_line], named) == both);
    assert(system::product_in(all, known) == both);
    assert(system::product_in(seq![], named) == named);
    assert(system::product_in(seq![a, name_line], known) == named);
}

/// Minecraft keeps its files below the home directory, on Windows below that for the
/// data of applications; nothing is known of other systems.
pub proof fn law_minecraft_is_looked_for_in_its_place(os: Os)
    ensures
        minecraft_place(os) is None <==> os == Os::Other,
        minecraft_place(os) matches Some((variable, path)) ==> {
            &&& variable == "APPDATA"@ <==> os == Os::Windows
            &&& variable == "HOME"@ <==> os != Os::Windows
            &&& path == "Library/Application Support/minecraft"@ <==> os == Os::Macos
            &&& path == ".minecraft"@ <==> os != Os::Macos
        },
{
    reveal_strlit("APPDATA");
    reveal_strlit("HOME");
    reveal_strlit(".minecraft");
    reveal_strlit("Library/Application Support/minecraft");
    assert("APPDATA"@.len() == 7 && "HOME"@.len() == 4);
    assert(".minecraft"@[0] == '.');
    assert("Library/Application Support/minecraft"@[0] == 'L');
}

/// The types of NATs are told in these words.
pub proof fn law_nats_are_told_in_words()
    ensures
        NatType::UdpBlocked.text() == "UDP Blocked (P2P unavailable)"@,
        NatType::Cone.text() == "Cone NAT (P2P ready)"@,
        NatType::Symmetric.text() == "Symmetric NAT (relay mode)"@,
        NatType::Indeterminate.text() == "Indeterminate (1 server only)"@,
{
}

/// Where no file tells more, the full label is the coarse one that reports carry.
pub proof fn law_labels_agree_without_a_file(os: Os, name: Seq<char>, content: Seq<char>)
    ensures
        full_label(os, name, None) == telemetry::coarse_label(os, name, None),
        os == Os::Windows || os == Os::Other ==> full_label(os, name, Some(content))
            == full_label(os, name, None),
        os == Os::Linux ==> full_label(os, name, Some(content)) == linux_name(
            text::lines(content),
        ),
        os == Os::Macos ==> full_label(os, name, Some(content)) == macos_name(
            text::lines(content),
        ),
{
}

} // verus!
