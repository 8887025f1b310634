//! Network egress policy.
//!
//! A pipeline step that needs network egress declares a [`NetworkPolicy`]
//! describing which targets the runner is permitted to contact. The runner's
//! enforcement layer consults the policy on each outbound connection;
//! non-matching attempts are refused (or, under [`EgressDefault::Audit`],
//! allowed but recorded).
//!
//! This module answers one question: given a policy and a target, what is the
//! decision?

use crate::text;
use vstd::prelude::*;

verus! {

/// An IP address, as the number that its bytes write in network order.
#[derive(Clone, Copy, Debug, PartialEq, Eq, Structural)]
pub enum IpAddr {
    /// An IPv4 address.
    V4(u32),
    /// An IPv6 address.
    V6(u128),
}

/// What happens to an outbound connection that didn't match any
/// allowlist entry.
#[derive(Clone, Copy, Debug, PartialEq, Eq, Structural)]
pub enum EgressDefault {
    /// Refuse the connection. Default.
    Deny,
    /// Allow the connection but record the attempt. Operators use this to
    /// discover what a step actually needs before switching to `Deny`.
    Audit,
}

impl Default for EgressDefault {
    fn default() -> (r: Self)
        ensures
            r == EgressDefault::Deny,
    {
        EgressDefault::Deny
    }
}

/// URL scheme class: the protocol the step intends to speak.
#[derive(Clone, Copy, Debug, PartialEq, Eq, Structural)]
pub enum Scheme {
    /// HTTP (port 80 by default).
    Http,
    /// HTTPS / TLS (port 443 by default).
    Https,
    /// Any TCP: the runner doesn't inspect the protocol above it.
    Tcp,
}

/// What to do with an attempted egress.
#[derive(Clone, Copy, Debug, PartialEq, Eq, Structural)]
pub enum Decision {
    /// Connection allowed.
    Allow,
    /// Connection refused.
    Deny,
    /// Connection allowed but recorded.
    Audit,
}

/// One allowlist entry. Match semantics:
///
/// - [`Host`](Self::Host) matches a hostname-port-scheme triple
///   exactly. Wildcards are not supported: use multiple entries.
/// - [`Cidr`](Self::Cidr) matches an IP within the CIDR range and
///   a port within the closed `[start, end]` range. The CIDR is
///   stored as a string (e.g. `"10.0.0.0/8"`) and parsed at
///   evaluation time; invalid CIDRs match nothing.
#[derive(Clone, Debug, PartialEq, Eq)]
pub enum EgressTarget {
    /// DNS-name-based allow.
    Host {
        /// Exact hostname; no wildcards.
        hostname: String,
        /// Port number. `0` means "any port"; otherwise exact match.
        port: u16,
        /// URL scheme.
        scheme: Scheme,
    },
    /// IP/port-range allow.
    Cidr {
        /// CIDR notation, e.g. `"10.0.0.0/8"` or `"::/0"`.
        cidr: String,
        /// Port range, inclusive on both ends. `(0, 0)` means
        /// "any port".
        port_range_start: u16,
        /// See `port_range_start`.
        port_range_end: u16,
    },
}

/// What an allowlist entry says.
pub enum TargetFact {
    /// DNS-name-based allow.
    Host {
        /// Hostname.
        hostname: Seq<char>,
        /// Port, or zero.
        port: u16,
        /// Scheme.
        scheme: Scheme,
    },
    /// IP/port-range allow.
    Cidr {
        /// CIDR notation.
        cidr: Seq<char>,
        /// First port.
        port_range_start: u16,
        /// Last port.
        port_range_end: u16,
    },
}

impl View for EgressTarget {
    type V = TargetFact;

    open spec fn view(&self) -> TargetFact {
        match *self {
            EgressTarget::Host { hostname, port, scheme } => TargetFact::Host {
                hostname: hostname@,
                port,
                scheme,
            },
            EgressTarget::Cidr { cidr, port_range_start, port_range_end } => TargetFact::Cidr {
                cidr: cidr@,
                port_range_start,
                port_range_end,
            },
        }
    }
}

/// Per-step network egress policy. The default is "deny everything":
/// a step that doesn't explicitly opt into egress gets none.
#[derive(Clone, Debug, PartialEq, Eq)]
pub struct NetworkPolicy {
    /// Allowlisted egress targets. A target matches if any entry
    /// here matches; iteration order doesn't affect the decision.
    pub allow: Vec<EgressTarget>,
    /// What to do when no allowlist entry matches.
    pub default: EgressDefault,
}

/// What a policy says.
pub struct PolicyFact {
    /// Allowlisted targets.
    pub allow: Seq<TargetFact>,
    /// What to do when none matches.
    pub default: EgressDefault,
}

/// What a list of entries says.
pub open spec fn targets(v: Seq<EgressTarget>) -> Seq<TargetFact> {
    v.map_values(|t: EgressTarget| t@)
}

impl View for NetworkPolicy {
    type V = PolicyFact;

    open spec fn view(&self) -> PolicyFact {
        PolicyFact { allow: targets(self.allow@), default: self.default }
    }
}

/// The policy that denies everything.
pub open spec fn denies_all() -> PolicyFact {
    PolicyFact { allow: Seq::empty(), default: EgressDefault::Deny }
}

impl Default for NetworkPolicy {
    fn default() -> (r: Self)
        ensures
            r@ == denies_all(),
    {
        let r = NetworkPolicy { allow: Vec::new(), default: EgressDefault::Deny };
        assert(r@.allow =~= Seq::<TargetFact>::empty());
        r
    }
}

/// What an outbound connection is trying to reach.
#[derive(Clone, Debug, PartialEq, Eq)]
pub struct EgressAttempt<'a> {
    /// Hostname the step asked for, if any. None for direct-IP
    /// connections.
    pub hostname: Option<&'a str>,
    /// Resolved (or directly-supplied) destination IP.
    pub addr: IpAddr,
    /// Destination port.
    pub port: u16,
    /// Protocol the step intends to speak.
    pub scheme: Scheme,
}

/// What an attempt says.
pub struct AttemptFact {
    /// Hostname, if any.
    pub hostname: Option<Seq<char>>,
    /// Destination IP.
    pub addr: IpAddr,
    /// Destination port.
    pub port: u16,
    /// Protocol.
    pub scheme: Scheme,
}

impl<'a> View for EgressAttempt<'a> {
    type V = AttemptFact;

    open spec fn view(&self) -> AttemptFact {
        AttemptFact {
            hostname: match self.hostname {
                Some(h) => Some(h@),
                None => None,
            },
            addr: self.addr,
            port: self.port,
            scheme: self.scheme,
        }
    }
}

// ── Addresses in text ──────────────────────────────────────────────────────
/// The octet that a text writes: one to three digits, no needless zero in
/// front, at most 255.
pub open spec fn octet_of(s: Seq<char>) -> Option<nat> {
    if 1 <= s.len() <= 3 && text::all_digits(s) && (s.len() > 1 ==> s[0] != '0')
        && text::number_of(s) <= 255 {
        Some(text::number_of(s))
    } else {
        None
    }
}

fn read_octet(chars: &[char]) -> (r: Option<u32>)
    ensures
        match r {
            Some(n) => octet_of(chars@) == Some(n as nat),
            None => octet_of(chars@) is None,
        },
{
    if chars.len() == 0 || chars.len() > 3 || chars[0] == '+' || (chars.len() > 1 && chars[0]
        == '0') {
        assert(chars@.len() > 0 && chars@[0] == '+' ==> !text::is_digit(chars@[0]));
        return None;
    }
    match text::parse_unsigned(chars, 255) {
        Some(n) => Some(n as u32),
        None => None,
    }
}

/// The IPv4 address that a text writes: four octets between dots.
pub open spec fn v4_of(s: Seq<char>) -> Option<nat> {
    let p = text::split_of(s, '.');
    if p.len() == 4 && octet_of(p[0]) is Some && octet_of(p[1]) is Some && octet_of(p[2]) is Some
        && octet_of(p[3]) is Some {
        Some(
            ((octet_of(p[0])->0 * 256 + octet_of(p[1])->0) * 256 + octet_of(p[2])->0) * 256
                + octet_of(p[3])->0,
        )
    } else {
        None
    }
}

fn read_v4(chars: &[char]) -> (r: Option<u32>)
    ensures
        match r {
            Some(n) => v4_of(chars@) == Some(n as nat),
            None => v4_of(chars@) is None,
        },
{
    let p = text::split(chars, '.');
    if p.len() != 4 {
        return None;
    }
    let ghost pv = text::texts(p@);
    assert(pv[0] == p@[0]@ && pv[1] == p@[1]@ && pv[2] == p@[2]@ && pv[3] == p@[3]@);
    match (
        read_octet(p[0].as_slice()),
        read_octet(p[1].as_slice()),
        read_octet(p[2].as_slice()),
        read_octet(p[3].as_slice()),
    ) {
        (Some(a), Some(b), Some(c), Some(d)) => Some(((a * 256 + b) * 256 + c) * 256 + d),
        _ => None,
    }
}

/// The value of a hex digit of either case.
pub open spec fn hex_digit_of(c: char) -> Option<nat> {
    if '0' <= c <= '9' {
        Some((c as u32 - '0' as u32) as nat)
    } else if 'a' <= c <= 'f' {
        Some((c as u32 - 'a' as u32 + 10) as nat)
    } else if 'A' <= c <= 'F' {
        Some((c as u32 - 'A' as u32 + 10) as nat)
    } else {
        None
    }
}

fn hex_digit(c: char) -> (r: Option<u16>)
    ensures
        match r {
            Some(n) => hex_digit_of(c) == Some(n as nat) && n < 16,
            None => hex_digit_of(c) is None,
        },
{
    if '0' <= c && c <= '9' {
        Some((c as u32 - '0' as u32) as u16)
    } else if 'a' <= c && c <= 'f' {
        Some((c as u32 - 'a' as u32 + 10) as u16)
    } else if 'A' <= c && c <= 'F' {
        Some((c as u32 - 'A' as u32 + 10) as u16)
    } else {
        None
    }
}

/// The number that hex digits write.
pub open spec fn hex_number_of(s: Seq<char>) -> nat
    decreases s.len(),
{
    if s.len() == 0 {
        0
    } else {
        16 * hex_number_of(s.drop_last()) + hex_digit_of(s.last())->0
    }
}

/// Whether a text is a group of an IPv6 address: one to four hex digits.
pub open spec fn is_group(s: Seq<char>) -> bool {
    1 <= s.len() <= 4 && forall|i: int| 0 <= i < s.len() ==> hex_digit_of(#[trigger] s[i]) is Some
}

fn read_group(chars: &[char]) -> (r: Option<u16>)
    ensures
        match r {
            Some(n) => is_group(chars@) && hex_number_of(chars@) == n,
            None => !is_group(chars@),
        },
{
    if chars.len() == 0 || chars.len() > 4 {
        return None;
    }
    let mut n: u16 = 0;
    let mut i: usize = 0;
    assert(chars@.take(0) =~= Seq::<char>::empty());
    while i < chars.len()
        invariant
            i <= chars.len() <= 4,
            n == hex_number_of(chars@.take(i as int)),
            i == 0 ==> n == 0,
            i == 1 ==> n < 0x10,
            i == 2 ==> n < 0x100,
            i == 3 ==> n < 0x1000,
            forall|k: int| 0 <= k < i ==> hex_digit_of(#[trigger] chars@[k]) is Some,
        decreases chars.len() - i,
    {
        assert(chars@.take(i + 1).drop_last() =~= chars@.take(i as int));
        match hex_digit(chars[i]) {
            Some(d) => {
                n = n * 16 + d;
            },
            None => {
                assert(hex_digit_of(chars@[i as int]) is None);
                return None;
            },
        }
        i = i + 1;
    }
    assert(chars@.take(i as int) =~= chars@);
    Some(n)
}

/// The groups that some parts write: each a group, or, where `dotted` allows it,
/// an IPv4 address in the last place, which is two groups.
pub open spec fn part_groups(parts: Seq<Seq<char>>, dotted: bool) -> Option<Seq<nat>>
    decreases parts.len(),
{
    if parts.len() == 0 {
        Some(Seq::empty())
    } else {
        match part_groups(parts.drop_last(), false) {
            Some(front) => if is_group(parts.last()) {
                Some(front.push(hex_number_of(parts.last())))
            } else if dotted && v4_of(parts.last()) is Some {
                Some(
                    front.push(v4_of(parts.last())->0 / 65536).push(
                        v4_of(parts.last())->0 % 65536,
                    ),
                )
            } else {
                None
            },
            None => None,
        }
    }
}

/// The groups that a text writes, between colons. Empty text writes none.
pub open spec fn groups_of(s: Seq<char>, dotted: bool) -> Option<Seq<nat>> {
    if s.len() == 0 {
        Some(Seq::empty())
    } else {
        part_groups(text::split_of(s, ':'), dotted)
    }
}

/// Groups as numbers.
pub open spec fn nats(v: Seq<u16>) -> Seq<nat> {
    v.map_values(|g: u16| g as nat)
}

proof fn lemma_part_groups_prefix(parts: Seq<Seq<char>>, n: int, dotted: bool)
    requires
        0 <= n < parts.len(),
        part_groups(parts.take(n), false) is None,
    ensures
        part_groups(parts, dotted) is None,
    decreases parts.len(),
{
    if n == parts.len() - 1 {
        assert(parts.take(n) =~= parts.drop_last());
    } else {
        assert(parts.drop_last().take(n) =~= parts.take(n));
        lemma_part_groups_prefix(parts.drop_last(), n, false);
    }
}

fn read_groups(chars: &[char], dotted: bool) -> (r: Option<Vec<u16>>)
    ensures
        match r {
            Some(g) => groups_of(chars@, dotted) == Some(nats(g@)),
            None => groups_of(chars@, dotted) is None,
        },
{
    let mut out: Vec<u16> = Vec::new();
    if chars.len() == 0 {
        assert(nats(out@) =~= Seq::<nat>::empty());
        return Some(out);
    }
    let p = text::split(chars, ':');
    let ghost pv = text::texts(p@);
    let mut i: usize = 0;
    assert(pv.take(0) =~= Seq::<Seq<char>>::empty());
    assert(nats(out@) =~= Seq::<nat>::empty());
    while i + 1 < p.len()
        invariant
            i < p.len(),
            pv == text::texts(p@),
            chars@.len() > 0,
            pv == text::split_of(chars@, ':'),
            part_groups(pv.take(i as int), false) == Some(nats(out@)),
        decreases p.len() - i,
    {
        assert(pv[i as int] == p@[i as int]@);
        assert(pv.take(i + 1).drop_last() =~= pv.take(i as int));
        let ghost held = nats(out@);
        match read_group(p[i].as_slice()) {
            Some(g) => {
                out.push(g);
                assert(nats(out@) =~= held.push(g as nat));
            },
            None => {
                proof {
                    lemma_part_groups_prefix(pv, i + 1, dotted);
                }
                return None;
            },
        }
        i = i + 1;
    }
    assert(pv[i as int] == p@[i as int]@);
    assert(pv.drop_last() =~= pv.take(i as int));
    let ghost held = nats(out@);
    match read_group(p[i].as_slice()) {
        Some(g) => {
            out.push(g);
            assert(nats(out@) =~= held.push(g as nat));
            Some(out)
        },
        None => {
            if !dotted {
                return None;
            }
            match read_v4(p[i].as_slice()) {
                Some(a) => {
                    let (hi, lo): (u16, u16) = ((a / 65536) as u16, (a % 65536) as u16);
                    out.push(hi);
                    out.push(lo);
                    assert(nats(out@) =~= held.push(hi as nat).push(lo as nat));
                    Some(out)
                },
                None => None,
            }
        },
    }
}

/// The number that groups of sixteen bits write.
pub open spec fn groups_value(g: Seq<nat>) -> nat
    decreases g.len(),
{
    if g.len() == 0 {
        0
    } else {
        groups_value(g.drop_last()) * 65536 + g.last()
    }
}

/// Where the first double colon of a text is, or its length.
pub open spec fn gap_at(s: Seq<char>) -> nat
    decreases s.len(),
{
    if s.len() < 2 {
        s.len()
    } else if s[0] == ':' && s[1] == ':' {
        0
    } else {
        1 + gap_at(s.skip(1))
    }
}

/// Zero groups between two lists of groups, eight in all.
pub open spec fn filled(head: Seq<nat>, tail: Seq<nat>) -> Seq<nat> {
    head + Seq::new((8 - head.len() - tail.len()) as nat, |i: int| 0nat) + tail
}

/// The IPv6 address that a text writes: eight groups; or fewer, and a double
/// colon that stands for one or more groups of zero. The last two groups may be
/// written as an IPv4 address.
pub open spec fn v6_of(s: Seq<char>) -> Option<nat> {
    let n = gap_at(s) as int;
    if n >= s.len() {
        match groups_of(s, true) {
            Some(g) => if g.len() == 8 {
                Some(groups_value(g))
            } else {
                None
            },
            None => None,
        }
    } else {
        match (groups_of(s.take(n), false), groups_of(s.skip(n + 2), true)) {
            (Some(head), Some(tail)) => if head.len() + tail.len() <= 7 {
                Some(groups_value(filled(head, tail)))
            } else {
                None
            },
            _ => None,
        }
    }
}

fn find_gap(chars: &[char]) -> (r: usize)
    ensures
        r == gap_at(chars@),
        r < chars@.len() ==> r + 2 <= chars@.len(),
        r <= chars@.len(),
{
    let mut i: usize = 0;
    assert(chars@.skip(0) =~= chars@);
    while chars.len() >= 2 && i < chars.len() - 1
        invariant
            i <= chars.len(),
            gap_at(chars@) == i + gap_at(chars@.skip(i as int)),
        decreases chars.len() - i,
    {
        if chars[i] == ':' && chars[i + 1] == ':' {
            return i;
        }
        assert(chars@.skip(i as int).skip(1) =~= chars@.skip(i + 1));
        i = i + 1;
    }
    chars.len()
}

fn value_of(groups: &Vec<u16>) -> (r: u128)
    requires
        groups@.len() == 8,
    ensures
        r == groups_value(nats(groups@)),
{
    let ghost g = nats(groups@);
    let mut n: u128 = 0;
    let mut i: usize = 0;
    assert(g.take(0) =~= Seq::<nat>::empty());
    while i < 8
        invariant
            i <= 8,
            groups@.len() == 8,
            g == nats(groups@),
            n == groups_value(g.take(i as int)),
            i == 0 ==> n == 0,
            i == 1 ==> n < 0x1_0000,
            i == 2 ==> n < 0x1_0000_0000,
            i == 3 ==> n < 0x1_0000_0000_0000,
            i == 4 ==> n < 0x1_0000_0000_0000_0000,
            i == 5 ==> n < 0x1_0000_0000_0000_0000_0000,
            i == 6 ==> n < 0x1_0000_0000_0000_0000_0000_0000,
            i == 7 ==> n < 0x1_0000_0000_0000_0000_0000_0000_0000,
        decreases 8 - i,
    {
        assert(g.take(i + 1).drop_last() =~= g.take(i as int));
        n = n * 65536 + groups[i] as u128;
        i = i + 1;
    }
    assert(g.take(8) =~= g);
    n
}

fn read_v6(chars: &[char]) -> (r: Option<u128>)
    ensures
        match r {
            Some(n) => v6_of(chars@) == Some(n as nat),
            None => v6_of(chars@) is None,
        },
{
    let n: usize = find_gap(chars);
    if n == chars.len() {
        match read_groups(chars, true) {
            Some(g) => if g.len() == 8 {
                Some(value_of(&g))
            } else {
                None
            },
            None => None,
        }
    } else {
        let a = text::copy_range(chars, 0, n);
        let b = text::copy_range(chars, n + 2, chars.len());
        assert(a@ =~= chars@.take(n as int));
        assert(b@ =~= chars@.skip(n + 2));
        match (read_groups(a.as_slice(), false), read_groups(b.as_slice(), true)) {
            (Some(head), Some(tail)) => {
                if head.len() > 7 || tail.len() > 7 - head.len() {
                    return None;
                }
                let ghost (hv, tv) = (nats(head@), nats(tail@));
                let mut all: Vec<u16> = Vec::new();
                let mut i: usize = 0;
                while i < 8
                    invariant
                        i <= 8,
                        all@.len() == i,
                        head@.len() + tail@.len() <= 7,
                        hv == nats(head@),
                        tv == nats(tail@),
                        forall|k: int| 0 <= k < i ==> #[trigger] all@[k] == filled(hv, tv)[k],
                    decreases 8 - i,
                {
                    let g: u16 = if i < head.len() {
                        head[i]
                    } else if i < 8 - tail.len() {
                        0
                    } else {
                        tail[i - (8 - tail.len())]
                    };
                    assert(g == filled(hv, tv)[i as int]);
                    all.push(g);
                    i = i + 1;
                }
                assert(nats(all@) =~= filled(hv, tv));
                Some(value_of(&all))
            },
            _ => None,
        }
    }
}

/// The address that a text writes, of either family.
pub open spec fn addr_of(s: Seq<char>) -> Option<IpAddr> {
    match v4_of(s) {
        Some(n) => Some(IpAddr::V4(n as u32)),
        None => match v6_of(s) {
            Some(n) => Some(IpAddr::V6(n as u128)),
            None => None,
        },
    }
}

/// The address that a text writes.
#[must_use]
pub fn parse_addr(chars: &[char]) -> (r: Option<IpAddr>)
    ensures
        r == addr_of(chars@),
{
    match read_v4(chars) {
        Some(n) => Some(IpAddr::V4(n)),
        None => match read_v6(chars) {
            Some(n) => Some(IpAddr::V6(n)),
            None => None,
        },
    }
}

// ── Decisions ──────────────────────────────────────────────────────────────
/// Whether two addresses of `width` bits agree in their first `prefix` bits.
pub open spec fn same_network(a: nat, b: nat, width: nat, prefix: nat) -> bool {
    let block = vstd::arithmetic::power2::pow2((width - prefix) as nat);
    a / block == b / block
}

/// Whether a range in CIDR notation holds an address. What is no such range
/// holds none, and no range holds an address of the other family.
pub open spec fn range_holds(cidr: Seq<char>, addr: IpAddr) -> bool {
    let slash = text::before(cidr, '/') as int;
    if slash >= cidr.len() {
        false
    } else {
        match (addr_of(cidr.take(slash)), text::unsigned_of(cidr.skip(slash + 1), 255), addr) {
            (Some(IpAddr::V4(base)), Some(prefix), IpAddr::V4(target)) => prefix <= 32
                && same_network(base as nat, target as nat, 32, prefix),
            (Some(IpAddr::V6(base)), Some(prefix), IpAddr::V6(target)) => prefix <= 128
                && same_network(base as nat, target as nat, 128, prefix),
            _ => false,
        }
    }
}

proof fn lemma_whole_range(n: nat, width: nat)
    requires
        n < vstd::arithmetic::power2::pow2(width),
    ensures
        n / vstd::arithmetic::power2::pow2(width) == 0,
{
    vstd::arithmetic::div_mod::lemma_basic_div(
        n as int,
        vstd::arithmetic::power2::pow2(width) as int,
    );
}

fn same_network_v4(base: u32, target: u32, prefix: u32) -> (r: bool)
    requires
        prefix <= 32,
    ensures
        r == same_network(base as nat, target as nat, 32, prefix as nat),
{
    proof {
        vstd::arithmetic::power2::lemma2_to64();
    }
    if prefix == 0 {
        proof {
            lemma_whole_range(base as nat, 32);
            lemma_whole_range(target as nat, 32);
        }
        return true;
    }
    let shift: u32 = 32 - prefix;
    proof {
        vstd::bits::lemma_u32_shr_is_div(base, shift);
        vstd::bits::lemma_u32_shr_is_div(target, shift);
    }
    (base >> shift) == (target >> shift)
}

fn same_network_v6(base: u128, target: u128, prefix: u128) -> (r: bool)
    requires
        prefix <= 128,
    ensures
        r == same_network(base as nat, target as nat, 128, prefix as nat),
{
    if prefix == 0 {
        proof {
            vstd::arithmetic::power2::lemma2_to64();
            vstd::arithmetic::power2::lemma_pow2_adds(64, 64);
            lemma_whole_range(base as nat, 128);
            lemma_whole_range(target as nat, 128);
        }
        return true;
    }
    let shift: u128 = 128 - prefix;
    proof {
        vstd::bits::lemma_u128_shr_is_div(base, shift);
        vstd::bits::lemma_u128_shr_is_div(target, shift);
    }
    (base >> shift) == (target >> shift)
}

/// Whether a range in CIDR notation holds an address. Invalid CIDR strings
/// match nothing: operator errors don't accidentally widen the policy.
#[must_use]
pub fn cidr_contains(cidr: &str, addr: IpAddr) -> (r: bool)
    ensures
        r == range_holds(cidr@, addr),
{
    let chars = text::chars_of(cidr);
    let slash: usize = text::find(chars.as_slice(), '/');
    if slash == chars.len() {
        return false;
    }
    let base = text::copy_range(chars.as_slice(), 0, slash);
    let rest = text::copy_range(chars.as_slice(), slash + 1, chars.len());
    assert(base@ =~= cidr@.take(slash as int));
    assert(rest@ =~= cidr@.skip(slash + 1));
    let prefix: u64 = match text::parse_unsigned(rest.as_slice(), 255) {
        Some(p) => p,
        None => return false,
    };
    match (parse_addr(base.as_slice()), addr) {
        (Some(IpAddr::V4(b)), IpAddr::V4(t)) => prefix <= 32 && same_network_v4(
            b,
            t,
            prefix as u32,
        ),
        (Some(IpAddr::V6(b)), IpAddr::V6(t)) => prefix <= 128 && same_network_v6(
            b,
            t,
            prefix as u128,
        ),
        _ => false,
    }
}

/// Whether an entry allows an attempt.
pub open spec fn allows(target: TargetFact, attempt: AttemptFact) -> bool {
    match target {
        TargetFact::Host { hostname, port, scheme } => {
            &&& attempt.hostname == Some(hostname)
            &&& port == 0 || port == attempt.port
            &&& scheme == Scheme::Tcp || scheme == attempt.scheme
        },
        TargetFact::Cidr { cidr, port_range_start, port_range_end } => {
            &&& (port_range_start == 0 && port_range_end == 0) || port_range_start
                <= attempt.port <= port_range_end
            &&& range_holds(cidr, attempt.addr)
        },
    }
}

/// Whether an entry allows an attempt.
#[must_use]
pub fn matches_target(target: &EgressTarget, attempt: &EgressAttempt<'_>) -> (r: bool)
    ensures
        r == allows(target@, attempt@),
{
    match target {
        EgressTarget::Host { hostname, port, scheme } => {
            let hostname_match: bool = match attempt.hostname {
                Some(h) => text::str_eq(h, hostname.as_str()),
                None => false,
            };
            hostname_match && (*port == 0 || *port == attempt.port) && scheme_matches(
                *scheme,
                attempt.scheme,
            )
        },
        EgressTarget::Cidr { cidr, port_range_start, port_range_end } => {
            let port_match: bool = (*port_range_start == 0 && *port_range_end == 0) || (attempt.port
                >= *port_range_start && attempt.port <= *port_range_end);
            port_match && cidr_contains(cidr.as_str(), attempt.addr)
        },
    }
}

/// `Scheme::Tcp` matches anything; otherwise exact match.
#[must_use]
pub fn scheme_matches(allowed: Scheme, attempted: Scheme) -> (r: bool)
    ensures
        r == (allowed == Scheme::Tcp || allowed == attempted),
{
    match allowed {
        Scheme::Tcp => true,
        _ => allowed == attempted,
    }
}

/// Whether some entry of a list allows an attempt.
pub open spec fn some_allows(allow: Seq<TargetFact>, attempt: AttemptFact) -> bool {
    exists|i: int| 0 <= i < allow.len() && allows(#[trigger] allow[i], attempt)
}

/// The decision of a policy: allowed where some entry allows it, else what the
/// default says.
pub open spec fn decision_of(policy: PolicyFact, attempt: AttemptFact) -> Decision {
    if some_allows(policy.allow, attempt) {
        Decision::Allow
    } else {
        match policy.default {
            EgressDefault::Deny => Decision::Deny,
            EgressDefault::Audit => Decision::Audit,
        }
    }
}

/// Evaluate a policy against a single outbound attempt.
#[must_use]
pub fn evaluate(policy: &NetworkPolicy, attempt: &EgressAttempt<'_>) -> (r: Decision)
    ensures
        r == decision_of(policy@, attempt@),
{
    let mut i: usize = 0;
    while i < policy.allow.len()
        invariant
            i <= policy.allow.len(),
            forall|k: int| 0 <= k < i ==> !allows(#[trigger] policy@.allow[k], attempt@),
        decreases policy.allow.len() - i,
    {
        assert(policy@.allow[i as int] == policy.allow@[i as int]@);
        if matches_target(&policy.allow[i], attempt) {
            return Decision::Allow;
        }
        i = i + 1;
    }
    match policy.default {
        EgressDefault::Deny => Decision::Deny,
        EgressDefault::Audit => Decision::Audit,
    }
}

/// A policy that denies everything.
#[must_use]
pub fn deny_all() -> (r: NetworkPolicy)
    ensures
        r@ == denies_all(),
{
    NetworkPolicy::default()
}

/// An entry that allows every port of a range.
pub open spec fn range_target(cidr: Seq<char>) -> TargetFact {
    TargetFact::Cidr { cidr, port_range_start: 0, port_range_end: 0 }
}

/// The policy that allows every address of both families.
pub open spec fn allows_all() -> PolicyFact {
    PolicyFact {
        allow: seq![range_target("0.0.0.0/0"@), range_target("::/0"@)],
        default: EgressDefault::Deny,
    }
}

/// A policy that allows everything: one entry that matches every IPv4
/// address, one that matches every IPv6 address.
#[must_use]
pub fn allow_all() -> (r: NetworkPolicy)
    ensures
        r@ == allows_all(),
{
    let mut allow: Vec<EgressTarget> = Vec::new();
    allow.push(
        EgressTarget::Cidr {
            cidr: "0.0.0.0/0".to_owned(),
            port_range_start: 0,
            port_range_end: 0,
        },
    );
    allow.push(
        EgressTarget::Cidr { cidr: "::/0".to_owned(), port_range_start: 0, port_range_end: 0 },
    );
    let r = NetworkPolicy { allow, default: EgressDefault::Deny };
    assert(r@.allow =~= allows_all().allow);
    r
}

// ── Laws ───────────────────────────────────────────────────────────────────
/// The order of the entries does not affect the decision, nor does writing one
/// twice: two policies with the same entries and the same default decide alike.
pub proof fn law_order_is_irrelevant(p: PolicyFact, q: PolicyFact, attempt: AttemptFact)
    requires
        p.default == q.default,
        p.allow.to_set() == q.allow.to_set(),
    ensures
        decision_of(p, attempt) == decision_of(q, attempt),
{
    law_entries_only_widen(p.allow, q.allow, attempt);
    law_entries_only_widen(q.allow, p.allow, attempt);
}

/// What a list of entries allows, every list that holds these entries allows.
pub proof fn law_entries_only_widen(a: Seq<TargetFact>, b: Seq<TargetFact>, attempt: AttemptFact)
    requires
        a.to_set().subset_of(b.to_set()),
    ensures
        some_allows(a, attempt) ==> some_allows(b, attempt),
{
    if some_allows(a, attempt) {
        let i = choose|i: int| 0 <= i < a.len() && allows(#[trigger] a[i], attempt);
        assert(a.to_set().contains(a[i]));
        assert(b.to_set().contains(a[i]));
        let j = choose|j: int| 0 <= j < b.len() && b[j] == a[i];
        assert(allows(b[j], attempt));
    }
}

/// A step that doesn't explicitly opt into egress gets none.
pub proof fn law_default_denies(attempt: AttemptFact)
    ensures
        decision_of(denies_all(), attempt) == Decision::Deny,
{
}

/// An entry by name never allows a connection that was made by address.
pub proof fn law_hosts_need_a_name(
    hostname: Seq<char>,
    port: u16,
    scheme: Scheme,
    attempt: AttemptFact,
)
    requires
        attempt.hostname is None,
    ensures
        !allows(TargetFact::Host { hostname, port, scheme }, attempt),
{
}

/// The policy that allows everything allows every attempt.
pub proof fn law_allow_all_allows(attempt: AttemptFact)
    ensures
        decision_of(allows_all(), attempt) == Decision::Allow,
{
    lemma_any_v4();
    lemma_any_v6();
    vstd::arithmetic::power2::lemma2_to64();
    vstd::arithmetic::power2::lemma_pow2_adds(64, 64);
    match attempt.addr {
        IpAddr::V4(n) => {
            lemma_whole_range(0, 32);
            lemma_whole_range(n as nat, 32);
            assert(allows(allows_all().allow[0], attempt));
        },
        IpAddr::V6(n) => {
            lemma_whole_range(0, 128);
            lemma_whole_range(n as nat, 128);
            assert(allows(allows_all().allow[1], attempt));
        },
    }
}

proof fn lemma_zero_prefix(s: Seq<char>)
    requires
        s == seq!['0'],
    ensures
        text::unsigned_of(s, 255) == Some(0nat),
        octet_of(s) == Some(0nat),
{
    reveal_with_fuel(text::number_of, 2);
    assert(s.drop_last() =~= Seq::<char>::empty());
}

proof fn lemma_any_v4()
    ensures
        text::before("0.0.0.0/0"@, '/') == 7,
        "0.0.0.0/0"@.len() == 9,
        addr_of("0.0.0.0/0"@.take(7)) == Some(IpAddr::V4(0)),
        text::unsigned_of("0.0.0.0/0"@.skip(8), 255) == Some(0nat),
{
    reveal_strlit("0.0.0.0/0");
    let s = "0.0.0.0/0"@;
    text::lemma_before(s, '/');
    let n = text::before(s, '/') as int;
    assert(s[7] == '/');
    assert(n == 7);
    let z = seq!['0'];
    lemma_zero_prefix(z);
    assert(s.skip(8) =~= z);
    let a = s.take(7);
    assert(a =~= seq!['0', '.', '0', '.', '0', '.', '0']);
    let b = a.skip(2);
    let c = b.skip(2);
    let d = c.skip(2);
    assert(a.take(1) =~= z && b.take(1) =~= z && c.take(1) =~= z && d =~= z);
    text::lemma_before(a, '.');
    text::lemma_before(b, '.');
    text::lemma_before(c, '.');
    text::lemma_before(d, '.');
    assert(a[1] == '.' && b[1] == '.' && c[1] == '.');
    assert(text::before(a, '.') == 1 && text::before(b, '.') == 1 && text::before(c, '.') == 1);
    assert(text::split_of(d, '.') =~= seq![z]);
    assert(text::split_of(c, '.') =~= seq![z, z]);
    assert(text::split_of(b, '.') =~= seq![z, z, z]);
    assert(text::split_of(a, '.') =~= seq![z, z, z, z]);
}

proof fn lemma_any_v6()
    ensures
        text::before("::/0"@, '/') == 2,
        "::/0"@.len() == 4,
        addr_of("::/0"@.take(2)) == Some(IpAddr::V6(0)),
        text::unsigned_of("::/0"@.skip(3), 255) == Some(0nat),
{
    reveal_strlit("::/0");
    let s = "::/0"@;
    text::lemma_before(s, '/');
    let n = text::before(s, '/') as int;
    assert(s[2] == '/');
    assert(n == 2);
    lemma_zero_prefix(seq!['0']);
    assert(s.skip(3) =~= seq!['0']);
    let a = s.take(2);
    text::lemma_before(a, '.');
    assert(text::split_of(a, '.') =~= seq![a]);
    assert(v4_of(a) is None);
    assert(gap_at(a) == 0);
    let e = Seq::<nat>::empty();
    assert(a.take(0) =~= Seq::<char>::empty());
    assert(a.skip(2) =~= Seq::<char>::empty());
    let f = filled(e, e);
    lemma_zeros_value(f);
}

proof fn lemma_zeros_value(g: Seq<nat>)
    requires
        forall|i: int| 0 <= i < g.len() ==> g[i] == 0,
    ensures
        groups_value(g) == 0,
    decreases g.len(),
{
    if g.len() > 0 {
        lemma_zeros_value(g.drop_last());
    }
}

proof fn lemma_octet(n: nat)
    requires
        n <= 255,
    ensures
        octet_of(text::decimal_of(n)) == Some(n),
        !text::decimal_of(n).contains('.'),
{
    text::law_decimal_round_trip(n, 255);
    text::lemma_decimal_is_word(n, true);
    reveal_with_fuel(text::decimal_of, 4);
    let d = text::decimal_of(n);
    text::lemma_decimal_digits(n);
    assert(text::all_digits(d) && text::number_of(d) == n);
    if n >= 10 {
        assert(d[0] == text::digit_char(if n < 100 {
            n / 10
        } else {
            n / 100
        }));
    }
    if d.contains('.') {
        let i = choose|i: int| 0 <= i < d.len() && d[i] == '.';
        assert(text::is_digit(d[i]));
    }
}

/// A dotted address is read octet by octet, the first weighing the most.
pub proof fn law_dotted_quad_is_read(a: nat, b: nat, c: nat, d: nat)
    requires
        a <= 255,
        b <= 255,
        c <= 255,
        d <= 255,
    ensures
        v4_of(
            text::decimal_of(a) + seq!['.'] + (text::decimal_of(b) + seq!['.'] + (text::decimal_of(
                c,
            ) + seq!['.'] + text::decimal_of(d))),
        ) == Some(16777216 * a + 65536 * b + 256 * c + d),
{
    lemma_octet(a);
    lemma_octet(b);
    lemma_octet(c);
    lemma_octet(d);
    let z = text::decimal_of(d);
    let y = text::decimal_of(c) + seq!['.'] + z;
    let x = text::decimal_of(b) + seq!['.'] + y;
    let s = text::decimal_of(a) + seq!['.'] + x;
    text::law_split_at_the_first(text::decimal_of(a), '.', x);
    text::law_split_at_the_first(text::decimal_of(b), '.', y);
    text::law_split_at_the_first(text::decimal_of(c), '.', z);
    text::law_split_at_the_first(z, '.', z);
    let p = text::split_of(s, '.');
    assert(p.len() == 4);
    assert(p[0] == text::decimal_of(a) && p[1] == text::decimal_of(b) && p[2] == text::decimal_of(
        c,
    ) && p[3] == text::decimal_of(d));
}

/// Hex digits weigh by their place, as do the groups of an address.
pub proof fn law_groups_weigh_by_place(
    a: Seq<nat>,
    b: Seq<nat>,
    s: Seq<char>,
    t: Seq<char>,
)
    ensures
        groups_value(Seq::empty()) == 0,
        groups_value(a + b) == groups_value(a) * vstd::arithmetic::power::pow(65536, b.len())
            + groups_value(b),
        hex_number_of(Seq::empty()) == 0,
        hex_number_of(s + t) == hex_number_of(s) * vstd::arithmetic::power::pow(16, t.len())
            + hex_number_of(t),
    decreases b.len() + t.len(),
{
    vstd::arithmetic::power::lemma_pow0(65536);
    vstd::arithmetic::power::lemma_pow0(16);
    assert(groups_value(a) * 1 == groups_value(a)) by (nonlinear_arith);
    assert(hex_number_of(s) * 1 == hex_number_of(s)) by (nonlinear_arith);
    reveal(vstd::arithmetic::power::pow);
    if b.len() == 0 {
        assert(a + b =~= a);
    } else {
        let less = b.drop_last();
        assert((a + b).drop_last() =~= a + less);
        assert((a + b).last() == b.last());
        law_groups_weigh_by_place(a, less, s, t);
        let p = vstd::arithmetic::power::pow(65536, less.len());
        assert(vstd::arithmetic::power::pow(65536, b.len()) == 65536 * p);
        let (x, y) = (groups_value(a) as int, groups_value(less) as int);
        assert((x * p + y) * 65536 == x * (65536 * p) + y * 65536) by (nonlinear_arith);
    }
    if t.len() == 0 {
        assert(s + t =~= s);
    } else {
        let less = t.drop_last();
        assert((s + t).drop_last() =~= s + less);
        assert((s + t).last() == t.last());
        law_groups_weigh_by_place(a, b, s, less);
        let p = vstd::arithmetic::power::pow(16, less.len());
        assert(vstd::arithmetic::power::pow(16, t.len()) == 16 * p);
        let (x, y) = (hex_number_of(s) as int, hex_number_of(less) as int);
        assert(16 * (x * p + y) == x * (16 * p) + 16 * y) by (nonlinear_arith);
    }
}

/// Every part of an address without dots is one group, in order, and each is a hex
/// number of up to four digits.
pub proof fn law_every_part_is_a_group(parts: Seq<Seq<char>>)
    ensures
        part_groups(parts, false) is Some <==> forall|i: int|
            0 <= i < parts.len() ==> is_group(#[trigger] parts[i]),
        part_groups(parts, false) matches Some(g) ==> g.len() == parts.len() && forall|i: int|
            0 <= i < parts.len() ==> g[i] == hex_number_of(#[trigger] parts[i]),
    decreases parts.len(),
{
    if parts.len() > 0 {
        let n = parts.len() - 1;
        let less = parts.drop_last();
        law_every_part_is_a_group(less);
        if part_groups(parts, false) is Some {
            let g = part_groups(parts, false)->0;
            let f = part_groups(less, false)->0;
            assert forall|i: int| 0 <= i < parts.len() implies is_group(#[trigger] parts[i])
                && g[i] == hex_number_of(parts[i]) by {
                if i < n {
                    assert(less[i] == parts[i]);
                    assert(g[i] == f[i]);
                }
            }
        } else if forall|i: int| 0 <= i < parts.len() ==> is_group(#[trigger] parts[i]) {
            assert forall|i: int| 0 <= i < less.len() implies is_group(#[trigger] less[i]) by {
                assert(less[i] == parts[i]);
            }
            assert(is_group(parts[n]));
        }
    }
}

/// The gap of an address stands for zeros: what is before it keeps its place from
/// the front and what is behind it from the end, of eight groups in all.
pub proof fn law_gap_stands_for_zeros(head: Seq<nat>, tail: Seq<nat>, i: int)
    requires
        head.len() + tail.len() <= 8,
        0 <= i < 8,
    ensures
        filled(head, tail).len() == 8,
        filled(head, tail)[i] == (if i < head.len() {
            head[i]
        } else if i >= 8 - tail.len() {
            tail[i - (8 - tail.len())]
        } else {
            0
        }),
{
}

/// Addresses are of one network exactly if no boundary between networks of that
/// size lies between them.
pub proof fn law_networks_end_at_boundaries(a: nat, b: nat, width: nat, prefix: nat, k: nat)
    requires
        prefix <= width,
    ensures
        ({
            let block = vstd::arithmetic::power2::pow2((width - prefix) as nat);
            &&& k * block <= a < k * block + block && k * block <= b < k * block + block
                ==> same_network(a, b, width, prefix)
            &&& a < k * block <= b ==> !same_network(a, b, width, prefix)
        }),
        same_network(a, b, width, width) <==> a == b,
{
    let block = vstd::arithmetic::power2::pow2((width - prefix) as nat);
    vstd::arithmetic::power2::lemma_pow2_pos((width - prefix) as nat);
    vstd::arithmetic::power2::lemma2_to64();
    if k * block <= a < k * block + block && k * block <= b < k * block + block {
        assert(a / block == k) by (nonlinear_arith)
            requires
                block > 0,
                k * block <= a < k * block + block,
        ;
        assert(b / block == k) by (nonlinear_arith)
            requires
                block > 0,
                k * block <= b < k * block + block,
        ;
    }
    if a < k * block <= b {
        assert(a / block < k) by (nonlinear_arith)
            requires
                block > 0,
                a < k * block,
        ;
        assert(b / block >= k) by (nonlinear_arith)
            requires
                block > 0,
                k * block <= b,
        ;
    }
    assert(a / 1 == a && b / 1 == b);
}

/// A range holds the addresses of its family that are of its network, and a text
/// without a length, or with one that is too long, holds none.
pub proof fn law_range_holds_its_network(base: Seq<char>, prefix: nat, addr: IpAddr)
    requires
        !base.contains('/'),
        prefix <= 255,
    ensures
        !range_holds(base, addr),
        range_holds(base + seq!['/'] + text::decimal_of(prefix), addr) == match (
            addr_of(base),
            addr,
        ) {
            (Some(IpAddr::V4(b)), IpAddr::V4(t)) => prefix <= 32 && same_network(
                b as nat,
                t as nat,
                32,
                prefix,
            ),
            (Some(IpAddr::V6(b)), IpAddr::V6(t)) => prefix <= 128 && same_network(
                b as nat,
                t as nat,
                128,
                prefix,
            ),
            _ => false,
        },
{
    let d = text::decimal_of(prefix);
    let s = base + seq!['/'] + d;
    text::law_decimal_round_trip(prefix, 255);
    text::lemma_before(base, '/');
    if text::before(base, '/') < base.len() {
        assert(base.contains(base[text::before(base, '/') as int]));
    }
    text::lemma_before(s, '/');
    let n = text::before(s, '/') as int;
    if n < base.len() {
        assert(s[n] == base[n]);
        assert(base.contains(base[n]));
    }
    assert(s[base.len() as int] == '/');
    assert(n == base.len());
    assert(s.take(n) =~= base);
    assert(s.skip(n + 1) =~= d);
}

/// An entry for a host lets its name through on its port and scheme, where zero is
/// any port and TCP any scheme; one for a range lets its network through on the
/// ports from first to last, where two zeros are all.
pub proof fn law_entries_let_through(target: TargetFact, attempt: AttemptFact)
    ensures
        match target {
            TargetFact::Host { hostname, port, scheme } => allows(target, attempt) <==> {
                &&& attempt.hostname == Some(hostname)
                &&& (port == 0 || attempt.port == port)
                &&& (scheme == Scheme::Tcp || attempt.scheme == scheme)
            },
            TargetFact::Cidr { cidr, port_range_start, port_range_end } => allows(
                target,
                attempt,
            ) <==> {
                &&& range_holds(cidr, attempt.addr)
                &&& (port_range_start == 0 && port_range_end == 0) || !(attempt.port
                    < port_range_start || attempt.port > port_range_end)
            },
        },
        forall|p: PolicyFact|
            #![trigger decision_of(p, attempt)]
            p.allow == seq![target] ==> (decision_of(p, attempt) == Decision::Allow <==> allows(
                target,
                attempt,
            )),
        forall|p: PolicyFact|
            #![trigger decision_of(p, attempt)]
            p.allow.len() == 0 ==> decision_of(p, attempt) == (match p.default {
                EgressDefault::Deny => Decision::Deny,
                EgressDefault::Audit => Decision::Audit,
            }),
{
    let one = seq![target];
    assert(allows(target, attempt) ==> some_allows(one, attempt)) by {
        if allows(target, attempt) {
            assert(allows(one[0], attempt));
        }
    }
}

} // verus!
