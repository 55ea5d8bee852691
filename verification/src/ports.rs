//! Docker's published ports and host-port conflict detection.
//!
//! The input is the `Ports` column of `docker ps`, e.g.
//! `"0.0.0.0:5656->5656/tcp, [::]:5656->5656/tcp"`. Docker publishes one
//! binding twice (IPv4 and IPv6 wildcard), which is why [`PortOwner::new`]
//! collapses such pairs: without that every container would conflict with
//! itself.

use vstd::prelude::*;

use crate::text::{
    chars_lt, lemma_seq_lt_asymmetric, lemma_seq_lt_irreflexive, lemma_seq_lt_total,
    lemma_seq_lt_transitive, push_char, push_decimal, decimal, seq_lt, string_of, chars_eq, chars_of, copy_string, find_in, lemma_find_from_bounds, lemma_rfind_before_bounds,
    parse_u16, parse_u16_spec, lemma_split_acc_at, contains_char, rfind_in, rsplit_once, split_char, split_once, split_ranges,
    str_lowercase, string_of_range, to_lowercase, trim, trim_bounds,
};

verus! {

/// One published binding: a host interface/port mapped to a container port.
#[derive(Debug, Clone, PartialEq, Eq)]
pub struct PortBinding {
    /// Host interface; empty when docker named none, `::` for the IPv6
    /// wildcard (brackets are stripped on parse).
    pub host_ip: String,
    pub host_port: u16,
    pub container_port: u16,
    /// `tcp`, `udp`, `sctp`… lowercased, defaulting to `tcp`.
    pub protocol: String,
}

pub struct BindingView {
    pub host_ip: Seq<char>,
    pub host_port: u16,
    pub container_port: u16,
    pub protocol: Seq<char>,
}

impl View for PortBinding {
    type V = BindingView;

    open spec fn view(&self) -> BindingView {
        BindingView {
            host_ip: self.host_ip@,
            host_port: self.host_port,
            container_port: self.container_port,
            protocol: self.protocol@,
        }
    }
}

pub open spec fn bindings_view(bs: Seq<PortBinding>) -> Seq<BindingView> {
    bs.map_values(|b: PortBinding| b@)
}

pub fn copy_binding(b: &PortBinding) -> (r: PortBinding)
    ensures
        r@ == b@,
{
    PortBinding {
        host_ip: copy_string(&b.host_ip),
        host_port: b.host_port,
        container_port: b.container_port,
        protocol: copy_string(&b.protocol),
    }
}

/// What kind of owner holds a set of bindings.
#[derive(Debug, Clone, Copy, PartialEq, Eq, Structural)]
pub enum OwnerKind {
    RunningContainer,
    /// A container that exists but is not running.
    StoppedContainer,
    /// A compose service declaring a published port while nothing of its
    /// stack is up.
    DeclaredStack,
}

/// A container (or a declared stack service) holding published bindings.
#[derive(Debug, Clone, PartialEq, Eq)]
pub struct PortOwner {
    /// Identity: two bindings sharing a key are the same owner and never
    /// conflict with each other.
    pub key: String,
    /// Human-readable name shown in the conflict text.
    pub label: String,
    pub kind: OwnerKind,
    pub bindings: Vec<PortBinding>,
    /// The compose declaration the container was built from, as
    /// `files<U+1F>service` where `files` is a comma-separated list.
    pub declaration: Option<String>,
}

/// A host port claimed by two or more distinct owners.
#[derive(Debug, Clone, PartialEq, Eq)]
pub struct PortConflict {
    pub host_port: u16,
    pub protocol: String,
    /// Labels of every owner involved, in the order the owners were given.
    pub owners: Vec<String>,
    /// `true` only when every owner involved is a running container.
    pub active: bool,
}

pub struct ConflictView {
    pub host_port: u16,
    pub protocol: Seq<char>,
    pub owners: Seq<Seq<char>>,
    pub active: bool,
}

impl View for PortConflict {
    type V = ConflictView;

    open spec fn view(&self) -> ConflictView {
        ConflictView {
            host_port: self.host_port,
            protocol: self.protocol@,
            owners: self.owners@.map_values(|s: String| s@),
            active: self.active,
        }
    }
}

// ---------------------------------------------------------------------------
// Interfaces
// ---------------------------------------------------------------------------

/// `[x]` becomes `x`; anything else is unchanged.
pub open spec fn strip_brackets_spec(ip: Seq<char>) -> Seq<char> {
    if ip.len() >= 2 && ip[0] == '[' && ip.last() == ']' {
        ip.subrange(1, ip.len() - 1)
    } else {
        ip
    }
}

/// Binds every interface: `0.0.0.0`, `::`/`[::]`, `*`, or nothing at all.
pub open spec fn is_wildcard_spec(ip: Seq<char>) -> bool {
    let s = strip_brackets_spec(ip);
    s == Seq::<char>::empty() || s == seq!['0', '.', '0', '.', '0', '.', '0'] || s == seq![
        ':',
        ':',
    ] || s == seq!['*']
}

/// Two host interfaces can collide: a wildcard on either side covers
/// everything, otherwise they must be the same interface.
pub open spec fn overlap_spec(a: Seq<char>, b: Seq<char>) -> bool {
    is_wildcard_spec(a) || is_wildcard_spec(b) || strip_brackets_spec(a) == strip_brackets_spec(b)
}

/// Bounds of `strip_brackets(v[from..to])`.
fn strip_brackets_bounds(v: &Vec<char>, from: usize, to: usize) -> (r: (usize, usize))
    requires
        from <= to <= v.len(),
    ensures
        from <= r.0 <= r.1 <= to,
        v@.subrange(r.0 as int, r.1 as int) == strip_brackets_spec(
            v@.subrange(from as int, to as int),
        ),
{
    let ghost s = v@.subrange(from as int, to as int);
    if to - from >= 2 && v[from] == '[' && v[to - 1] == ']' {
        assert(s.subrange(1, s.len() - 1) =~= v@.subrange(from + 1, to - 1));
        (from + 1, to - 1)
    } else {
        (from, to)
    }
}

fn literal_equals(v: &Vec<char>, from: usize, to: usize, lit: &Vec<char>) -> (r: bool)
    requires
        from <= to <= v.len(),
    ensures
        r == (v@.subrange(from as int, to as int) == lit@),
{
    if to - from != lit.len() {
        return false;
    }
    let mut i: usize = 0;
    while i < lit.len()
        invariant
            to - from == lit.len(),
            from <= to <= v.len(),
            i <= lit.len(),
            forall|j: int| 0 <= j < i ==> v@[from + j] == lit@[j],
        decreases lit.len() - i,
    {
        if v[from + i] != lit[i] {
            assert(v@.subrange(from as int, to as int)[i as int] != lit@[i as int]);
            return false;
        }
        i = i + 1;
    }
    assert(v@.subrange(from as int, to as int) =~= lit@);
    true
}

fn wildcard_range(v: &Vec<char>, from: usize, to: usize) -> (r: bool)
    requires
        from <= to <= v.len(),
    ensures
        r == is_wildcard_spec(v@.subrange(from as int, to as int)),
{
    let (a, b) = strip_brackets_bounds(v, from, to);
    let any: Vec<char> = vec!['0', '.', '0', '.', '0', '.', '0'];
    let six: Vec<char> = vec![':', ':'];
    let star: Vec<char> = vec!['*'];
    let ghost s = v@.subrange(a as int, b as int);
    assert(any@ =~= seq!['0', '.', '0', '.', '0', '.', '0']);
    assert(six@ =~= seq![':', ':']);
    assert(star@ =~= seq!['*']);
    if a == b {
        assert(s =~= Seq::<char>::empty());
        return true;
    }
    assert(s != Seq::<char>::empty());
    literal_equals(v, a, b, &any) || literal_equals(v, a, b, &six) || literal_equals(
        v,
        a,
        b,
        &star,
    )
}

fn ranges_equal(a: &Vec<char>, af: usize, at: usize, b: &Vec<char>, bf: usize, bt: usize) -> (r:
    bool)
    requires
        af <= at <= a.len(),
        bf <= bt <= b.len(),
    ensures
        r == (a@.subrange(af as int, at as int) == b@.subrange(bf as int, bt as int)),
{
    if at - af != bt - bf {
        assert(a@.subrange(af as int, at as int).len() != b@.subrange(bf as int, bt as int).len());
        return false;
    }
    let mut i: usize = 0;
    assert(a@.subrange(af as int, af as int) =~= b@.subrange(bf as int, bf as int));
    while i < at - af
        invariant
            af <= at <= a.len(),
            bf <= bt <= b.len(),
            at - af == bt - bf,
            i <= at - af,
            a@.subrange(af as int, af + i) == b@.subrange(bf as int, bf + i),
        decreases at - af - i,
    {
        if a[af + i] != b[bf + i] {
            assert(a@.subrange(af as int, at as int)[i as int] != b@.subrange(
                bf as int,
                bt as int,
            )[i as int]);
            return false;
        }
        assert(a@.subrange(af as int, af + i + 1) =~= a@.subrange(af as int, af + i).push(
            a@[af + i],
        ));
        assert(b@.subrange(bf as int, bf + i + 1) =~= b@.subrange(bf as int, bf + i).push(
            b@[bf + i],
        ));
        i = i + 1;
    }
    true
}

/// `true` when two host interfaces can collide: a wildcard on either side
/// covers everything, otherwise the interfaces must be identical.
pub fn interfaces_overlap(a: &str, b: &str) -> (r: bool)
    ensures
        r == overlap_spec(a@, b@),
{
    let av = chars_of(a);
    let bv = chars_of(b);
    overlap_chars(&av, &bv)
}

fn overlap_chars(av: &Vec<char>, bv: &Vec<char>) -> (r: bool)
    ensures
        r == overlap_spec(av@, bv@),
{
    assert(av@.subrange(0, av@.len() as int) =~= av@);
    assert(bv@.subrange(0, bv@.len() as int) =~= bv@);
    if wildcard_range(av, 0, av.len()) || wildcard_range(bv, 0, bv.len()) {
        return true;
    }
    let (a0, a1) = strip_brackets_bounds(av, 0, av.len());
    let (b0, b1) = strip_brackets_bounds(bv, 0, bv.len());
    ranges_equal(av, a0, a1, bv, b0, b1)
}

// ---------------------------------------------------------------------------
// De-duplication
// ---------------------------------------------------------------------------

/// The interface part of a binding's identity: all wildcards are one.
pub open spec fn interface_key(ip: Seq<char>) -> Seq<char> {
    if is_wildcard_spec(ip) {
        seq!['*']
    } else {
        strip_brackets_spec(ip)
    }
}

/// Two bindings publish the same thing.
pub open spec fn same_publish(a: BindingView, b: BindingView) -> bool {
    &&& interface_key(a.host_ip) == interface_key(b.host_ip)
    &&& a.host_port == b.host_port
    &&& a.container_port == b.container_port
    &&& a.protocol == b.protocol
}

/// The bindings with every repeat of an earlier publish removed, first
/// occurrences kept in order.
pub open spec fn dedupe_spec(bs: Seq<BindingView>) -> Seq<BindingView>
    decreases bs.len(),
{
    if bs.len() == 0 {
        Seq::empty()
    } else {
        let kept = dedupe_spec(bs.drop_last());
        if exists|k: int| 0 <= k < kept.len() && same_publish(#[trigger] kept[k], bs.last()) {
            kept
        } else {
            kept.push(bs.last())
        }
    }
}

fn interface_key_of(ip: &String) -> (r: Vec<char>)
    ensures
        r@ == interface_key(ip@),
{
    let v = chars_of(ip.as_str());
    assert(v@.subrange(0, v@.len() as int) =~= v@);
    if wildcard_range(&v, 0, v.len()) {
        let star: Vec<char> = vec!['*'];
        assert(star@ =~= seq!['*']);
        star
    } else {
        let (a, b) = strip_brackets_bounds(&v, 0, v.len());
        let mut r: Vec<char> = Vec::new();
        let mut i = a;
        while i < b
            invariant
                a <= i <= b <= v.len(),
                r@ == v@.subrange(a as int, i as int),
            decreases b - i,
        {
            r.push(v[i]);
            i = i + 1;
            assert(r@ =~= v@.subrange(a as int, i as int));
        }
        r
    }
}

fn same_publish_exec(a: &PortBinding, b: &PortBinding) -> (r: bool)
    ensures
        r == same_publish(a@, b@),
{
    if a.host_port != b.host_port || a.container_port != b.container_port {
        return false;
    }
    let ka = interface_key_of(&a.host_ip);
    let kb = interface_key_of(&b.host_ip);
    if !chars_eq(&ka, &kb) {
        return false;
    }
    let pa = chars_of(a.protocol.as_str());
    let pb = chars_of(b.protocol.as_str());
    chars_eq(&pa, &pb)
}

/// Collapses the `0.0.0.0` / `[::]` double binding docker emits, and any
/// exact duplicate, keeping the first occurrence of each.
pub fn dedupe_bindings(bindings: &[PortBinding]) -> (r: Vec<PortBinding>)
    ensures
        bindings_view(r@) == dedupe_spec(bindings_view(bindings@)),
{
    let mut kept: Vec<PortBinding> = Vec::new();
    let mut i: usize = 0;
    while i < bindings.len()
        invariant
            i <= bindings.len(),
            bindings_view(kept@) == dedupe_spec(bindings_view(bindings@.take(i as int))),
        decreases bindings.len() - i,
    {
        let ghost bs = bindings_view(bindings@.take(i + 1));
        assert(bs.drop_last() =~= bindings_view(bindings@.take(i as int)));
        assert(bs.last() == bindings@[i as int]@);
        let mut seen = false;
        let mut k: usize = 0;
        while k < kept.len()
            invariant
                k <= kept.len(),
                i < bindings.len(),
                !seen ==> forall|j: int|
                    0 <= j < k ==> !same_publish(#[trigger] kept@[j]@, bindings@[i as int]@),
                seen ==> exists|j: int|
                    0 <= j < kept.len() && same_publish(#[trigger] kept@[j]@, bindings@[i as int]@),
            decreases kept.len() - k,
        {
            if same_publish_exec(&kept[k], &bindings[i]) {
                seen = true;
            }
            k = k + 1;
        }
        let ghost kv = bindings_view(kept@);
        proof {
            if seen {
                let j = choose|j: int|
                    0 <= j < kept.len() && same_publish(#[trigger] kept@[j]@, bindings@[i as int]@);
                assert(kv[j] == kept@[j]@);
            } else {
                assert forall|j: int| 0 <= j < kv.len() implies !same_publish(
                    #[trigger] kv[j],
                    bs.last(),
                ) by {
                    assert(kv[j] == kept@[j]@);
                }
            }
        }
        if !seen {
            let b = copy_binding(&bindings[i]);
            kept.push(b);
            assert(bindings_view(kept@) =~= kv.push(bs.last()));
        }
        i = i + 1;
    }
    assert(bindings@.take(i as int) =~= bindings@);
    kept
}

impl PortOwner {
    /// The only constructor: it applies the wildcard de-duplication, so no
    /// owner can ever conflict with itself through docker's double binding.
    pub fn new(key: &str, label: &str, kind: OwnerKind, bindings: Vec<PortBinding>) -> (r: Self)
        ensures
            r.key@ == key@,
            r.label@ == label@,
            r.kind == kind,
            bindings_view(r.bindings@) == dedupe_spec(bindings_view(bindings@)),
            r.declaration is None,
    {
        PortOwner {
            key: key.to_string(),
            label: label.to_string(),
            kind,
            bindings: dedupe_bindings(bindings.as_slice()),
            declaration: None,
        }
    }

    /// Records the compose declaration (`files<U+1F>service`) the owner was
    /// built from.
    pub fn with_declaration(self, declaration: String) -> (r: Self)
        ensures
            r.key@ == self.key@,
            r.label@ == self.label@,
            r.kind == self.kind,
            r.bindings@ == self.bindings@,
            r.declaration matches Some(d) && d@ == declaration@,
    {
        PortOwner { declaration: Some(declaration), ..self }
    }
}

// ---------------------------------------------------------------------------
// Parsing `docker ps` ports
// ---------------------------------------------------------------------------

pub open spec fn arrow() -> Seq<char> {
    seq!['-', '>']
}

pub open spec fn tcp() -> Seq<char> {
    seq!['t', 'c', 'p']
}

/// One `start-end` range, or one bare port, as an inclusive pair.
pub open spec fn parse_range_spec(text: Seq<char>) -> Option<(u16, u16)> {
    match split_once(text, seq!['-']) {
        Some((a, b)) => match (parse_u16_spec(trim(a)), parse_u16_spec(trim(b))) {
            (Some(start), Some(end)) => if start > end {
                None
            } else {
                Some((start, end))
            },
            _ => None,
        },
        None => match parse_u16_spec(trim(text)) {
            Some(p) => Some((p, p)),
            None => None,
        },
    }
}

/// The bindings of a host range published onto a container range.
pub open spec fn expand_range(
    host_ip: Seq<char>,
    host_start: u16,
    container_start: u16,
    count: nat,
    protocol: Seq<char>,
) -> Seq<BindingView> {
    Seq::new(
        count,
        |k: int|
            BindingView {
                host_ip,
                host_port: (host_start + k) as u16,
                container_port: (container_start + k) as u16,
                protocol,
            },
    )
}

/// The host side, `ip:port`, `[ipv6]:port` or a bare `port`: the last colon
/// separates the two parts in every shape.
pub open spec fn host_parts(left: Seq<char>) -> (Seq<char>, Seq<char>) {
    match rsplit_once(left, seq![':']) {
        Some((ip, ports)) => (strip_brackets_spec(trim(ip)), ports),
        None => (Seq::empty(), left),
    }
}

/// The container side, `ports/protocol` or bare `ports` (then `tcp`).
pub open spec fn container_parts(right: Seq<char>) -> (Seq<char>, Seq<char>) {
    match split_once(right, seq!['/']) {
        Some((ports, proto)) => (ports, str_lowercase(trim(proto))),
        None => (right, tcp()),
    }
}

/// One `", "`-separated entry of the `Ports` field. Anything that is not a
/// published binding (notably the bare `5656/tcp` expose form) gives no
/// binding; a range whose two ends disagree in width gives none either.
pub open spec fn ps_entry_spec(entry: Seq<char>) -> Seq<BindingView> {
    match split_once(trim(entry), arrow()) {
        None => Seq::empty(),
        Some((left, right)) => {
            let (container_spec, protocol) = container_parts(trim(right));
            let (host_ip, host_spec) = host_parts(trim(left));
            if protocol.len() == 0 {
                Seq::empty()
            } else {
                match (parse_range_spec(host_spec), parse_range_spec(container_spec)) {
                    (Some((hs, he)), Some((cs, ce))) => if he - hs != ce - cs {
                        Seq::empty()
                    } else {
                        expand_range(host_ip, hs, cs, (he - hs + 1) as nat, protocol)
                    },
                    _ => Seq::empty(),
                }
            }
        },
    }
}

/// The whole `Ports` field: each comma-separated entry parsed in turn.
pub open spec fn ps_ports_spec(raw: Seq<char>) -> Seq<BindingView> {
    split_char(raw, ',').map_values(|e: Seq<char>| ps_entry_spec(e)).flatten()
}

fn parse_range(v: &Vec<char>, from: usize, to: usize) -> (r: Option<(u16, u16)>)
    requires
        from <= to <= v.len(),
    ensures
        r == parse_range_spec(v@.subrange(from as int, to as int)),
{
    let ghost s = v@.subrange(from as int, to as int);
    let dash: Vec<char> = vec!['-'];
    assert(dash@ =~= seq!['-']);
    match find_in(v, from, to, &dash) {
        Some(i) => {
            proof {
                lemma_find_from_bounds(s, dash@, 0);
                assert(s.take(i - from) =~= v@.subrange(from as int, i as int));
                assert(s.skip(i - from + 1) =~= v@.subrange(i + 1, to as int));
            }
            let (a0, a1) = trim_bounds(v, from, i);
            let (b0, b1) = trim_bounds(v, i + 1, to);
            let start = parse_u16(v, a0, a1);
            let end = parse_u16(v, b0, b1);
            match (start, end) {
                (Some(start), Some(end)) => {
                    if start > end {
                        None
                    } else {
                        Some((start, end))
                    }
                },
                _ => None,
            }
        },
        None => {
            let (a0, a1) = trim_bounds(v, from, to);
            match parse_u16(v, a0, a1) {
                Some(p) => Some((p, p)),
                None => None,
            }
        },
    }
}

/// The container side of an entry held in `v[r0..r1]`.
fn container_side(v: &Vec<char>, r0: usize, r1: usize) -> (r: (usize, usize, String))
    requires
        r0 <= r1 <= v.len(),
    ensures
        r0 <= r.0 <= r.1 <= r1,
        container_parts(v@.subrange(r0 as int, r1 as int)) == (
            v@.subrange(r.0 as int, r.1 as int),
            r.2@,
        ),
{
    let ghost tr = v@.subrange(r0 as int, r1 as int);
    let slash: Vec<char> = vec!['/'];
    assert(slash@ =~= seq!['/']);
    match find_in(v, r0, r1, &slash) {
        Some(k) => {
            proof {
                lemma_find_from_bounds(tr, slash@, 0);
                assert(tr.take(k - r0) =~= v@.subrange(r0 as int, k as int));
                assert(tr.skip(k - r0 + 1) =~= v@.subrange(k + 1, r1 as int));
            }
            let (p0, p1) = trim_bounds(v, k + 1, r1);
            let raw = string_of_range(v, p0, p1);
            let lowered = to_lowercase(raw.as_str());
            (r0, k, lowered)
        },
        None => {
            let t = String::from_str("tcp");
            proof {
                reveal_strlit("tcp");
                assert(t@ =~= tcp());
                assert(tr =~= v@.subrange(r0 as int, r1 as int));
            }
            (r0, r1, t)
        },
    }
}

/// The host side of an entry held in `v[l0..l1]`.
fn host_side(v: &Vec<char>, l0: usize, l1: usize) -> (r: (String, usize, usize))
    requires
        l0 <= l1 <= v.len(),
    ensures
        l0 <= r.1 <= r.2 <= l1,
        host_parts(v@.subrange(l0 as int, l1 as int)) == (r.0@, v@.subrange(r.1 as int, r.2 as int)),
{
    let ghost tl = v@.subrange(l0 as int, l1 as int);
    let colon: Vec<char> = vec![':'];
    assert(colon@ =~= seq![':']);
    match rfind_in(v, l0, l1, &colon) {
        Some(k) => {
            proof {
                lemma_rfind_before_bounds(tl, colon@, tl.len() - 1);
                assert(tl.take(k - l0) =~= v@.subrange(l0 as int, k as int));
                assert(tl.skip(k - l0 + 1) =~= v@.subrange(k + 1, l1 as int));
            }
            let (i0, i1) = trim_bounds(v, l0, k);
            let (s0, s1) = strip_brackets_bounds(v, i0, i1);
            (string_of_range(v, s0, s1), k + 1, l1)
        },
        None => {
            let e = String::new();
            assert(e@ =~= Seq::<char>::empty());
            (e, l0, l1)
        },
    }
}

/// The bindings of `hs..=he` published onto `cs..=ce`; none when the two
/// ranges differ in width.
fn expand(host_ip: &String, hs: u16, he: u16, cs: u16, ce: u16, protocol: &String) -> (r: Vec<
    PortBinding,
>)
    requires
        hs <= he,
        cs <= ce,
    ensures
        bindings_view(r@) == (if he - hs != ce - cs {
            Seq::empty()
        } else {
            expand_range(host_ip@, hs, cs, (he - hs + 1) as nat, protocol@)
        }),
{
    if he - hs != ce - cs {
        return Vec::new();
    }
    let count: u32 = (he - hs) as u32 + 1;
    let mut out: Vec<PortBinding> = Vec::new();
    let mut k: u32 = 0;
    while k < count
        invariant
            k <= count,
            count == (he - hs) as u32 + 1,
            he - hs == ce - cs,
            hs <= he,
            cs <= ce,
            bindings_view(out@) == expand_range(host_ip@, hs, cs, k as nat, protocol@),
        decreases count - k,
    {
        assert(k < 65536);
        let k16 = k as u16;
        assert(k16 as int == k as int);
        let b = PortBinding {
            host_ip: copy_string(host_ip),
            host_port: hs + k16,
            container_port: cs + k16,
            protocol: copy_string(protocol),
        };
        let ghost old_out = bindings_view(out@);
        out.push(b);
        assert(bindings_view(out@) =~= old_out.push(b@));
        k = k + 1;
        assert(bindings_view(out@) =~= expand_range(host_ip@, hs, cs, k as nat, protocol@));
    }
    out
}

/// Parses `v[from..to]`, one entry of the `Ports` field.
fn parse_ps_entry(v: &Vec<char>, from: usize, to: usize) -> (r: Vec<PortBinding>)
    requires
        from <= to <= v.len(),
    ensures
        bindings_view(r@) == ps_entry_spec(v@.subrange(from as int, to as int)),
{
    let (e0, e1) = trim_bounds(v, from, to);
    let ghost te = v@.subrange(e0 as int, e1 as int);
    let arrow_v: Vec<char> = vec!['-', '>'];
    assert(arrow_v@ =~= arrow());
    let found = find_in(v, e0, e1, &arrow_v);
    if found.is_none() {
        return Vec::new();
    }
    let a = found.unwrap();
    proof {
        lemma_find_from_bounds(te, arrow(), 0);
        assert(te.take(a - e0) =~= v@.subrange(e0 as int, a as int));
        assert(te.skip(a - e0 + 2) =~= v@.subrange(a + 2, e1 as int));
    }
    let (r0, r1) = trim_bounds(v, a + 2, e1);
    let (c0, c1, protocol) = container_side(v, r0, r1);
    if protocol.unicode_len() == 0 {
        return Vec::new();
    }
    let (l0, l1) = trim_bounds(v, e0, a);
    let (host_ip, h0, h1) = host_side(v, l0, l1);
    let hr = parse_range(v, h0, h1);
    let cr = parse_range(v, c0, c1);
    match (hr, cr) {
        (Some((hs, he)), Some((cs, ce))) => expand(&host_ip, hs, he, cs, ce, &protocol),
        _ => Vec::new(),
    }
}

/// Parses the whole `Ports` field of `docker ps`. Unparsable entries are
/// skipped, never fatal.
pub fn parse_ps_ports(raw: &str) -> (r: Vec<PortBinding>)
    ensures
        bindings_view(r@) == ps_ports_spec(raw@),
{
    let v = chars_of(raw);
    let pieces = split_ranges(&v, ',');
    let ghost parts = split_char(v@, ',').map_values(|e: Seq<char>| ps_entry_spec(e));
    let mut out: Vec<PortBinding> = Vec::new();
    let mut i: usize = 0;
    while i < pieces.len()
        invariant
            i <= pieces.len(),
            pieces@.len() == split_char(v@, ',').len(),
            parts == split_char(v@, ',').map_values(|e: Seq<char>| ps_entry_spec(e)),
            forall|k: int|
                0 <= k < pieces@.len() ==> (#[trigger] pieces@[k]).0 <= pieces@[k].1 <= v.len()
                    && v@.subrange(pieces@[k].0 as int, pieces@[k].1 as int) == split_char(
                    v@,
                    ',',
                )[k],
            bindings_view(out@) == parts.take(i as int).flatten(),
        decreases pieces.len() - i,
    {
        let (a, b) = pieces[i];
        assert(v@.subrange(pieces@[i as int].0 as int, pieces@[i as int].1 as int) == split_char(
            v@,
            ',',
        )[i as int]);
        let entry = parse_ps_entry(&v, a, b);
        let ghost before = bindings_view(out@);
        let mut j: usize = 0;
        while j < entry.len()
            invariant
                j <= entry.len(),
                bindings_view(out@) == before + bindings_view(entry@).take(j as int),
            decreases entry.len() - j,
        {
            let item = copy_binding(&entry[j]);
            let ghost old_out = bindings_view(out@);
            out.push(item);
            assert(bindings_view(out@) =~= old_out.push(entry@[j as int]@));
            assert(bindings_view(entry@).take(j + 1) =~= bindings_view(entry@).take(j as int).push(
                entry@[j as int]@,
            ));
            j = j + 1;
            assert(bindings_view(out@) =~= before + bindings_view(entry@).take(j as int));
        }
        proof {
            assert(bindings_view(entry@).take(j as int) =~= bindings_view(entry@));
            assert(parts.take(i + 1) =~= parts.take(i as int).push(parts[i as int]));
            parts.take(i as int).lemma_flatten_push(parts[i as int]);
        }
        i = i + 1;
    }
    assert(parts.take(i as int) =~= parts);
    assert(v@ == raw@);
    out
}

// ---------------------------------------------------------------------------
// Conflicts
// ---------------------------------------------------------------------------

/// A binding publishes `port` over `proto`.
pub open spec fn has_key(b: BindingView, port: u16, proto: Seq<char>) -> bool {
    b.host_port == port && b.protocol == proto
}

/// Owner `a`'s binding `x` and owner `b`'s binding `y` both claim
/// `port`/`proto` on overlapping interfaces, and `a` and `b` are distinct
/// owners.
pub open spec fn collision_witness(
    owners: Seq<PortOwner>,
    port: u16,
    proto: Seq<char>,
    a: int,
    b: int,
    x: int,
    y: int,
) -> bool {
    &&& 0 <= a < owners.len()
    &&& 0 <= b < owners.len()
    &&& 0 <= x < owners[a].bindings@.len()
    &&& 0 <= y < owners[b].bindings@.len()
    &&& owners[a].key@ != owners[b].key@
    &&& has_key(owners[a].bindings@[x]@, port, proto)
    &&& has_key(owners[b].bindings@[y]@, port, proto)
    &&& overlap_spec(owners[a].bindings@[x]@.host_ip, owners[b].bindings@[y]@.host_ip)
}

/// Owner `a` takes part in a cross-owner collision on `port`/`proto`.
pub open spec fn collides(owners: Seq<PortOwner>, port: u16, proto: Seq<char>, a: int) -> bool {
    exists|b: int, x: int, y: int| #[trigger]
        collision_witness(owners, port, proto, a, b, x, y)
}

/// Indices below `n` of the owners involved in a collision, ascending.
pub open spec fn involved_upto(owners: Seq<PortOwner>, port: u16, proto: Seq<char>, n: int) -> Seq<
    int,
>
    decreases n,
{
    if n <= 0 {
        Seq::empty()
    } else {
        let prev = involved_upto(owners, port, proto, n - 1);
        if collides(owners, port, proto, n - 1) {
            prev.push(n - 1)
        } else {
            prev
        }
    }
}

/// Indices of every owner involved in a collision on `port`/`proto`, in the
/// order the owners were given.
pub open spec fn involved(owners: Seq<PortOwner>, port: u16, proto: Seq<char>) -> Seq<int> {
    involved_upto(owners, port, proto, owners.len() as int)
}

/// The conflict reported for `port`/`proto`.
pub open spec fn conflict_spec(owners: Seq<PortOwner>, port: u16, proto: Seq<char>) -> ConflictView {
    let inv = involved(owners, port, proto);
    ConflictView {
        host_port: port,
        protocol: proto,
        owners: inv.map_values(|a: int| owners[a].label@),
        active: forall|k: int|
            0 <= k < inv.len() ==> owners[#[trigger] inv[k]].kind == OwnerKind::RunningContainer,
    }
}

/// The `(port, protocol)` key a conflict is reported on.
pub open spec fn conflict_key(c: ConflictView) -> (u16, Seq<char>) {
    (c.host_port, c.protocol)
}

/// Order of `(port, protocol)` keys: by port, then by protocol.
pub open spec fn key_lt(a: (u16, Seq<char>), b: (u16, Seq<char>)) -> bool {
    a.0 < b.0 || (a.0 == b.0 && seq_lt(a.1, b.1))
}

pub proof fn lemma_key_lt_order(a: (u16, Seq<char>), b: (u16, Seq<char>), c: (u16, Seq<char>))
    ensures
        !key_lt(a, a),
        key_lt(a, b) ==> !key_lt(b, a),
        a != b ==> key_lt(a, b) || key_lt(b, a),
        key_lt(a, b) && key_lt(b, c) ==> key_lt(a, c),
{
    lemma_seq_lt_irreflexive(a.1);
    lemma_seq_lt_asymmetric(a.1, b.1);
    lemma_seq_lt_total(a.1, b.1);
    lemma_seq_lt_transitive(a.1, b.1, c.1);
}

pub open spec fn keys_view(keys: Seq<(u16, Vec<char>)>) -> Seq<(u16, Seq<char>)> {
    keys.map_values(|k: (u16, Vec<char>)| (k.0, k.1@))
}

pub open spec fn strictly_sorted(keys: Seq<(u16, Seq<char>)>) -> bool {
    forall|i: int, j: int| 0 <= i < j < keys.len() ==> key_lt(#[trigger] keys[i], #[trigger] keys[j])
}

/// Some binding of some owner claims `key`.
pub open spec fn claimed(owners: Seq<PortOwner>, key: (u16, Seq<char>)) -> bool {
    exists|a: int, x: int|
        0 <= a < owners.len() && 0 <= x < owners[a].bindings@.len() && #[trigger] has_key(
            owners[a].bindings@[x]@,
            key.0,
            key.1,
        )
}

/// Index of the first key in `ks` (from `i` on) that does not sort below `k`.
pub open spec fn first_not_below(ks: Seq<(u16, Seq<char>)>, k: (u16, Seq<char>), i: int) -> int
    decreases ks.len() - i,
{
    if i < 0 || i >= ks.len() || !key_lt(ks[i], k) {
        i
    } else {
        first_not_below(ks, k, i + 1)
    }
}

/// `ks` with `k` inserted at its sorted place, unless already present.
pub open spec fn insert_key_spec(ks: Seq<(u16, Seq<char>)>, k: (u16, Seq<char>)) -> Seq<
    (u16, Seq<char>),
> {
    let p = first_not_below(ks, k, 0);
    if 0 <= p < ks.len() && ks[p] == k {
        ks
    } else {
        ks.insert(p, k)
    }
}

/// Inserts `key` into the strictly sorted `keys`, unless already present.
pub fn insert_key(keys: &mut Vec<(u16, Vec<char>)>, port: u16, proto: Vec<char>)
    requires
        strictly_sorted(keys_view(old(keys)@)),
    ensures
        keys_view(final(keys)@) == insert_key_spec(keys_view(old(keys)@), (port, proto@)),
        strictly_sorted(keys_view(final(keys)@)),
        forall|k: (u16, Seq<char>)|
            keys_view(final(keys)@).contains(k) <==> keys_view(old(keys)@).contains(k) || k == (
                port,
                proto@,
            ),
{
    let ghost new = (port, proto@);
    let ghost old_v = keys_view(keys@);
    let mut pos: usize = 0;
    while pos < keys.len() && (keys[pos].0 < port || (keys[pos].0 == port && chars_lt(
        &keys[pos].1,
        &proto,
    )))
        invariant
            pos <= keys.len(),
            new == (port, proto@),
            keys_view(keys@) == old_v,
            forall|i: int| 0 <= i < pos ==> key_lt(#[trigger] old_v[i], new),
            first_not_below(old_v, new, 0) == first_not_below(old_v, new, pos as int),
        decreases keys.len() - pos,
    {
        assert(old_v[pos as int] == (keys@[pos as int].0, keys@[pos as int].1@));
        pos = pos + 1;
    }
    if pos < keys.len() && keys[pos].0 == port && chars_eq(&keys[pos].1, &proto) {
        assert(old_v[pos as int] == new);
        assert forall|k: (u16, Seq<char>)|
            keys_view(keys@).contains(k) <==> old_v.contains(k) || k == new by {
            if k == new {
                assert(old_v[pos as int] == k);
            }
        }
        return;
    }
    proof {
        if pos < keys.len() {
            assert(old_v[pos as int] == (keys@[pos as int].0, keys@[pos as int].1@));
            assert(!key_lt(old_v[pos as int], new));
            assert(old_v[pos as int] != new);
            lemma_key_lt_order(old_v[pos as int], new, new);
            assert(key_lt(new, old_v[pos as int]));
        }
    }
    keys.insert(pos, (port, proto));
    let ghost nv = keys_view(keys@);
    assert(nv =~= old_v.insert(pos as int, new));
    assert forall|i: int, j: int| 0 <= i < j < nv.len() implies key_lt(
        #[trigger] nv[i],
        #[trigger] nv[j],
    ) by {
        if j < pos {
            assert(nv[i] == old_v[i] && nv[j] == old_v[j]);
        } else if j == pos {
            assert(nv[i] == old_v[i]);
        } else if i == pos {
            assert(nv[j] == old_v[j - 1]);
            if j - 1 > pos {
                lemma_key_lt_order(new, old_v[pos as int], old_v[j - 1]);
            }
        } else if i < pos {
            assert(nv[j] == old_v[j - 1]);
            assert(nv[i] == old_v[i]);
            if j - 1 < pos {
            } else {
                assert(key_lt(old_v[i], new));
                if j - 1 == pos {
                    lemma_key_lt_order(old_v[i], new, old_v[pos as int]);
                } else {
                    lemma_key_lt_order(old_v[i], new, old_v[pos as int]);
                    lemma_key_lt_order(old_v[i], old_v[pos as int], old_v[j - 1]);
                }
            }
        } else {
            assert(nv[i] == old_v[i - 1] && nv[j] == old_v[j - 1]);
        }
    }
    assert forall|k: (u16, Seq<char>)| nv.contains(k) <==> old_v.contains(k) || k == new by {
        if nv.contains(k) {
            let i = choose|i: int| 0 <= i < nv.len() && nv[i] == k;
            if i < pos {
                assert(old_v[i] == k);
            } else if i > pos {
                assert(old_v[i - 1] == k);
            }
        }
        if old_v.contains(k) {
            let i = choose|i: int| 0 <= i < old_v.len() && old_v[i] == k;
            if i < pos {
                assert(nv[i] == k);
            } else {
                assert(nv[i + 1] == k);
            }
        }
        if k == new {
            assert(nv[pos as int] == k);
        }
    }
}

/// `ks` with the keys of `bs` added in turn.
pub open spec fn add_binding_keys(ks: Seq<(u16, Seq<char>)>, bs: Seq<PortBinding>) -> Seq<
    (u16, Seq<char>),
>
    decreases bs.len(),
{
    if bs.len() == 0 {
        ks
    } else {
        insert_key_spec(
            add_binding_keys(ks, bs.drop_last()),
            (bs.last().host_port, bs.last().protocol@),
        )
    }
}

/// Every `(port, protocol)` the owners claim, in sorted order.
pub open spec fn owner_key_order(owners: Seq<PortOwner>) -> Seq<(u16, Seq<char>)>
    decreases owners.len(),
{
    if owners.len() == 0 {
        Seq::empty()
    } else {
        add_binding_keys(owner_key_order(owners.drop_last()), owners.last().bindings@)
    }
}

/// The conflicts on the keys `ks`, in the order of `ks`.
pub open spec fn conflicts_over(owners: Seq<PortOwner>, ks: Seq<(u16, Seq<char>)>) -> Seq<
    ConflictView,
>
    decreases ks.len(),
{
    if ks.len() == 0 {
        Seq::empty()
    } else {
        let prev = conflicts_over(owners, ks.drop_last());
        let k = ks.last();
        if involved(owners, k.0, k.1).len() >= 2 {
            prev.push(conflict_spec(owners, k.0, k.1))
        } else {
            prev
        }
    }
}

/// What [`find_conflicts`] reports.
pub open spec fn conflicts_spec(owners: Seq<PortOwner>) -> Seq<ConflictView> {
    conflicts_over(owners, owner_key_order(owners))
}

/// Every `(port, protocol)` some owner claims, strictly sorted.
fn collect_keys(owners: &[PortOwner]) -> (r: Vec<(u16, Vec<char>)>)
    ensures
        keys_view(r@) == owner_key_order(owners@),
        strictly_sorted(keys_view(r@)),
        forall|k: int| 0 <= k < r@.len() ==> claimed(owners@, #[trigger] keys_view(r@)[k]),
        forall|a: int, x: int|
            0 <= a < owners@.len() && 0 <= x < owners@[a].bindings@.len() ==> keys_view(
                r@,
            ).contains(
                (
                    #[trigger] owners@[a].bindings@[x]@.host_port,
                    owners@[a].bindings@[x]@.protocol,
                ),
            ),
{
    let mut keys: Vec<(u16, Vec<char>)> = Vec::new();
    let mut a: usize = 0;
    assert(keys_view(keys@) =~= owner_key_order(owners@.take(0)));
    while a < owners.len()
        invariant
            a <= owners.len(),
            keys_view(keys@) == owner_key_order(owners@.take(a as int)),
            strictly_sorted(keys_view(keys@)),
            forall|k: int| 0 <= k < keys@.len() ==> claimed(owners@, #[trigger] keys_view(keys@)[k]),
            forall|aa: int, x: int|
                0 <= aa < a && 0 <= x < owners@[aa].bindings@.len() ==> keys_view(keys@).contains(
                    (
                        #[trigger] owners@[aa].bindings@[x]@.host_port,
                        owners@[aa].bindings@[x]@.protocol,
                    ),
                ),
        decreases owners.len() - a,
    {
        let owner = &owners[a];
        let mut x: usize = 0;
        assert(owner.bindings@.take(0) =~= Seq::<PortBinding>::empty());
        while x < owner.bindings.len()
            invariant
                a < owners.len(),
                owner == owners@[a as int],
                x <= owner.bindings.len(),
                keys_view(keys@) == add_binding_keys(
                    owner_key_order(owners@.take(a as int)),
                    owner.bindings@.take(x as int),
                ),
                strictly_sorted(keys_view(keys@)),
                forall|k: int|
                    0 <= k < keys@.len() ==> claimed(owners@, #[trigger] keys_view(keys@)[k]),
                forall|aa: int, xx: int|
                    0 <= aa < a && 0 <= xx < owners@[aa].bindings@.len() ==> keys_view(
                        keys@,
                    ).contains(
                        (
                            #[trigger] owners@[aa].bindings@[xx]@.host_port,
                            owners@[aa].bindings@[xx]@.protocol,
                        ),
                    ),
                forall|xx: int|
                    0 <= xx < x ==> keys_view(keys@).contains(
                        (
                            #[trigger] owner.bindings@[xx]@.host_port,
                            owner.bindings@[xx]@.protocol,
                        ),
                    ),
            decreases owner.bindings.len() - x,
        {
            let b = &owner.bindings[x];
            let proto = chars_of(b.protocol.as_str());
            let ghost before = keys_view(keys@);
            insert_key(&mut keys, b.host_port, proto);
            assert(owner.bindings@.take(x + 1).drop_last() =~= owner.bindings@.take(x as int));
            proof {
                let kv = keys_view(keys@);
                assert(has_key(owners@[a as int].bindings@[x as int]@, b.host_port, b.protocol@));
                assert forall|k: int| 0 <= k < keys@.len() implies claimed(
                    owners@,
                    #[trigger] keys_view(keys@)[k],
                ) by {
                    assert(kv.contains(kv[k]));
                    if kv[k] == (b.host_port, b.protocol@) {
                        assert(has_key(owners@[a as int].bindings@[x as int]@, kv[k].0, kv[k].1));
                    } else {
                        let i = choose|i: int| 0 <= i < before.len() && before[i] == kv[k];
                        assert(claimed(owners@, before[i]));
                    }
                }
                assert forall|aa: int, xx: int|
                    0 <= aa < a && 0 <= xx < owners@[aa].bindings@.len() implies kv.contains(
                        (
                            #[trigger] owners@[aa].bindings@[xx]@.host_port,
                            owners@[aa].bindings@[xx]@.protocol,
                        ),
                    ) by {
                    assert(before.contains(
                        (owners@[aa].bindings@[xx]@.host_port, owners@[aa].bindings@[xx]@.protocol),
                    ));
                }
                assert forall|xx: int| 0 <= xx < x + 1 implies kv.contains(
                    (#[trigger] owner.bindings@[xx]@.host_port, owner.bindings@[xx]@.protocol),
                ) by {
                    if xx < x {
                        assert(before.contains(
                            (owner.bindings@[xx]@.host_port, owner.bindings@[xx]@.protocol),
                        ));
                    }
                }
            }
            x = x + 1;
        }
        assert(owner.bindings@.take(x as int) =~= owner.bindings@);
        assert(owners@.take(a + 1).drop_last() =~= owners@.take(a as int));
        a = a + 1;
    }
    assert(owners@.take(a as int) =~= owners@);
    keys
}

fn binding_has_key(b: &PortBinding, port: u16, proto: &Vec<char>) -> (r: bool)
    ensures
        r == has_key(b@, port, proto@),
{
    if b.host_port != port {
        return false;
    }
    let p = chars_of(b.protocol.as_str());
    chars_eq(&p, proto)
}

/// Whether owner `a` takes part in a cross-owner collision on the key.
fn owner_collides(owners: &[PortOwner], a: usize, port: u16, proto: &Vec<char>) -> (r: bool)
    requires
        a < owners.len(),
    ensures
        r == collides(owners@, port, proto@, a as int),
{
    let oa = &owners[a];
    let ka = chars_of(oa.key.as_str());
    let mut x: usize = 0;
    while x < oa.bindings.len()
        invariant
            a < owners.len(),
            oa == owners@[a as int],
            ka@ == oa.key@,
            x <= oa.bindings.len(),
            forall|b: int, xx: int, y: int|
                0 <= xx < x ==> !#[trigger] collision_witness(
                    owners@,
                    port,
                    proto@,
                    a as int,
                    b,
                    xx,
                    y,
                ),
        decreases oa.bindings.len() - x,
    {
        let bx = &oa.bindings[x];
        if binding_has_key(bx, port, proto) {
            let ipx = chars_of(bx.host_ip.as_str());
            let mut b: usize = 0;
            while b < owners.len()
                invariant
                    a < owners.len(),
                    oa == owners@[a as int],
                    ka@ == oa.key@,
                    x < oa.bindings.len(),
                    bx == oa.bindings@[x as int],
                    ipx@ == bx.host_ip@,
                    has_key(bx@, port, proto@),
                    b <= owners.len(),
                    forall|bb: int, xx: int, y: int|
                        0 <= xx < x ==> !#[trigger] collision_witness(
                            owners@,
                            port,
                            proto@,
                            a as int,
                            bb,
                            xx,
                            y,
                        ),
                    forall|bb: int, y: int|
                        0 <= bb < b ==> !#[trigger] collision_witness(
                            owners@,
                            port,
                            proto@,
                            a as int,
                            bb,
                            x as int,
                            y,
                        ),
                decreases owners.len() - b,
            {
                let ob = &owners[b];
                let kb = chars_of(ob.key.as_str());
                if !chars_eq(&ka, &kb) {
                    let mut y: usize = 0;
                    while y < ob.bindings.len()
                        invariant
                            a < owners.len(),
                            b < owners.len(),
                            oa == owners@[a as int],
                            ob == owners@[b as int],
                            ka@ == oa.key@,
                            kb@ == ob.key@,
                            ka@ != kb@,
                            x < oa.bindings.len(),
                            bx == oa.bindings@[x as int],
                            ipx@ == bx.host_ip@,
                            has_key(bx@, port, proto@),
                            y <= ob.bindings.len(),
                            forall|yy: int|
                                0 <= yy < y ==> !#[trigger] collision_witness(
                                    owners@,
                                    port,
                                    proto@,
                                    a as int,
                                    b as int,
                                    x as int,
                                    yy,
                                ),
                        decreases ob.bindings.len() - y,
                    {
                        let by = &ob.bindings[y];
                        if binding_has_key(by, port, proto) {
                            let ipy = chars_of(by.host_ip.as_str());
                            if overlap_chars(&ipx, &ipy) {
                                assert(collision_witness(
                                    owners@,
                                    port,
                                    proto@,
                                    a as int,
                                    b as int,
                                    x as int,
                                    y as int,
                                ));
                                return true;
                            }
                        }
                        y = y + 1;
                    }
                }
                b = b + 1;
            }
        }
        x = x + 1;
    }
    false
}

proof fn lemma_involved_upto(owners: Seq<PortOwner>, port: u16, proto: Seq<char>, n: int)
    ensures
        forall|k: int|
            0 <= k < involved_upto(owners, port, proto, n).len() ==> 0 <= #[trigger] involved_upto(
                owners,
                port,
                proto,
                n,
            )[k] < n && collides(owners, port, proto, involved_upto(owners, port, proto, n)[k]),
    decreases n,
{
    if n > 0 {
        lemma_involved_upto(owners, port, proto, n - 1);
        let prev = involved_upto(owners, port, proto, n - 1);
        let cur = involved_upto(owners, port, proto, n);
        assert forall|k: int| 0 <= k < cur.len() implies 0 <= #[trigger] cur[k] < n && collides(
            owners,
            port,
            proto,
            cur[k],
        ) by {
            if k < prev.len() {
                assert(cur[k] == prev[k]);
            }
        }
    }
}

/// Every host port claimed by two or more distinct owners on overlapping
/// interfaces, sorted by port then protocol.
pub fn find_conflicts(owners: &[PortOwner]) -> (r: Vec<PortConflict>)
    ensures
        r@.map_values(|c: PortConflict| c@) == conflicts_spec(owners@),
        forall|i: int|
            0 <= i < r@.len() ==> involved(owners@, r@[i].host_port, r@[i].protocol@).len() >= 2
                && (#[trigger] r@[i])@ == conflict_spec(owners@, r@[i].host_port, r@[i].protocol@),
        forall|i: int, j: int|
            0 <= i < j < r@.len() ==> key_lt(
                (#[trigger] r@[i].host_port, r@[i].protocol@),
                (#[trigger] r@[j].host_port, r@[j].protocol@),
            ),
        forall|port: u16, proto: Seq<char>|
            #[trigger] involved(owners@, port, proto).len() >= 2 ==> exists|i: int|
                0 <= i < r@.len() && r@[i].host_port == port && r@[i].protocol@ == proto,
{
    let keys = collect_keys(owners);
    let ghost kv = keys_view(keys@);
    let mut out: Vec<PortConflict> = Vec::new();
    let mut k: usize = 0;
    while k < keys.len()
        invariant
            k <= keys.len(),
            kv == keys_view(keys@),
            kv == owner_key_order(owners@),
            out@.map_values(|c: PortConflict| c@) == conflicts_over(owners@, kv.take(k as int)),
            strictly_sorted(kv),
            forall|i: int|
                0 <= i < out@.len() ==> involved(owners@, out@[i].host_port, out@[i].protocol@).len()
                    >= 2 && (#[trigger] out@[i])@ == conflict_spec(
                    owners@,
                    out@[i].host_port,
                    out@[i].protocol@,
                ),
            forall|i: int, j: int|
                0 <= i < j < out@.len() ==> key_lt(
                    (#[trigger] out@[i].host_port, out@[i].protocol@),
                    (#[trigger] out@[j].host_port, out@[j].protocol@),
                ),
            forall|i: int, j: int|
                0 <= i < out@.len() && k <= j < kv.len() ==> key_lt(
                    (#[trigger] out@[i].host_port, out@[i].protocol@),
                    #[trigger] kv[j],
                ),
            forall|j: int|
                0 <= j < k ==> (involved(owners@, (#[trigger] kv[j]).0, kv[j].1).len() >= 2
                    ==> exists|i: int|
                    0 <= i < out@.len() && out@[i].host_port == kv[j].0 && out@[i].protocol@
                        == kv[j].1),
        decreases keys.len() - k,
    {
        let port = keys[k].0;
        let proto = &keys[k].1;
        let ghost key = kv[k as int];
        let ghost old_out = out@;
        assert(kv.take(k + 1).drop_last() =~= kv.take(k as int));
        assert(kv.take(k + 1).last() == key);
        assert(key == (port, proto@));
        let mut inv: Vec<usize> = Vec::new();
        let mut a: usize = 0;
        while a < owners.len()
            invariant
                a <= owners.len(),
                inv@.map_values(|u: usize| u as int) == involved_upto(
                    owners@,
                    port,
                    proto@,
                    a as int,
                ),
                forall|i: int| 0 <= i < inv@.len() ==> #[trigger] inv@[i] < owners.len(),
            decreases owners.len() - a,
        {
            let ghost old_inv = inv@;
            if owner_collides(owners, a, port, proto) {
                inv.push(a);
                assert(inv@.map_values(|u: usize| u as int) =~= old_inv.map_values(
                    |u: usize| u as int,
                ).push(a as int));
            }
            a = a + 1;
        }
        let ghost inv_int = inv@.map_values(|u: usize| u as int);
        assert(inv_int == involved(owners@, port, proto@));
        if inv.len() >= 2 {
            let mut labels: Vec<String> = Vec::new();
            let mut active = true;
            let mut m: usize = 0;
            while m < inv.len()
                invariant
                    m <= inv.len(),
                    inv_int == inv@.map_values(|u: usize| u as int),
                    forall|i: int| 0 <= i < inv@.len() ==> #[trigger] inv@[i] < owners.len(),
                    labels@.map_values(|s: String| s@) == inv_int.take(m as int).map_values(
                        |a: int| owners@[a].label@,
                    ),
                    active == forall|q: int|
                        0 <= q < m ==> owners@[#[trigger] inv_int[q]].kind
                            == OwnerKind::RunningContainer,
                decreases inv.len() - m,
            {
                let idx = inv[m];
                assert(inv_int[m as int] == idx as int);
                let ghost old_labels = labels@.map_values(|s: String| s@);
                let label = copy_string(&owners[idx].label);
                labels.push(label);
                assert(labels@.map_values(|s: String| s@) =~= old_labels.push(
                    owners@[idx as int].label@,
                ));
                assert(inv_int.take(m + 1) =~= inv_int.take(m as int).push(idx as int));
                if owners[idx].kind != OwnerKind::RunningContainer {
                    active = false;
                }
                m = m + 1;
            }
            assert(inv_int.take(m as int) =~= inv_int);
            let c = PortConflict { host_port: port, protocol: string_of(proto), owners: labels, active };
            assert(c@ =~= conflict_spec(owners@, port, proto@));
            proof {
                assert forall|i: int| 0 <= i < out@.len() implies key_lt(
                    (out@[i].host_port, out@[i].protocol@),
                    key,
                ) by {
                    assert(key_lt((out@[i].host_port, out@[i].protocol@), kv[k as int]));
                }
            }
            out.push(c);
            assert(out@.map_values(|c: PortConflict| c@) =~= old_out.map_values(
                |c: PortConflict| c@,
            ).push(c@));
        }
        proof {
            assert forall|j: int|
                0 <= j < k + 1 implies (involved(owners@, (#[trigger] kv[j]).0, kv[j].1).len()
                >= 2 ==> exists|i: int|
                0 <= i < out@.len() && out@[i].host_port == kv[j].0 && out@[i].protocol@
                    == kv[j].1) by {
                if involved(owners@, kv[j].0, kv[j].1).len() >= 2 {
                    if j == k {
                        let i = out@.len() - 1;
                        assert(out@[i].host_port == kv[j].0 && out@[i].protocol@ == kv[j].1);
                    } else {
                        let i = choose|i: int|
                            0 <= i < old_out.len() && old_out[i].host_port == kv[j].0
                                && old_out[i].protocol@ == kv[j].1;
                        assert(out@[i] == old_out[i]);
                    }
                }
            }
            assert forall|i: int, j: int|
                0 <= i < out@.len() && k + 1 <= j < kv.len() implies key_lt(
                    (#[trigger] out@[i].host_port, out@[i].protocol@),
                    #[trigger] kv[j],
                ) by {
                if i == out@.len() - 1 && out@[i].host_port == port && out@[i].protocol@ == proto@ {
                    assert(key_lt(kv[k as int], kv[j]));
                }
            }
        }
        k = k + 1;
    }
    assert(kv.take(k as int) =~= kv);
    proof {
        assert forall|port: u16, proto: Seq<char>|
            #[trigger] involved(owners@, port, proto).len() >= 2 implies exists|i: int|
                0 <= i < out@.len() && out@[i].host_port == port && out@[i].protocol@ == proto by {
            let inv = involved(owners@, port, proto);
            lemma_involved_upto(owners@, port, proto, owners@.len() as int);
            let a = inv[0];
            assert(collides(owners@, port, proto, a));
            let (b, x, y) = choose|b: int, x: int, y: int|
                #[trigger] collision_witness(owners@, port, proto, a, b, x, y);
            assert(has_key(owners@[a].bindings@[x]@, port, proto));
            assert(kv.contains((owners@[a].bindings@[x]@.host_port, owners@[a].bindings@[x]@.protocol)));
            let j = choose|j: int| 0 <= j < kv.len() && kv[j] == (port, proto);
            assert(involved(owners@, kv[j].0, kv[j].1).len() >= 2);
        }
    }
    out
}

// ---------------------------------------------------------------------------
// Display
// ---------------------------------------------------------------------------

/// `host:` as the column shows it: nothing for no interface, brackets around
/// an IPv6 address.
pub open spec fn host_prefix(ip: Seq<char>) -> Seq<char> {
    if ip.len() == 0 {
        Seq::empty()
    } else if ip.contains(':') {
        seq!['['] + ip + seq![']', ':']
    } else {
        ip + seq![':']
    }
}

/// `0.0.0.0:5656->5656/tcp`.
pub open spec fn binding_text(b: BindingView) -> Seq<char> {
    host_prefix(b.host_ip) + decimal(b.host_port as nat) + arrow() + decimal(
        b.container_port as nat,
    ) + seq!['/'] + b.protocol
}

/// The pieces joined by `", "`.
pub open spec fn join_comma(pieces: Seq<Seq<char>>) -> Seq<char>
    decreases pieces.len(),
{
    if pieces.len() == 0 {
        Seq::empty()
    } else if pieces.len() == 1 {
        pieces[0]
    } else {
        join_comma(pieces.drop_last()) + seq![',', ' '] + pieces.last()
    }
}

/// The column's display form, each distinct publish once, joined by `", "`.
pub open spec fn format_bindings_spec(bs: Seq<BindingView>) -> Seq<char> {
    join_comma(dedupe_spec(bs).map_values(|b: BindingView| binding_text(b)))
}

fn push_str(s: &mut String, t: &str)
    ensures
        final(s)@ == old(s)@ + t@,
{
    s.append(t);
}

fn push_binding_text(s: &mut String, b: &PortBinding)
    ensures
        final(s)@ == old(s)@ + binding_text(b@),
{
    let ip = chars_of(b.host_ip.as_str());
    if ip.len() > 0 {
        if contains_char(&ip, ':') {
            push_char(s, '[');
            push_str(s, b.host_ip.as_str());
            push_char(s, ']');
            push_char(s, ':');
            assert(s@ =~= old(s)@ + host_prefix(b.host_ip@));
        } else {
            push_str(s, b.host_ip.as_str());
            push_char(s, ':');
            assert(s@ =~= old(s)@ + host_prefix(b.host_ip@));
        }
    } else {
        assert(s@ =~= old(s)@ + host_prefix(b.host_ip@));
    }
    push_decimal(s, b.host_port as u64);
    push_char(s, '-');
    push_char(s, '>');
    push_decimal(s, b.container_port as u64);
    push_char(s, '/');
    push_str(s, b.protocol.as_str());
    assert(s@ =~= old(s)@ + binding_text(b@));
}

/// The column's display form: `0.0.0.0:5656->5656/tcp`, joined by `", "`,
/// each publish once (the IPv4/IPv6 halves of one publish collapse). Empty
/// when nothing is published.
pub fn format_bindings(bindings: &[PortBinding]) -> (r: String)
    ensures
        r@ == format_bindings_spec(bindings_view(bindings@)),
{
    let kept = dedupe_bindings(bindings);
    let ghost texts = bindings_view(kept@).map_values(|b: BindingView| binding_text(b));
    let mut s = String::new();
    let mut i: usize = 0;
    while i < kept.len()
        invariant
            i <= kept.len(),
            texts == bindings_view(kept@).map_values(|b: BindingView| binding_text(b)),
            s@ == join_comma(texts.take(i as int)),
        decreases kept.len() - i,
    {
        let ghost prev = s@;
        if i > 0 {
            push_char(&mut s, ',');
            push_char(&mut s, ' ');
        }
        push_binding_text(&mut s, &kept[i]);
        proof {
            assert(texts.take(i + 1).drop_last() =~= texts.take(i as int));
            assert(texts[i as int] == binding_text(kept@[i as int]@));
            if i == 0 {
                assert(s@ =~= join_comma(texts.take(1)));
            } else {
                assert(s@ =~= join_comma(texts.take(i + 1)));
            }
        }
        i = i + 1;
    }
    assert(texts.take(i as int) =~= texts);
    s
}


// ---------------------------------------------------------------------------
// Laws
// ---------------------------------------------------------------------------

/// Interface overlap is symmetric.
pub proof fn law_overlap_symmetric(a: Seq<char>, b: Seq<char>)
    ensures
        overlap_spec(a, b) == overlap_spec(b, a),
{
}

proof fn lemma_same_publish_symmetric(a: BindingView, b: BindingView)
    ensures
        same_publish(a, b) == same_publish(b, a),
{
}

/// De-duplication keeps one binding per publish: no two kept bindings
/// publish the same thing, and every input binding is represented by a
/// kept one publishing the same thing.
pub proof fn law_dedupe_keeps_each_publish_once(bs: Seq<BindingView>)
    ensures
        forall|i: int, j: int|
            0 <= i < j < dedupe_spec(bs).len() ==> !same_publish(
                #[trigger] dedupe_spec(bs)[i],
                #[trigger] dedupe_spec(bs)[j],
            ),
        forall|i: int|
            0 <= i < bs.len() ==> exists|k: int|
                0 <= k < dedupe_spec(bs).len() && same_publish(
                    #[trigger] dedupe_spec(bs)[k],
                    #[trigger] bs[i],
                ),
    decreases bs.len(),
{
    if bs.len() > 0 {
        let prev = bs.drop_last();
        law_dedupe_keeps_each_publish_once(prev);
        let kept = dedupe_spec(prev);
        let d = dedupe_spec(bs);
        if exists|k: int| 0 <= k < kept.len() && same_publish(#[trigger] kept[k], bs.last()) {
            assert(d == kept);
            assert forall|i: int| 0 <= i < bs.len() implies exists|k: int|
                0 <= k < d.len() && same_publish(#[trigger] d[k], #[trigger] bs[i]) by {
                if i < bs.len() - 1 {
                    assert(bs[i] == prev[i]);
                } else {
                    assert(bs[i] == bs.last());
                }
            }
        } else {
            assert(d == kept.push(bs.last()));
            assert forall|i: int, j: int| 0 <= i < j < d.len() implies !same_publish(
                #[trigger] d[i],
                #[trigger] d[j],
            ) by {
                if j == d.len() - 1 {
                    assert(d[i] == kept[i]);
                    assert(d[j] == bs.last());
                    lemma_same_publish_symmetric(kept[i], bs.last());
                } else {
                    assert(d[i] == kept[i] && d[j] == kept[j]);
                }
            }
            assert forall|i: int| 0 <= i < bs.len() implies exists|k: int|
                0 <= k < d.len() && same_publish(#[trigger] d[k], #[trigger] bs[i]) by {
                if i < bs.len() - 1 {
                    assert(bs[i] == prev[i]);
                    let k = choose|k: int| 0 <= k < kept.len() && same_publish(#[trigger] kept[k], prev[i]);
                    assert(d[k] == kept[k]);
                } else {
                    assert(d[kept.len() as int] == bs.last());
                }
            }
        }
    }
}

proof fn lemma_involved_upto_members(owners: Seq<PortOwner>, port: u16, proto: Seq<char>, n: int)
    requires
        0 <= n,
    ensures
        forall|i: int|
            #[trigger] involved_upto(owners, port, proto, n).contains(i) <==> (0 <= i < n && collides(
                owners,
                port,
                proto,
                i,
            )),
        forall|k: int|
            0 <= k < involved_upto(owners, port, proto, n).len() ==> 0 <= #[trigger] involved_upto(
                owners,
                port,
                proto,
                n,
            )[k] < n,
    decreases n,
{
    if n > 0 {
        lemma_involved_upto_members(owners, port, proto, n - 1);
        let prev = involved_upto(owners, port, proto, n - 1);
        let cur = involved_upto(owners, port, proto, n);
        assert forall|i: int| #[trigger] cur.contains(i) <==> (0 <= i < n && collides(owners, port, proto, i)) by {
            if collides(owners, port, proto, n - 1) {
                assert(cur == prev.push(n - 1));
                if cur.contains(i) {
                    if i != n - 1 {
                        let k = choose|k: int| 0 <= k < cur.len() && cur[k] == i;
                        assert(k < prev.len());
                        assert(prev[k] == i);
                        assert(prev.contains(i));
                    }
                }
                if 0 <= i < n && collides(owners, port, proto, i) {
                    if i == n - 1 {
                        assert(cur[prev.len() as int] == i);
                    } else {
                        assert(prev.contains(i));
                        let k = choose|k: int| 0 <= k < prev.len() && prev[k] == i;
                        assert(cur[k] == i);
                    }
                }
            } else {
                assert(cur == prev);
                if cur.contains(i) {
                    assert(prev.contains(i));
                }
                if 0 <= i < n && collides(owners, port, proto, i) {
                    assert(i != n - 1);
                    assert(prev.contains(i));
                }
            }
        }
        assert forall|k: int| 0 <= k < cur.len() implies 0 <= #[trigger] cur[k] < n by {
            if collides(owners, port, proto, n - 1) && k == prev.len() {
            } else {
                assert(cur[k] == prev[k]);
            }
        }
    }
}

/// Nobody is in conflict alone: the owners involved in a collision on a
/// port and protocol are never exactly one, since each collides with an
/// owner of another key, which collides back.
pub proof fn law_no_lone_conflict(owners: Seq<PortOwner>, port: u16, proto: Seq<char>)
    ensures
        involved(owners, port, proto).len() != 1,
{
    let inv = involved(owners, port, proto);
    lemma_involved_upto_members(owners, port, proto, owners.len() as int);
    if inv.len() == 1 {
        let a = inv[0];
        assert(inv.contains(a));
        assert(collides(owners, port, proto, a));
        let (b, x, y) = choose|b: int, x: int, y: int| #[trigger]
            collision_witness(owners, port, proto, a, b, x, y);
        law_overlap_symmetric(owners[a].bindings@[x]@.host_ip, owners[b].bindings@[y]@.host_ip);
        assert(collision_witness(owners, port, proto, b, a, y, x));
        assert(collides(owners, port, proto, b));
        assert(inv.contains(b));
        let k = choose|k: int| 0 <= k < inv.len() && inv[k] == b;
        assert(k == 0);
        assert(owners[a].key@ != owners[b].key@);
    }
}

/// An owner never conflicts with itself: when every owner carries the same
/// key (one container, seen once or several times), nothing collides and no
/// conflict is reported.
pub proof fn law_single_owner_never_conflicts(owners: Seq<PortOwner>)
    requires
        forall|a: int, b: int|
            0 <= a < owners.len() && 0 <= b < owners.len() ==> (#[trigger] owners[a]).key@ == (
            #[trigger] owners[b]).key@,
    ensures
        forall|port: u16, proto: Seq<char>| #[trigger] involved(owners, port, proto).len() == 0,
        conflicts_spec(owners).len() == 0,
{
    assert forall|port: u16, proto: Seq<char>| #[trigger] involved(owners, port, proto).len() == 0 by {
        lemma_involved_upto_members(owners, port, proto, owners.len() as int);
        let inv = involved(owners, port, proto);
        if inv.len() > 0 {
            let a = inv[0];
            assert(inv.contains(a));
            assert(collides(owners, port, proto, a));
            let (b, x, y) = choose|b: int, x: int, y: int| #[trigger]
                collision_witness(owners, port, proto, a, b, x, y);
            assert(owners[a].key@ == owners[b].key@);
        }
    }
    lemma_no_conflicts_over(owners, owner_key_order(owners));
}

proof fn lemma_no_conflicts_over(owners: Seq<PortOwner>, ks: Seq<(u16, Seq<char>)>)
    requires
        forall|port: u16, proto: Seq<char>| #[trigger] involved(owners, port, proto).len() == 0,
    ensures
        conflicts_over(owners, ks).len() == 0,
    decreases ks.len(),
{
    if ks.len() > 0 {
        lemma_no_conflicts_over(owners, ks.drop_last());
        assert(involved(owners, ks.last().0, ks.last().1).len() == 0);
    }
}

/// The entries of a `Ports` field are read independently: the field
/// `a,b` gives the bindings of `a` followed by those of `b`.
pub proof fn law_ps_ports_concatenate(a: Seq<char>, b: Seq<char>)
    ensures
        ps_ports_spec(a + seq![','] + b) == ps_ports_spec(a) + ps_ports_spec(b),
{
    let f = |e: Seq<char>| ps_entry_spec(e);
    lemma_split_acc_at(Seq::empty(), a, b, ',', ',');
    let sa = split_char(a, ',');
    let sb = split_char(b, ',');
    assert((sa + sb).map_values(f) =~= sa.map_values(f) + sb.map_values(f));
    vstd::seq_lib::lemma_flatten_concat(sa.map_values(f), sb.map_values(f));
}

pub proof fn lemma_insert_key_contains(ks: Seq<(u16, Seq<char>)>, k: (u16, Seq<char>))
    ensures
        forall|j: (u16, Seq<char>)|
            #[trigger] insert_key_spec(ks, k).contains(j) <==> ks.contains(j) || j == k,
{
    let p = first_not_below(ks, k, 0);
    lemma_first_not_below_bounds(ks, k, 0);
    if 0 <= p < ks.len() && ks[p] == k {
    } else {
        let r = ks.insert(p, k);
        assert forall|j: (u16, Seq<char>)| r.contains(j) <==> ks.contains(j) || j == k by {
            if r.contains(j) {
                let i = choose|i: int| 0 <= i < r.len() && r[i] == j;
                if i < p {
                    assert(ks[i] == j);
                } else if i > p {
                    assert(ks[i - 1] == j);
                }
            }
            if ks.contains(j) {
                let i = choose|i: int| 0 <= i < ks.len() && ks[i] == j;
                if i < p {
                    assert(r[i] == j);
                } else {
                    assert(r[i + 1] == j);
                }
            }
            if j == k {
                assert(r[p] == j);
            }
        }
    }
}

pub proof fn lemma_first_not_below_bounds(ks: Seq<(u16, Seq<char>)>, k: (u16, Seq<char>), i: int)
    requires
        0 <= i <= ks.len(),
    ensures
        i <= first_not_below(ks, k, i) <= ks.len(),
    decreases ks.len() - i,
{
    if i < ks.len() && key_lt(ks[i], k) {
        lemma_first_not_below_bounds(ks, k, i + 1);
    }
}

proof fn lemma_add_binding_keys(ks: Seq<(u16, Seq<char>)>, bs: Seq<PortBinding>)
    ensures
        forall|m: (u16, Seq<char>)| ks.contains(m) ==> #[trigger] add_binding_keys(ks, bs).contains(m),
        forall|x: int|
            0 <= x < bs.len() ==> add_binding_keys(ks, bs).contains(
                (#[trigger] bs[x].host_port, bs[x].protocol@),
            ),
    decreases bs.len(),
{
    if bs.len() > 0 {
        lemma_add_binding_keys(ks, bs.drop_last());
        let prev = add_binding_keys(ks, bs.drop_last());
        lemma_insert_key_contains(prev, (bs.last().host_port, bs.last().protocol@));
        assert forall|x: int| 0 <= x < bs.len() implies add_binding_keys(ks, bs).contains(
            (#[trigger] bs[x].host_port, bs[x].protocol@),
        ) by {
            if x < bs.len() - 1 {
                assert(bs.drop_last()[x] == bs[x]);
                assert(prev.contains((bs.drop_last()[x].host_port, bs.drop_last()[x].protocol@)));
            }
        }
    }
}

proof fn lemma_owner_key_order_covers(owners: Seq<PortOwner>)
    ensures
        forall|a: int, x: int|
            0 <= a < owners.len() && 0 <= x < owners[a].bindings@.len() ==> owner_key_order(
                owners,
            ).contains((#[trigger] owners[a].bindings@[x].host_port, owners[a].bindings@[x].protocol@)),
    decreases owners.len(),
{
    if owners.len() > 0 {
        let init = owners.drop_last();
        lemma_owner_key_order_covers(init);
        lemma_add_binding_keys(owner_key_order(init), owners.last().bindings@);
        assert forall|a: int, x: int|
            0 <= a < owners.len() && 0 <= x < owners[a].bindings@.len() implies owner_key_order(
            owners,
        ).contains((#[trigger] owners[a].bindings@[x].host_port, owners[a].bindings@[x].protocol@)) by {
            if a < owners.len() - 1 {
                assert(init[a] == owners[a]);
                assert(owner_key_order(init).contains(
                    (init[a].bindings@[x].host_port, init[a].bindings@[x].protocol@),
                ));
            } else {
                assert(owners.last() == owners[a]);
            }
        }
    }
}

proof fn lemma_conflicts_over_reports(owners: Seq<PortOwner>, ks: Seq<(u16, Seq<char>)>, k: (u16, Seq<char>))
    requires
        ks.contains(k),
        involved(owners, k.0, k.1).len() >= 2,
    ensures
        exists|i: int|
            0 <= i < conflicts_over(owners, ks).len() && (#[trigger] conflicts_over(owners, ks)[i]).host_port
                == k.0 && conflicts_over(owners, ks)[i].protocol == k.1,
    decreases ks.len(),
{
    let j = choose|j: int| 0 <= j < ks.len() && ks[j] == k;
    let prev = conflicts_over(owners, ks.drop_last());
    let cur = conflicts_over(owners, ks);
    if j == ks.len() - 1 {
        assert(ks.last() == k);
        assert(cur[cur.len() - 1] == conflict_spec(owners, k.0, k.1));
    } else {
        assert(ks.drop_last()[j] == k);
        lemma_conflicts_over_reports(owners, ks.drop_last(), k);
        let i = choose|i: int|
            0 <= i < prev.len() && (#[trigger] prev[i]).host_port == k.0 && prev[i].protocol == k.1;
        assert(cur[i] == prev[i]);
    }
}


proof fn lemma_first_not_below_splits(ks: Seq<(u16, Seq<char>)>, k: (u16, Seq<char>), i: int)
    requires
        0 <= i <= ks.len(),
        forall|q: int| 0 <= q < i ==> key_lt(#[trigger] ks[q], k),
    ensures
        forall|q: int| 0 <= q < first_not_below(ks, k, i) ==> key_lt(#[trigger] ks[q], k),
        first_not_below(ks, k, i) < ks.len() ==> !key_lt(ks[first_not_below(ks, k, i)], k),
    decreases ks.len() - i,
{
    if i < ks.len() && key_lt(ks[i], k) {
        lemma_first_not_below_splits(ks, k, i + 1);
    }
}

/// Inserting a key keeps a strictly sorted list strictly sorted.
pub proof fn lemma_insert_key_sorted(ks: Seq<(u16, Seq<char>)>, k: (u16, Seq<char>))
    requires
        strictly_sorted(ks),
    ensures
        strictly_sorted(insert_key_spec(ks, k)),
{
    lemma_first_not_below_bounds(ks, k, 0);
    lemma_first_not_below_splits(ks, k, 0);
    let p = first_not_below(ks, k, 0);
    if 0 <= p < ks.len() && ks[p] == k {
    } else {
        let nv = ks.insert(p, k);
        if p < ks.len() {
            lemma_key_lt_order(ks[p], k, k);
        }
        assert forall|i: int, j: int| 0 <= i < j < nv.len() implies key_lt(
            #[trigger] nv[i],
            #[trigger] nv[j],
        ) by {
            if j < p {
                assert(nv[i] == ks[i] && nv[j] == ks[j]);
            } else if j == p {
                assert(nv[i] == ks[i]);
            } else if i == p {
                assert(nv[j] == ks[j - 1]);
                if j - 1 > p {
                    lemma_key_lt_order(k, ks[p], ks[j - 1]);
                }
            } else if i < p {
                assert(nv[j] == ks[j - 1]);
                assert(nv[i] == ks[i]);
                if j - 1 >= p {
                    lemma_key_lt_order(ks[i], k, ks[p]);
                    lemma_key_lt_order(ks[i], ks[p], ks[j - 1]);
                }
            } else {
                assert(nv[i] == ks[i - 1] && nv[j] == ks[j - 1]);
            }
        }
    }
}

proof fn lemma_add_binding_keys_sorted(ks: Seq<(u16, Seq<char>)>, bs: Seq<PortBinding>)
    requires
        strictly_sorted(ks),
    ensures
        strictly_sorted(add_binding_keys(ks, bs)),
    decreases bs.len(),
{
    if bs.len() > 0 {
        lemma_add_binding_keys_sorted(ks, bs.drop_last());
        lemma_insert_key_sorted(
            add_binding_keys(ks, bs.drop_last()),
            (bs.last().host_port, bs.last().protocol@),
        );
    }
}

/// The keys every owner claims come out strictly sorted.
pub proof fn lemma_owner_key_order_sorted(owners: Seq<PortOwner>)
    ensures
        strictly_sorted(owner_key_order(owners)),
    decreases owners.len(),
{
    if owners.len() > 0 {
        lemma_owner_key_order_sorted(owners.drop_last());
        lemma_add_binding_keys_sorted(owner_key_order(owners.drop_last()), owners.last().bindings@);
    }
}

/// The conflicts over strictly sorted keys come in the order of their keys,
/// each key one of `ks`.
pub proof fn lemma_conflicts_over_sorted(owners: Seq<PortOwner>, ks: Seq<(u16, Seq<char>)>)
    requires
        strictly_sorted(ks),
    ensures
        forall|i: int, j: int|
            0 <= i < j < conflicts_over(owners, ks).len() ==> key_lt(
                conflict_key(#[trigger] conflicts_over(owners, ks)[i]),
                conflict_key(#[trigger] conflicts_over(owners, ks)[j]),
            ),
        forall|i: int|
            0 <= i < conflicts_over(owners, ks).len() ==> ks.contains(
                conflict_key(#[trigger] conflicts_over(owners, ks)[i]),
            ),
    decreases ks.len(),
{
    if ks.len() > 0 {
        let init = ks.drop_last();
        assert(strictly_sorted(init));
        lemma_conflicts_over_sorted(owners, init);
        let prev = conflicts_over(owners, init);
        let cur = conflicts_over(owners, ks);
        let k = ks.last();
        assert forall|i: int| 0 <= i < cur.len() implies ks.contains(conflict_key(#[trigger] cur[i])) by {
            if i < prev.len() {
                assert(cur[i] == prev[i]);
                let q = choose|q: int| 0 <= q < init.len() && init[q] == conflict_key(prev[i]);
                assert(ks[q] == conflict_key(prev[i]));
            } else {
                assert(conflict_key(cur[i]) == k);
                assert(ks[ks.len() - 1] == k);
            }
        }
        assert forall|i: int, j: int| 0 <= i < j < cur.len() implies key_lt(
            conflict_key(#[trigger] cur[i]),
            conflict_key(#[trigger] cur[j]),
        ) by {
            assert(cur[i] == prev[i]);
            if j < prev.len() {
                assert(cur[j] == prev[j]);
            } else {
                let q = choose|q: int| 0 <= q < init.len() && init[q] == conflict_key(prev[i]);
                assert(ks[q] == conflict_key(prev[i]));
                assert(key_lt(ks[q], ks[ks.len() - 1]));
            }
        }
    }
}

/// Every collision is reported: when two distinct owners claim
/// `port`/`proto` on overlapping interfaces, the conflicts hold an entry for
/// that port and protocol.
pub proof fn law_every_collision_is_reported(owners: Seq<PortOwner>, port: u16, proto: Seq<char>)
    requires
        involved(owners, port, proto).len() >= 2,
    ensures
        exists|i: int|
            0 <= i < conflicts_spec(owners).len() && (#[trigger] conflicts_spec(owners)[i]).host_port
                == port && conflicts_spec(owners)[i].protocol == proto,
{
    let inv = involved(owners, port, proto);
    lemma_involved_upto_members(owners, port, proto, owners.len() as int);
    let a = inv[0];
    assert(inv.contains(a));
    assert(collides(owners, port, proto, a));
    let (b, x, y) = choose|b: int, x: int, y: int| #[trigger]
        collision_witness(owners, port, proto, a, b, x, y);
    lemma_owner_key_order_covers(owners);
    assert(owner_key_order(owners).contains(
        (owners[a].bindings@[x].host_port, owners[a].bindings@[x].protocol@),
    ));
    assert((owners[a].bindings@[x].host_port, owners[a].bindings@[x].protocol@) == (port, proto));
    lemma_conflicts_over_reports(owners, owner_key_order(owners), (port, proto));
    let cs = conflicts_over(owners, owner_key_order(owners));
    let i = choose|i: int|
        0 <= i < cs.len() && (#[trigger] cs[i]).host_port == port && cs[i].protocol == proto;
    assert(conflicts_spec(owners)[i] == cs[i]);
}

/// A protocol as the `Ports` parser gives it: never empty, and either the
/// default `tcp` or the lowercase form of the protocol text.
pub open spec fn named_protocol(p: Seq<char>) -> bool {
    p.len() > 0 && (p == tcp() || exists|t: Seq<char>| p == #[trigger] str_lowercase(t))
}

proof fn lemma_entry_protocols(entry: Seq<char>)
    ensures
        forall|k: int|
            0 <= k < ps_entry_spec(entry).len() ==> named_protocol(
                (#[trigger] ps_entry_spec(entry)[k]).protocol,
            ),
{
    match split_once(trim(entry), arrow()) {
        None => {},
        Some((left, right)) => {
            let (container_spec, protocol) = container_parts(trim(right));
            match split_once(trim(right), seq!['/']) {
                Some((ports, proto)) => {
                    assert(protocol == str_lowercase(trim(proto)));
                },
                None => {},
            }
        },
    }
}

proof fn lemma_flatten_named(ss: Seq<Seq<BindingView>>)
    requires
        forall|i: int, k: int|
            0 <= i < ss.len() && 0 <= k < ss[i].len() ==> named_protocol((#[trigger] ss[i][k]).protocol),
    ensures
        forall|k: int| 0 <= k < ss.flatten().len() ==> named_protocol((#[trigger] ss.flatten()[k]).protocol),
    decreases ss.len(),
{
    if ss.len() > 0 {
        let rest = ss.drop_first();
        assert forall|i: int, k: int| 0 <= i < rest.len() && 0 <= k < rest[i].len() implies named_protocol(
            (#[trigger] rest[i][k]).protocol,
        ) by {
            assert(rest[i] == ss[i + 1]);
        }
        lemma_flatten_named(rest);
        let f = ss.flatten();
        assert(f == ss.first() + rest.flatten());
        assert forall|k: int| 0 <= k < f.len() implies named_protocol((#[trigger] f[k]).protocol) by {
            if k < ss.first().len() {
                assert(f[k] == ss[0][k]);
            } else {
                assert(f[k] == rest.flatten()[k - ss.first().len()]);
            }
        }
    }
}

/// Every binding the `Ports` parser gives has a protocol: never empty, and
/// the default `tcp` or the lowercase form of what followed the `/`.
pub proof fn law_ps_protocols_are_named(raw: Seq<char>)
    ensures
        forall|k: int|
            0 <= k < ps_ports_spec(raw).len() ==> named_protocol((#[trigger] ps_ports_spec(raw)[k]).protocol),
{
    let ss = split_char(raw, ',').map_values(|e: Seq<char>| ps_entry_spec(e));
    assert forall|i: int, k: int| 0 <= i < ss.len() && 0 <= k < ss[i].len() implies named_protocol(
        (#[trigger] ss[i][k]).protocol,
    ) by {
        lemma_entry_protocols(split_char(raw, ',')[i]);
    }
    lemma_flatten_named(ss);
}

/// Distinct interfaces are never collapsed: two bindings on interfaces that
/// are not the same (all wildcards counting as one) keep a publish each in
/// the column.
pub proof fn law_distinct_interfaces_not_collapsed(bs: Seq<BindingView>, i: int, j: int)
    requires
        0 <= i < bs.len(),
        0 <= j < bs.len(),
        interface_key(bs[i].host_ip) != interface_key(bs[j].host_ip),
    ensures
        exists|a: int, b: int|
            0 <= a < dedupe_spec(bs).len() && 0 <= b < dedupe_spec(bs).len() && a != b && same_publish(
                #[trigger] dedupe_spec(bs)[a],
                bs[i],
            ) && same_publish(#[trigger] dedupe_spec(bs)[b], bs[j]),
{
    law_dedupe_keeps_each_publish_once(bs);
    let d = dedupe_spec(bs);
    let a = choose|k: int| 0 <= k < d.len() && same_publish(#[trigger] d[k], bs[i]);
    let b = choose|k: int| 0 <= k < d.len() && same_publish(#[trigger] d[k], bs[j]);
    assert(a != b);
}

} // verus!
