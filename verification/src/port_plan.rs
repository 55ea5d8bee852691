//! Turning a port collision into a concrete, reviewable list of edits.
//!
//! [`crate::ports`] answers « which port is a problem? »; this module picks a
//! free replacement for every compose declaration that cannot keep the port
//! it asks for. Only a compose declaration can be reassigned; a collision
//! involving a container created by hand comes back as [`Blocked`].
//!
//! A replacement must be free for everybody: it avoids every port a Docker
//! owner holds, every port the host listens on, every port another compose
//! file declares, and every port handed out earlier in the same plan.
//! Nothing here writes anything.

use vstd::prelude::*;

use crate::ports::{
    conflict_key, conflicts_over, conflicts_spec, find_conflicts, insert_key, insert_key_spec, key_lt,
    keys_view, lemma_conflicts_over_sorted, lemma_insert_key_contains, lemma_insert_key_sorted,
    lemma_key_lt_order, lemma_owner_key_order_sorted, owner_key_order, strictly_sorted,
    ConflictView, OwnerKind, PortConflict, PortOwner,
};
use crate::text::{
    find_in, lemma_find_from_bounds, lemma_seq_lt_irreflexive, lemma_seq_lt_transitive, chars_eq, chars_lt, chars_of, copy_string, push_char,
    push_decimal, seq_lt, split_char, split_once, split_ranges, string_of, string_of_range,
};

verus! {

/// Lowest port a replacement is ever picked from (below it a bind needs
/// root on Linux).
pub const SEARCH_FLOOR: u16 = 1024;

/// Highest port a replacement is ever picked from (49152 starts the
/// ephemeral range).
pub const SEARCH_CEILING: u16 = 49151;

/// One published port, as a compose file declares it. `file` + `service`
/// identify the `ports:` line.
#[derive(Debug, Clone, PartialEq, Eq, PartialOrd, Ord)]
pub struct DeclaredPort {
    /// Absolute path of the compose file.
    pub file: String,
    pub service: String,
    pub host_port: u16,
    pub container_port: u16,
    /// Lower-case, matching [`crate::ports::PortBinding::protocol`].
    pub protocol: String,
}

pub struct DeclView {
    pub file: Seq<char>,
    pub service: Seq<char>,
    pub host_port: u16,
    pub container_port: u16,
    pub protocol: Seq<char>,
}

impl View for DeclaredPort {
    type V = DeclView;

    open spec fn view(&self) -> DeclView {
        DeclView {
            file: self.file@,
            service: self.service@,
            host_port: self.host_port,
            container_port: self.container_port,
            protocol: self.protocol@,
        }
    }
}

pub open spec fn decls_view(ds: Seq<DeclaredPort>) -> Seq<DeclView> {
    ds.map_values(|d: DeclaredPort| d@)
}

impl DeclaredPort {
    /// `(file, service)`, the pair that identifies the `ports:` line.
    pub fn identity(&self) -> (r: (&str, &str))
        ensures
            r.0@ == self.file@,
            r.1@ == self.service@,
    {
        (self.file.as_str(), self.service.as_str())
    }
}

fn copy_decl(d: &DeclaredPort) -> (r: DeclaredPort)
    ensures
        r@ == d@,
{
    DeclaredPort {
        file: copy_string(&d.file),
        service: copy_string(&d.service),
        host_port: d.host_port,
        container_port: d.container_port,
        protocol: copy_string(&d.protocol),
    }
}

/// A port something outside Docker is listening on, as a host scan reports
/// it.
#[derive(Debug, Clone, PartialEq, Eq)]
pub struct ListeningPort {
    pub port: u16,
    /// Lower-case protocol.
    pub protocol: String,
    pub pid: Option<u32>,
    pub process: Option<String>,
}

/// `PID <n>`.
pub open spec fn pid_label(pid: u32) -> Seq<char> {
    seq!['P', 'I', 'D', ' '] + crate::text::decimal(pid as nat)
}

impl ListeningPort {
    /// Who holds the port: the process name, else its pid, else nothing.
    pub open spec fn owner_label_spec(&self) -> Option<Seq<char>> {
        match self.process {
            Some(p) => Some(p@),
            None => match self.pid {
                Some(pid) => Some(pid_label(pid)),
                None => None,
            },
        }
    }

    /// Who holds the port: the process name, else `PID <pid>`, else `None`.
    pub fn owner_label(&self) -> (r: Option<String>)
        ensures
            match r {
                Some(s) => self.owner_label_spec() == Some(s@),
                None => self.owner_label_spec() is None,
            },
    {
        match &self.process {
            Some(p) => Some(copy_string(p)),
            None => match self.pid {
                Some(pid) => {
                    let mut s = String::new();
                    push_char(&mut s, 'P');
                    push_char(&mut s, 'I');
                    push_char(&mut s, 'D');
                    push_char(&mut s, ' ');
                    push_decimal(&mut s, pid as u64);
                    assert(s@ =~= pid_label(pid));
                    Some(s)
                },
                None => None,
            },
        }
    }
}

/// Why one declaration has to give its port up.
#[derive(Debug, Clone, PartialEq, Eq)]
pub enum MoveReason {
    /// Another compose declaration wants the same port; holds the display
    /// form of the declaration that keeps it.
    TakenByStack(String),
    /// Something outside Docker already listens on it; holds the owner
    /// label the scan reported, or a fallback.
    TakenByHost(String),
}

pub enum MoveReasonView {
    TakenByStack(Seq<char>),
    TakenByHost(Seq<char>),
}

impl View for MoveReason {
    type V = MoveReasonView;

    open spec fn view(&self) -> MoveReasonView {
        match self {
            MoveReason::TakenByStack(s) => MoveReasonView::TakenByStack(s@),
            MoveReason::TakenByHost(s) => MoveReasonView::TakenByHost(s@),
        }
    }
}

/// The justification shown next to a move.
pub open spec fn reason_text(r: MoveReasonView) -> Seq<char> {
    match r {
        MoveReasonView::TakenByStack(other) => "port déjà déclaré par "@ + other,
        MoveReasonView::TakenByHost(process) => "port déjà tenu par "@ + process,
    }
}

impl MoveReason {
    /// One-line justification, shown next to the row it explains.
    pub fn text(&self) -> (r: String)
        ensures
            r@ == reason_text(self@),
    {
        match self {
            MoveReason::TakenByStack(other) => {
                let mut s = String::from_str("port déjà déclaré par ");
                s.append(other.as_str());
                s
            },
            MoveReason::TakenByHost(process) => {
                let mut s = String::from_str("port déjà tenu par ");
                s.append(process.as_str());
                s
            },
        }
    }
}

fn copy_reason(r: &MoveReason) -> (c: MoveReason)
    ensures
        c@ == r@,
{
    match r {
        MoveReason::TakenByStack(s) => MoveReason::TakenByStack(copy_string(s)),
        MoveReason::TakenByHost(s) => MoveReason::TakenByHost(copy_string(s)),
    }
}

/// One edit the plan proposes: this file's service moves this port.
#[derive(Debug, Clone, PartialEq, Eq)]
pub struct PortMove {
    pub file: String,
    pub service: String,
    pub protocol: String,
    pub from: u16,
    pub to: u16,
    pub reason: MoveReason,
}

pub struct MoveView {
    pub file: Seq<char>,
    pub service: Seq<char>,
    pub protocol: Seq<char>,
    pub from: u16,
    pub to: u16,
    pub reason: MoveReasonView,
}

impl View for PortMove {
    type V = MoveView;

    open spec fn view(&self) -> MoveView {
        MoveView {
            file: self.file@,
            service: self.service@,
            protocol: self.protocol@,
            from: self.from,
            to: self.to,
            reason: self.reason@,
        }
    }
}

/// A collision the plan deliberately does not fix, and why.
#[derive(Debug, Clone, PartialEq, Eq)]
pub struct Blocked {
    pub host_port: u16,
    pub protocol: String,
    /// Who is involved, in display form.
    pub owners: Vec<String>,
    pub reason: String,
}

pub struct BlockedView {
    pub host_port: u16,
    pub protocol: Seq<char>,
    pub owners: Seq<Seq<char>>,
    pub reason: Seq<char>,
}

impl View for Blocked {
    type V = BlockedView;

    open spec fn view(&self) -> BlockedView {
        BlockedView {
            host_port: self.host_port,
            protocol: self.protocol@,
            owners: self.owners@.map_values(|s: String| s@),
            reason: self.reason@,
        }
    }
}

fn copy_strings(v: &Vec<String>) -> (r: Vec<String>)
    ensures
        r@.map_values(|s: String| s@) == v@.map_values(|s: String| s@),
{
    let mut r: Vec<String> = Vec::new();
    let mut i: usize = 0;
    while i < v.len()
        invariant
            i <= v.len(),
            r@.map_values(|s: String| s@) == v@.take(i as int).map_values(|s: String| s@),
        decreases v.len() - i,
    {
        let ghost old_r = r@;
        r.push(copy_string(&v[i]));
        assert(r@.map_values(|s: String| s@) =~= old_r.map_values(|s: String| s@).push(v@[i as int]@));
        assert(v@.take(i + 1).map_values(|s: String| s@) =~= v@.take(i as int).map_values(
            |s: String| s@,
        ).push(v@[i as int]@));
        i = i + 1;
    }
    assert(v@.take(i as int) =~= v@);
    r
}

fn copy_blocked(b: &Blocked) -> (r: Blocked)
    ensures
        r@ == b@,
{
    Blocked {
        host_port: b.host_port,
        protocol: copy_string(&b.protocol),
        owners: copy_strings(&b.owners),
        reason: copy_string(&b.reason),
    }
}

/// The whole proposal: what to change, and what is left for the user.
#[derive(Debug, Clone, Default, PartialEq, Eq)]
pub struct ReassignmentPlan {
    pub moves: Vec<PortMove>,
    pub blocked: Vec<Blocked>,
}

pub open spec fn moves_view(ms: Seq<PortMove>) -> Seq<MoveView> {
    ms.map_values(|m: PortMove| m@)
}

pub open spec fn blocked_view(bs: Seq<Blocked>) -> Seq<BlockedView> {
    bs.map_values(|b: Blocked| b@)
}

/// The plan's files: every file a move rewrites.
pub open spec fn move_files(ms: Seq<MoveView>) -> Set<Seq<char>> {
    Set::new(|f: Seq<char>| exists|i: int| 0 <= i < ms.len() && (#[trigger] ms[i]).file == f)
}

impl ReassignmentPlan {
    pub fn is_empty(&self) -> (r: bool)
        ensures
            r == (self.moves@.len() == 0 && self.blocked@.len() == 0),
    {
        self.moves.len() == 0 && self.blocked.len() == 0
    }

    /// The distinct compose files the plan would rewrite, sorted.
    pub fn files(&self) -> (r: Vec<String>)
        ensures
            forall|i: int, j: int|
                0 <= i < j < r@.len() ==> seq_lt(#[trigger] r@[i]@, #[trigger] r@[j]@),
            forall|f: Seq<char>|
                #[trigger] move_files(moves_view(self.moves@)).contains(f) <==> exists|i: int|
                    0 <= i < r@.len() && r@[i]@ == f,
    {
        let mut sorted: Vec<(u16, Vec<char>)> = Vec::new();
        let mut i: usize = 0;
        let ghost ms = moves_view(self.moves@);
        while i < self.moves.len()
            invariant
                i <= self.moves.len(),
                ms == moves_view(self.moves@),
                strictly_sorted(keys_view(sorted@)),
                forall|k: int| 0 <= k < sorted@.len() ==> (#[trigger] sorted@[k]).0 == 0,
                forall|f: Seq<char>|
                    keys_view(sorted@).contains((0u16, f)) <==> exists|m: int|
                        0 <= m < i && (#[trigger] ms[m]).file == f,
            decreases self.moves.len() - i,
        {
            let f = chars_of(self.moves[i].file.as_str());
            let ghost before = keys_view(sorted@);
            insert_key(&mut sorted, 0, f);
            proof {
                let kv = keys_view(sorted@);
                lemma_insert_key_contains(before, (0u16, f@));
                assert forall|k: int| 0 <= k < sorted@.len() implies (#[trigger] sorted@[k]).0 == 0 by {
                    assert(kv.contains(kv[k]));
                    if kv[k] != (0u16, f@) {
                        let j = choose|j: int| 0 <= j < before.len() && before[j] == kv[k];
                    }
                }
                assert forall|g: Seq<char>|
                    kv.contains((0u16, g)) <==> exists|m: int|
                        0 <= m < i + 1 && (#[trigger] ms[m]).file == g by {
                    if g == f@ {
                        assert(ms[i as int].file == g);
                    }
                    if exists|m: int| 0 <= m < i + 1 && (#[trigger] ms[m]).file == g {
                        let m = choose|m: int| 0 <= m < i + 1 && (#[trigger] ms[m]).file == g;
                        if m < i {
                            assert(before.contains((0u16, g)));
                        }
                    }
                }
            }
            i = i + 1;
        }
        let mut out: Vec<String> = Vec::new();
        let mut k: usize = 0;
        while k < sorted.len()
            invariant
                k <= sorted.len(),
                out@.len() == k,
                forall|j: int| 0 <= j < k ==> (#[trigger] out@[j])@ == sorted@[j].1@,
            decreases sorted.len() - k,
        {
            out.push(string_of(&sorted[k].1));
            k = k + 1;
        }
        proof {
            let kv = keys_view(sorted@);
            assert forall|a: int, b: int| 0 <= a < b < out@.len() implies seq_lt(
                #[trigger] out@[a]@,
                #[trigger] out@[b]@,
            ) by {
                assert(key_lt(kv[a], kv[b]));
            }
            assert forall|f: Seq<char>|
                #[trigger] move_files(ms).contains(f) <==> exists|i: int|
                    0 <= i < out@.len() && out@[i]@ == f by {
                if move_files(ms).contains(f) {
                    let m = choose|m: int| 0 <= m < ms.len() && (#[trigger] ms[m]).file == f;
                    assert(kv.contains((0u16, f)));
                    let j = choose|j: int| 0 <= j < kv.len() && kv[j] == (0u16, f);
                    assert(out@[j]@ == f);
                }
                if exists|i: int| 0 <= i < out@.len() && out@[i]@ == f {
                    let j = choose|j: int| 0 <= j < out@.len() && out@[j]@ == f;
                    assert(kv[j] == (0u16, f));
                    assert(kv.contains((0u16, f)));
                }
            }
        }
        out
    }
}

// ---------------------------------------------------------------------------
// Which declaration a running container comes from
// ---------------------------------------------------------------------------

/// `declaration` (`files<U+1F>service`, `files` comma-separated) names this
/// compose file and service: membership in the file list, not equality.
pub open spec fn declaration_matches_spec(
    declaration: Seq<char>,
    file: Seq<char>,
    service: Seq<char>,
) -> bool {
    match split_once(declaration, seq!['\u{1f}']) {
        Some((files, declared_service)) => declared_service == service && split_char(
            files,
            ',',
        ).contains(file),
        None => false,
    }
}

/// `true` when `declaration` names this compose file and service.
pub fn declaration_matches(declaration: &str, file: &str, service: &str) -> (r: bool)
    ensures
        r == declaration_matches_spec(declaration@, file@, service@),
{
    let v = chars_of(declaration);
    let sep: Vec<char> = vec!['\u{1f}'];
    assert(sep@ =~= seq!['\u{1f}']);
    assert(v@.subrange(0, v@.len() as int) =~= v@);
    let found = find_in(&v, 0, v.len(), &sep);
    let k = match found {
        Some(k) => k,
        None => return false,
    };
    proof {
        lemma_find_from_bounds(v@, sep@, 0);
    }
    let files_v = string_of_range(&v, 0, k);
    let declared = string_of_range(&v, k + 1, v.len());
    assert(v@.take(k as int) =~= files_v@);
    assert(v@.skip(k + 1) =~= declared@);
    let sv = chars_of(service);
    let dv = chars_of(declared.as_str());
    if !chars_eq(&dv, &sv) {
        return false;
    }
    let fv = chars_of(files_v.as_str());
    let target = chars_of(file);
    let pieces = split_ranges(&fv, ',');
    let mut i: usize = 0;
    assert(split_once(v@, seq!['\u{1f}']) == Some((fv@, dv@)));
    while i < pieces.len()
        invariant
            i <= pieces.len(),
            v@ == declaration@,
            target@ == file@,
            dv@ == service@,
            split_once(v@, seq!['\u{1f}']) == Some((fv@, dv@)),
            pieces@.len() == split_char(fv@, ',').len(),
            forall|q: int|
                0 <= q < pieces@.len() ==> (#[trigger] pieces@[q]).0 <= pieces@[q].1 <= fv.len()
                    && fv@.subrange(pieces@[q].0 as int, pieces@[q].1 as int) == split_char(
                    fv@,
                    ',',
                )[q],
            forall|q: int| 0 <= q < i ==> split_char(fv@, ',')[q] != target@,
        decreases pieces.len() - i,
    {
        let (a, b) = pieces[i];
        let piece = string_of_range(&fv, a, b);
        let pv = chars_of(piece.as_str());
        if chars_eq(&pv, &target) {
            assert(split_char(fv@, ',')[i as int] == target@);
            assert(split_char(fv@, ',').contains(target@));
            return true;
        }
        i = i + 1;
    }
    false
}

/// A container built from this declaration is up right now.
pub open spec fn is_live_spec(owners: Seq<PortOwner>, d: DeclView) -> bool {
    exists|i: int|
        0 <= i < owners.len() && #[trigger] owners[i].kind == OwnerKind::RunningContainer
            && owners[i].declaration is Some && declaration_matches_spec(
            owners[i].declaration->0@,
            d.file,
            d.service,
        )
}

/// `true` when a container built from this declaration is up right now: a
/// live declaration keeps its port.
pub fn is_live(owners: &[PortOwner], declaration: &DeclaredPort) -> (r: bool)
    ensures
        r == is_live_spec(owners@, declaration@),
{
    let mut i: usize = 0;
    while i < owners.len()
        invariant
            i <= owners.len(),
            forall|j: int|
                0 <= j < i ==> !(#[trigger] owners@[j].kind == OwnerKind::RunningContainer
                    && owners@[j].declaration is Some && declaration_matches_spec(
                    owners@[j].declaration->0@,
                    declaration.file@,
                    declaration.service@,
                )),
        decreases owners.len() - i,
    {
        if owners[i].kind == OwnerKind::RunningContainer {
            match &owners[i].declaration {
                Some(key) => {
                    if declaration_matches(key.as_str(), declaration.file.as_str(), declaration.service.as_str()) {
                        return true;
                    }
                },
                None => {},
            }
        }
        i = i + 1;
    }
    false
}

// ---------------------------------------------------------------------------
// Who holds a port on the host
// ---------------------------------------------------------------------------

/// The label to blame in a [`MoveReason::TakenByHost`].
pub open spec fn holder_label(l: ListeningPort) -> Seq<char> {
    match l.owner_label_spec() {
        Some(label) => label,
        None => "un processus de l'hôte"@,
    }
}

/// The first listener on `port`/`proto`, labelled.
pub open spec fn host_holder_spec(listeners: Seq<ListeningPort>, port: u16, proto: Seq<char>) -> Option<
    Seq<char>,
>
    decreases listeners.len(),
{
    if listeners.len() == 0 {
        None
    } else if listeners[0].port == port && listeners[0].protocol@ == proto {
        Some(holder_label(listeners[0]))
    } else {
        host_holder_spec(listeners.drop_first(), port, proto)
    }
}

/// The label to blame when the host holds `port`/`proto`.
pub fn host_holder(listeners: &[ListeningPort], port: u16, protocol: &Vec<char>) -> (r: Option<
    String,
>)
    ensures
        match r {
            Some(s) => host_holder_spec(listeners@, port, protocol@) == Some(s@),
            None => host_holder_spec(listeners@, port, protocol@) is None,
        },
{
    let mut i: usize = 0;
    assert(listeners@.skip(0) =~= listeners@);
    while i < listeners.len()
        invariant
            i <= listeners.len(),
            host_holder_spec(listeners@, port, protocol@) == host_holder_spec(
                listeners@.skip(i as int),
                port,
                protocol@,
            ),
        decreases listeners.len() - i,
    {
        let l = &listeners[i];
        assert(listeners@.skip(i as int)[0] == *l);
        assert(listeners@.skip(i as int).drop_first() =~= listeners@.skip(i + 1));
        if l.port == port {
            let pv = chars_of(l.protocol.as_str());
            if chars_eq(&pv, protocol) {
                let label = match l.owner_label() {
                    Some(label) => label,
                    None => String::from_str("un processus de l'hôte"),
                };
                return Some(label);
            }
        }
        i = i + 1;
    }
    None
}

// ---------------------------------------------------------------------------
// Occupied ports and the search for a free one
// ---------------------------------------------------------------------------

pub open spec fn bindings_taken(bs: Seq<crate::ports::PortBinding>) -> Seq<(u16, Seq<char>)> {
    bs.map_values(|b: crate::ports::PortBinding| (b.host_port, b.protocol@))
}

pub open spec fn owners_taken(owners: Seq<PortOwner>) -> Seq<(u16, Seq<char>)>
    decreases owners.len(),
{
    if owners.len() == 0 {
        Seq::empty()
    } else {
        owners_taken(owners.drop_last()) + bindings_taken(owners.last().bindings@)
    }
}

/// Every port already spoken for before the plan hands any out: held or
/// declared by a Docker owner, listened on by the host, declared by a
/// compose file.
pub open spec fn initial_taken(
    decls: Seq<DeclView>,
    owners: Seq<PortOwner>,
    listeners: Seq<ListeningPort>,
) -> Seq<(u16, Seq<char>)> {
    owners_taken(owners) + listeners.map_values(|l: ListeningPort| (l.port, l.protocol@))
        + decls.map_values(|d: DeclView| (d.host_port, d.protocol))
}

fn push_taken(taken: &mut Vec<(u16, Vec<char>)>, port: u16, protocol: &String)
    ensures
        keys_view(final(taken)@) == keys_view(old(taken)@).push((port, protocol@)),
{
    let v = chars_of(protocol.as_str());
    taken.push((port, v));
    assert(keys_view(taken@) =~= keys_view(old(taken)@).push((port, protocol@)));
}

fn build_taken(declarations: &[DeclaredPort], owners: &[PortOwner], listeners: &[ListeningPort]) -> (r: Vec<(u16, Vec<char>)>)
    ensures
        keys_view(r@) == initial_taken(decls_view(declarations@), owners@, listeners@),
{
    let mut taken: Vec<(u16, Vec<char>)> = Vec::new();
    let mut a: usize = 0;
    assert(keys_view(taken@) =~= owners_taken(owners@.take(0)));
    while a < owners.len()
        invariant
            a <= owners.len(),
            keys_view(taken@) == owners_taken(owners@.take(a as int)),
        decreases owners.len() - a,
    {
        let ghost before = keys_view(taken@);
        let bs = &owners[a].bindings;
        let mut x: usize = 0;
        while x < bs.len()
            invariant
                a < owners.len(),
                bs == owners@[a as int].bindings,
                x <= bs.len(),
                keys_view(taken@) == before + bindings_taken(bs@.take(x as int)),
            decreases bs.len() - x,
        {
            push_taken(&mut taken, bs[x].host_port, &bs[x].protocol);
            assert(bindings_taken(bs@.take(x + 1)) =~= bindings_taken(bs@.take(x as int)).push(
                (bs@[x as int].host_port, bs@[x as int].protocol@),
            ));
            x = x + 1;
        }
        assert(bs@.take(x as int) =~= bs@);
        assert(owners@.take(a + 1).drop_last() =~= owners@.take(a as int));
        a = a + 1;
    }
    assert(owners@.take(a as int) =~= owners@);
    let ghost after_owners = keys_view(taken@);
    let mut l: usize = 0;
    while l < listeners.len()
        invariant
            l <= listeners.len(),
            keys_view(taken@) == after_owners + listeners@.take(l as int).map_values(
                |q: ListeningPort| (q.port, q.protocol@),
            ),
        decreases listeners.len() - l,
    {
        push_taken(&mut taken, listeners[l].port, &listeners[l].protocol);
        assert(listeners@.take(l + 1).map_values(|q: ListeningPort| (q.port, q.protocol@))
            =~= listeners@.take(l as int).map_values(|q: ListeningPort| (q.port, q.protocol@)).push(
            (listeners@[l as int].port, listeners@[l as int].protocol@),
        ));
        l = l + 1;
    }
    assert(listeners@.take(l as int) =~= listeners@);
    let ghost after_listeners = keys_view(taken@);
    let mut d: usize = 0;
    while d < declarations.len()
        invariant
            d <= declarations.len(),
            keys_view(taken@) == after_listeners + decls_view(declarations@).take(
                d as int,
            ).map_values(|q: DeclView| (q.host_port, q.protocol)),
        decreases declarations.len() - d,
    {
        push_taken(&mut taken, declarations[d].host_port, &declarations[d].protocol);
        assert(decls_view(declarations@).take(d + 1).map_values(
            |q: DeclView| (q.host_port, q.protocol),
        ) =~= decls_view(declarations@).take(d as int).map_values(
            |q: DeclView| (q.host_port, q.protocol),
        ).push((declarations@[d as int].host_port, declarations@[d as int].protocol@)));
        d = d + 1;
    }
    assert(decls_view(declarations@).take(d as int) =~= decls_view(declarations@));
    taken
}

/// For every port, whether `taken` holds it for `protocol`: one pass over
/// `taken`, so that each candidate of the search is then looked up at once.
fn taken_ports(taken: &Vec<(u16, Vec<char>)>, protocol: &Vec<char>) -> (r: Vec<bool>)
    ensures
        r@.len() == 65536,
        forall|p: int|
            0 <= p < 65536 ==> (#[trigger] r@[p] <==> keys_view(taken@).contains((p as u16, protocol@))),
{
    let mut marks: Vec<bool> = Vec::new();
    let mut k: usize = 0;
    while k < 65536
        invariant
            k <= 65536,
            marks@.len() == k,
            forall|p: int| 0 <= p < k ==> !(#[trigger] marks@[p]),
        decreases 65536 - k,
    {
        marks.push(false);
        k = k + 1;
    }
    let ghost kv = keys_view(taken@);
    let mut i: usize = 0;
    while i < taken.len()
        invariant
            i <= taken.len(),
            kv == keys_view(taken@),
            marks@.len() == 65536,
            forall|p: int|
                0 <= p < 65536 ==> (#[trigger] marks@[p] <==> exists|j: int|
                    0 <= j < i && kv[j] == (p as u16, protocol@)),
        decreases taken.len() - i,
    {
        assert(kv[i as int] == (taken@[i as int].0, taken@[i as int].1@));
        let ghost before = marks@;
        if chars_eq(&taken[i].1, protocol) {
            let port = taken[i].0;
            marks.set(port as usize, true);
        }
        assert forall|p: int| 0 <= p < 65536 implies (#[trigger] marks@[p] <==> exists|j: int|
            0 <= j < i + 1 && kv[j] == (p as u16, protocol@)) by {
            if kv[i as int] == (p as u16, protocol@) {
                assert(marks@[p]);
            } else {
                assert(marks@[p] == before[p]);
                if exists|j: int| 0 <= j < i + 1 && kv[j] == (p as u16, protocol@) {
                    let j = choose|j: int| 0 <= j < i + 1 && kv[j] == (p as u16, protocol@);
                    assert(j < i);
                }
            }
        }
        i = i + 1;
    }
    assert forall|p: int| 0 <= p < 65536 implies (#[trigger] marks@[p] <==> kv.contains(
        (p as u16, protocol@),
    )) by {
        if kv.contains((p as u16, protocol@)) {
            let j = choose|j: int| 0 <= j < kv.len() && kv[j] == (p as u16, protocol@);
            assert(0 <= j < i && kv[j] == (p as u16, protocol@));
        }
    }
    marks
}

/// Where the search starts: just above `from`, never below the floor.
pub open spec fn search_start(from: u16) -> int {
    let next = if from == 65535 {
        65535
    } else {
        from + 1
    };
    if next < SEARCH_FLOOR {
        SEARCH_FLOOR as int
    } else {
        next
    }
}

/// How many candidates lie between the start and the ceiling.
pub open spec fn upper_count(start: int) -> int {
    if start <= SEARCH_CEILING {
        SEARCH_CEILING + 1 - start
    } else {
        0
    }
}

/// How many candidates lie between the floor and the start (excluded),
/// never above the ceiling.
pub open spec fn lower_count(start: int) -> int {
    if start <= SEARCH_CEILING {
        start - SEARCH_FLOOR
    } else {
        SEARCH_CEILING + 1 - SEARCH_FLOOR
    }
}

/// The `i`-th candidate: upward from the start to the ceiling, then from
/// the floor up to just below the start (and never above the ceiling).
pub open spec fn candidate(start: int, i: int) -> int {
    if i < upper_count(start) {
        start + i
    } else {
        SEARCH_FLOOR + (i - upper_count(start))
    }
}

pub open spec fn candidate_count(start: int) -> int {
    upper_count(start) + lower_count(start)
}

/// The first candidate from the `i`-th on that nothing holds.
pub open spec fn first_free(start: int, proto: Seq<char>, taken: Seq<(u16, Seq<char>)>, i: int) -> Option<
    u16,
>
    decreases candidate_count(start) - i,
{
    if i < 0 || i >= candidate_count(start) {
        None
    } else if !taken.contains((candidate(start, i) as u16, proto)) {
        Some(candidate(start, i) as u16)
    } else {
        first_free(start, proto, taken, i + 1)
    }
}

/// The first port `proto` is free on, searching upward from `from` and
/// wrapping back to the floor rather than giving up near the ceiling.
pub open spec fn next_free_spec(from: u16, proto: Seq<char>, taken: Seq<(u16, Seq<char>)>) -> Option<
    u16,
> {
    first_free(search_start(from), proto, taken, 0)
}

/// The first port `protocol` is free on, searching upward from `from` and
/// wrapping back to [`SEARCH_FLOOR`] rather than giving up near the ceiling;
/// the search never goes above [`SEARCH_CEILING`].
pub fn next_free_port(from: u16, protocol: &Vec<char>, taken: &Vec<(u16, Vec<char>)>) -> (r: Option<
    u16,
>)
    ensures
        r == next_free_spec(from, protocol@, keys_view(taken@)),
{
    let next: u32 = if from == 65535 {
        65535
    } else {
        from as u32 + 1
    };
    let start: u32 = if next < 1024 {
        1024
    } else {
        next
    };
    assert(start as int == search_start(from));
    let upper: u32 = if start <= 49151 {
        49152 - start
    } else {
        0
    };
    let lower: u32 = if start <= 49151 {
        start - 1024
    } else {
        49152 - 1024
    };
    let count: u32 = upper + lower;
    let marks = taken_ports(taken, protocol);
    let mut i: u32 = 0;
    while i < count
        invariant
            start as int == search_start(from),
            upper as int == upper_count(start as int),
            lower as int == lower_count(start as int),
            count as int == candidate_count(start as int),
            1024 <= start <= 65535,
            i <= count,
            marks@.len() == 65536,
            forall|p: int|
                0 <= p < 65536 ==> (#[trigger] marks@[p] <==> keys_view(taken@).contains(
                    (p as u16, protocol@),
                )),
            next_free_spec(from, protocol@, keys_view(taken@)) == first_free(
                start as int,
                protocol@,
                keys_view(taken@),
                i as int,
            ),
        decreases count - i,
    {
        let c: u32 = if i < upper {
            start + i
        } else {
            1024 + (i - upper)
        };
        assert(c as int == candidate(start as int, i as int));
        assert(c < 65536);
        let port = c as u16;
        assert(marks@[c as int] <==> keys_view(taken@).contains((port, protocol@)));
        if !marks[c as usize] {
            return Some(port);
        }
        i = i + 1;
    }
    None
}


// ---------------------------------------------------------------------------
// Grouping declarations by the port they ask for
// ---------------------------------------------------------------------------

pub open spec fn same_identity(a: DeclView, b: DeclView) -> bool {
    a.file == b.file && a.service == b.service
}

pub open spec fn decl_key(d: DeclView) -> (u16, Seq<char>) {
    (d.host_port, d.protocol)
}

/// The declarations asking for `key`, one per `ports:` line (a repeated
/// `(file, service)` is the same declaration seen twice), in input order.
pub open spec fn group_of(ds: Seq<DeclView>, key: (u16, Seq<char>)) -> Seq<DeclView>
    decreases ds.len(),
{
    if ds.len() == 0 {
        Seq::empty()
    } else {
        let g = group_of(ds.drop_last(), key);
        let d = ds.last();
        if decl_key(d) == key && !(exists|k: int|
            0 <= k < g.len() && same_identity(#[trigger] g[k], d)) {
            g.push(d)
        } else {
            g
        }
    }
}

/// The distinct keys the declarations ask for, sorted.
pub open spec fn decl_key_order(ds: Seq<DeclView>) -> Seq<(u16, Seq<char>)>
    decreases ds.len(),
{
    if ds.len() == 0 {
        Seq::empty()
    } else {
        insert_key_spec(decl_key_order(ds.drop_last()), decl_key(ds.last()))
    }
}

fn decl_keys(declarations: &[DeclaredPort]) -> (r: Vec<(u16, Vec<char>)>)
    ensures
        keys_view(r@) == decl_key_order(decls_view(declarations@)),
{
    let mut keys: Vec<(u16, Vec<char>)> = Vec::new();
    let mut i: usize = 0;
    assert(keys_view(keys@) =~= decl_key_order(decls_view(declarations@).take(0)));
    while i < declarations.len()
        invariant
            i <= declarations.len(),
            keys_view(keys@) == decl_key_order(decls_view(declarations@).take(i as int)),
            strictly_sorted(keys_view(keys@)),
        decreases declarations.len() - i,
    {
        let proto = chars_of(declarations[i].protocol.as_str());
        insert_key(&mut keys, declarations[i].host_port, proto);
        assert(decls_view(declarations@).take(i + 1).drop_last() =~= decls_view(declarations@).take(
            i as int,
        ));
        i = i + 1;
    }
    assert(decls_view(declarations@).take(i as int) =~= decls_view(declarations@));
    keys
}

fn same_identity_exec(a: &DeclaredPort, b: &DeclaredPort) -> (r: bool)
    ensures
        r == same_identity(a@, b@),
{
    let af = chars_of(a.file.as_str());
    let bf = chars_of(b.file.as_str());
    if !chars_eq(&af, &bf) {
        return false;
    }
    let asv = chars_of(a.service.as_str());
    let bsv = chars_of(b.service.as_str());
    chars_eq(&asv, &bsv)
}

fn group_for(declarations: &[DeclaredPort], port: u16, protocol: &Vec<char>) -> (r: Vec<DeclaredPort>)
    ensures
        decls_view(r@) == group_of(decls_view(declarations@), (port, protocol@)),
{
    let mut group: Vec<DeclaredPort> = Vec::new();
    let mut i: usize = 0;
    assert(decls_view(group@) =~= group_of(decls_view(declarations@).take(0), (port, protocol@)));
    while i < declarations.len()
        invariant
            i <= declarations.len(),
            decls_view(group@) == group_of(decls_view(declarations@).take(i as int), (port, protocol@)),
        decreases declarations.len() - i,
    {
        let d = &declarations[i];
        let ghost ds = decls_view(declarations@).take(i + 1);
        assert(ds.drop_last() =~= decls_view(declarations@).take(i as int));
        assert(ds.last() == d@);
        let pv = chars_of(d.protocol.as_str());
        if d.host_port == port && chars_eq(&pv, protocol) {
            let mut seen = false;
            let mut k: usize = 0;
            while k < group.len()
                invariant
                    k <= group.len(),
                    i < declarations.len(),
                    d == declarations@[i as int],
                    !seen ==> forall|j: int| 0 <= j < k ==> !same_identity(#[trigger] decls_view(group@)[j], d@),
                    seen ==> exists|j: int|
                        0 <= j < group@.len() && same_identity(#[trigger] decls_view(group@)[j], d@),
                decreases group.len() - k,
            {
                if same_identity_exec(&group[k], d) {
                    assert(same_identity(decls_view(group@)[k as int], d@));
                    seen = true;
                }
                k = k + 1;
            }
            if !seen {
                let ghost before = decls_view(group@);
                group.push(copy_decl(d));
                assert(decls_view(group@) =~= before.push(d@));
            }
        }
        i = i + 1;
    }
    assert(decls_view(declarations@).take(i as int) =~= decls_view(declarations@));
    group
}

// ---------------------------------------------------------------------------
// Who keeps the port
// ---------------------------------------------------------------------------

/// `(file, service)` order.
pub open spec fn identity_lt(a: DeclView, b: DeclView) -> bool {
    seq_lt(a.file, b.file) || (a.file == b.file && seq_lt(a.service, b.service))
}

/// Live declarations first, then by file and service.
pub open spec fn rank_lt(owners: Seq<PortOwner>, a: DeclView, b: DeclView) -> bool {
    let la = is_live_spec(owners, a);
    let lb = is_live_spec(owners, b);
    (la && !lb) || (la == lb && identity_lt(a, b))
}

/// Index of the first best-ranked declaration among the first `n`.
pub open spec fn min_index(owners: Seq<PortOwner>, g: Seq<DeclView>, n: int) -> int
    decreases n,
{
    if n <= 1 {
        0
    } else {
        let m = min_index(owners, g, n - 1);
        if rank_lt(owners, g[n - 1], g[m]) {
            n - 1
        } else {
            m
        }
    }
}

pub proof fn lemma_min_index_bounds(owners: Seq<PortOwner>, g: Seq<DeclView>, n: int)
    requires
        1 <= n,
    ensures
        0 <= min_index(owners, g, n) < n,
    decreases n,
{
    if n > 1 {
        lemma_min_index_bounds(owners, g, n - 1);
    }
}

/// The group in rank order: the live stack first, ties broken by file and
/// service, so the same machine state always yields the same plan.
pub open spec fn rank_sort(owners: Seq<PortOwner>, g: Seq<DeclView>) -> Seq<DeclView>
    decreases g.len(),
{
    if g.len() == 0 {
        Seq::empty()
    } else {
        let m = min_index(owners, g, g.len() as int);
        proof {
            lemma_min_index_bounds(owners, g, g.len() as int);
        }
        seq![g[m]] + rank_sort(owners, g.remove(m))
    }
}

fn rank_lt_exec(owners: &[PortOwner], a: &DeclaredPort, b: &DeclaredPort) -> (r: bool)
    ensures
        r == rank_lt(owners@, a@, b@),
{
    let la = is_live(owners, a);
    let lb = is_live(owners, b);
    if la && !lb {
        return true;
    }
    if la != lb {
        return false;
    }
    let af = chars_of(a.file.as_str());
    let bf = chars_of(b.file.as_str());
    if chars_lt(&af, &bf) {
        return true;
    }
    if !chars_eq(&af, &bf) {
        return false;
    }
    let asv = chars_of(a.service.as_str());
    let bsv = chars_of(b.service.as_str());
    chars_lt(&asv, &bsv)
}

fn sort_group(owners: &[PortOwner], group: Vec<DeclaredPort>) -> (r: Vec<DeclaredPort>)
    ensures
        decls_view(r@) == rank_sort(owners@, decls_view(group@)),
{
    let ghost target = rank_sort(owners@, decls_view(group@));
    let mut rest = group;
    let mut out: Vec<DeclaredPort> = Vec::new();
    while rest.len() > 0
        invariant
            decls_view(out@) + rank_sort(owners@, decls_view(rest@)) == target,
        decreases rest.len(),
    {
        let ghost rv = decls_view(rest@);
        let mut m: usize = 0;
        let mut j: usize = 1;
        while j < rest.len()
            invariant
                1 <= j <= rest.len(),
                rv == decls_view(rest@),
                m as int == min_index(owners@, rv, j as int),
                m < j,
            decreases rest.len() - j,
        {
            if rank_lt_exec(owners, &rest[j], &rest[m]) {
                m = j;
            }
            j = j + 1;
        }
        let d = rest.remove(m);
        proof {
            assert(decls_view(rest@) =~= rv.remove(m as int));
            assert(rank_sort(owners@, rv) == seq![rv[m as int]] + rank_sort(owners@, rv.remove(m as int)));
        }
        let ghost before = decls_view(out@);
        out.push(d);
        assert(decls_view(out@) =~= before.push(rv[m as int]));
        assert(decls_view(out@) + rank_sort(owners@, decls_view(rest@)) =~= before + rank_sort(owners@, rv));
    }
    assert(decls_view(out@) =~= decls_view(out@) + rank_sort(owners@, decls_view(rest@)));
    out
}

// ---------------------------------------------------------------------------
// Handing out replacements
// ---------------------------------------------------------------------------

/// `service (file)`, how a declaration is named to the user.
pub open spec fn display_decl(d: DeclView) -> Seq<char> {
    d.service + seq![' ', '('] + d.file + seq![')']
}

fn display_decl_exec(d: &DeclaredPort) -> (r: String)
    ensures
        r@ == display_decl(d@),
{
    let mut s = copy_string(&d.service);
    push_char(&mut s, ' ');
    push_char(&mut s, '(');
    s.append(d.file.as_str());
    push_char(&mut s, ')');
    assert(s@ =~= display_decl(d@));
    s
}

/// Who moves and why, for one group in rank order: every declaration after
/// the keeper, because the keeper declares the port too; and the keeper
/// itself first when nothing of it is up and the host holds the port.
pub open spec fn group_reasons(
    owners: Seq<PortOwner>,
    listeners: Seq<ListeningPort>,
    key: (u16, Seq<char>),
    sorted: Seq<DeclView>,
) -> Seq<(DeclView, MoveReasonView)> {
    if sorted.len() == 0 {
        Seq::empty()
    } else {
        let keeper = sorted[0];
        let movers = sorted.drop_first().map_values(
            |m: DeclView| (m, MoveReasonView::TakenByStack(display_decl(keeper))),
        );
        if !is_live_spec(owners, keeper) && host_holder_spec(listeners, key.0, key.1) is Some {
            seq![
                (
                    keeper,
                    MoveReasonView::TakenByHost(host_holder_spec(listeners, key.0, key.1)->0),
                ),
            ] + movers
        } else {
            movers
        }
    }
}

pub open spec fn reasons_view(rs: Seq<(DeclaredPort, MoveReason)>) -> Seq<(DeclView, MoveReasonView)> {
    rs.map_values(|r: (DeclaredPort, MoveReason)| (r.0@, r.1@))
}

fn reasons_for(
    owners: &[PortOwner],
    listeners: &[ListeningPort],
    port: u16,
    protocol: &Vec<char>,
    sorted: &Vec<DeclaredPort>,
) -> (r: Vec<(DeclaredPort, MoveReason)>)
    ensures
        reasons_view(r@) == group_reasons(owners@, listeners@, (port, protocol@), decls_view(sorted@)),
{
    let mut out: Vec<(DeclaredPort, MoveReason)> = Vec::new();
    if sorted.len() == 0 {
        assert(reasons_view(out@) =~= Seq::<(DeclView, MoveReasonView)>::empty());
        return out;
    }
    let keeper = &sorted[0];
    let ghost sv = decls_view(sorted@);
    if !is_live(owners, keeper) {
        match host_holder(listeners, port, protocol) {
            Some(process) => {
                out.push((copy_decl(keeper), MoveReason::TakenByHost(process)));
            },
            None => {},
        }
    }
    let ghost head = reasons_view(out@);
    let keeper_text = display_decl_exec(keeper);
    let mut i: usize = 1;
    while i < sorted.len()
        invariant
            1 <= i <= sorted.len(),
            sv == decls_view(sorted@),
            keeper_text@ == display_decl(sv[0]),
            reasons_view(out@) == head + sv.drop_first().take(i - 1).map_values(
                |m: DeclView| (m, MoveReasonView::TakenByStack(display_decl(sv[0]))),
            ),
        decreases sorted.len() - i,
    {
        let ghost before = reasons_view(out@);
        out.push((copy_decl(&sorted[i]), MoveReason::TakenByStack(copy_string(&keeper_text))));
        assert(reasons_view(out@) =~= before.push(
            (sv[i as int], MoveReasonView::TakenByStack(display_decl(sv[0]))),
        ));
        assert(sv.drop_first().take(i as int) =~= sv.drop_first().take(i - 1).push(sv[i as int]));
        i = i + 1;
    }
    assert(sv.drop_first().take(i - 1) =~= sv.drop_first());
    proof {
        let movers = sv.drop_first().map_values(
            |m: DeclView| (m, MoveReasonView::TakenByStack(display_decl(sv[0]))),
        );
        if !is_live_spec(owners@, sv[0]) && host_holder_spec(listeners@, port, protocol@) is Some {
            assert(reasons_view(out@) =~= seq![
                (sv[0], MoveReasonView::TakenByHost(host_holder_spec(listeners@, port, protocol@)->0)),
            ] + movers);
        } else {
            assert(head =~= Seq::<(DeclView, MoveReasonView)>::empty());
            assert(reasons_view(out@) =~= movers);
        }
    }
    out
}

/// The plan under construction: every port spoken for so far, the moves
/// decided, the collisions left alone.
pub struct PlanState {
    pub taken: Seq<(u16, Seq<char>)>,
    pub moves: Seq<MoveView>,
    pub blocked: Seq<BlockedView>,
}

/// `aucun port <proto> libre entre 1024 et 49151`.
pub open spec fn no_port_reason(proto: Seq<char>) -> Seq<char> {
    "aucun port "@ + proto + " libre entre 1024 et 49151"@
}

/// One mover gets the next free port, or is reported when none is left.
pub open spec fn assign_one(
    st: PlanState,
    key: (u16, Seq<char>),
    mover: DeclView,
    reason: MoveReasonView,
) -> PlanState {
    match next_free_spec(key.0, key.1, st.taken) {
        Some(to) => PlanState {
            taken: st.taken.push((to, key.1)),
            moves: st.moves.push(
                MoveView {
                    file: mover.file,
                    service: mover.service,
                    protocol: key.1,
                    from: key.0,
                    to,
                    reason,
                },
            ),
            blocked: st.blocked,
        },
        None => PlanState {
            taken: st.taken,
            moves: st.moves,
            blocked: st.blocked.push(
                BlockedView {
                    host_port: key.0,
                    protocol: key.1,
                    owners: seq![display_decl(mover)],
                    reason: no_port_reason(key.1),
                },
            ),
        },
    }
}

pub open spec fn assign_all(
    st: PlanState,
    key: (u16, Seq<char>),
    reasons: Seq<(DeclView, MoveReasonView)>,
) -> PlanState
    decreases reasons.len(),
{
    if reasons.len() == 0 {
        st
    } else {
        let prev = assign_all(st, key, reasons.drop_last());
        assign_one(prev, key, reasons.last().0, reasons.last().1)
    }
}

/// The plan after the groups of `keys`, in order.
pub open spec fn plan_over(
    decls: Seq<DeclView>,
    owners: Seq<PortOwner>,
    listeners: Seq<ListeningPort>,
    keys: Seq<(u16, Seq<char>)>,
    st0: PlanState,
) -> PlanState
    decreases keys.len(),
{
    if keys.len() == 0 {
        st0
    } else {
        let st = plan_over(decls, owners, listeners, keys.drop_last(), st0);
        let key = keys.last();
        assign_all(
            st,
            key,
            group_reasons(owners, listeners, key, rank_sort(owners, group_of(decls, key))),
        )
    }
}

// ---------------------------------------------------------------------------
// Collisions no compose file can resolve
// ---------------------------------------------------------------------------

/// Some owner with this label was built from one of the declarations.
pub open spec fn label_declared(decls: Seq<DeclView>, owners: Seq<PortOwner>, label: Seq<char>) -> bool {
    exists|i: int, j: int|
        0 <= i < owners.len() && 0 <= j < decls.len() && #[trigger] owners[i].label@ == label
            && owners[i].declaration is Some && declaration_matches_spec(
            owners[i].declaration->0@,
            #[trigger] decls[j].file,
            decls[j].service,
        )
}

/// Every participant of the conflict is declared somewhere, so the grouping
/// already covers it.
pub open spec fn fully_declared(decls: Seq<DeclView>, owners: Seq<PortOwner>, c: ConflictView) -> bool {
    forall|m: int| 0 <= m < c.owners.len() ==> label_declared(decls, owners, #[trigger] c.owners[m])
}

pub open spec fn manual_reason() -> Seq<char> {
    "au moins un conteneur n'a pas de déclaration compose : à corriger à la main"@
}

/// The conflicts at least one side of which has no compose declaration.
pub open spec fn unfixable_over(decls: Seq<DeclView>, owners: Seq<PortOwner>, cs: Seq<ConflictView>) -> Seq<
    BlockedView,
>
    decreases cs.len(),
{
    if cs.len() == 0 {
        Seq::empty()
    } else {
        let prev = unfixable_over(decls, owners, cs.drop_last());
        let c = cs.last();
        if fully_declared(decls, owners, c) {
            prev
        } else {
            prev.push(
                BlockedView {
                    host_port: c.host_port,
                    protocol: c.protocol,
                    owners: c.owners,
                    reason: manual_reason(),
                },
            )
        }
    }
}

pub open spec fn blocked_key(b: BlockedView) -> (u16, Seq<char>) {
    (b.host_port, b.protocol)
}

/// The stable merge of two lists ordered by `(port, protocol)`: on equal
/// keys the first list's entries come first.
pub open spec fn merge_blocked(a: Seq<BlockedView>, b: Seq<BlockedView>) -> Seq<BlockedView>
    decreases a.len() + b.len(),
{
    if a.len() == 0 {
        b
    } else if b.len() == 0 {
        a
    } else if key_lt(blocked_key(b[0]), blocked_key(a[0])) {
        seq![b[0]] + merge_blocked(a, b.drop_first())
    } else {
        seq![a[0]] + merge_blocked(a.drop_first(), b)
    }
}

/// The whole proposal for these declarations, owners and host listeners.
pub open spec fn plan_spec(
    decls: Seq<DeclView>,
    owners: Seq<PortOwner>,
    listeners: Seq<ListeningPort>,
) -> (Seq<MoveView>, Seq<BlockedView>) {
    let st0 = PlanState {
        taken: initial_taken(decls, owners, listeners),
        moves: Seq::empty(),
        blocked: Seq::empty(),
    };
    let st = plan_over(decls, owners, listeners, decl_key_order(decls), st0);
    (st.moves, merge_blocked(st.blocked, unfixable_over(decls, owners, conflicts_spec(owners))))
}


fn no_port_reason_exec(protocol: &String) -> (r: String)
    ensures
        r@ == no_port_reason(protocol@),
{
    let mut s = String::from_str("aucun port ");
    s.append(protocol.as_str());
    s.append(" libre entre 1024 et 49151");
    s
}

fn assign_exec(
    taken: &mut Vec<(u16, Vec<char>)>,
    moves: &mut Vec<PortMove>,
    blocked: &mut Vec<Blocked>,
    port: u16,
    protocol: &Vec<char>,
    mover: &DeclaredPort,
    reason: &MoveReason,
)
    ensures
        ({
            let st = assign_one(
                PlanState {
                    taken: keys_view(old(taken)@),
                    moves: moves_view(old(moves)@),
                    blocked: blocked_view(old(blocked)@),
                },
                (port, protocol@),
                mover@,
                reason@,
            );
            &&& keys_view(final(taken)@) == st.taken
            &&& moves_view(final(moves)@) == st.moves
            &&& blocked_view(final(blocked)@) == st.blocked
        }),
{
    let proto_string = string_of(protocol);
    match next_free_port(port, protocol, taken) {
        Some(to) => {
            let ghost before_t = keys_view(taken@);
            taken.push((to, crate::text::chars_of(proto_string.as_str())));
            assert(keys_view(taken@) =~= before_t.push((to, protocol@)));
            let m = PortMove {
                file: copy_string(&mover.file),
                service: copy_string(&mover.service),
                protocol: proto_string,
                from: port,
                to,
                reason: copy_reason(reason),
            };
            let ghost before_m = moves_view(moves@);
            moves.push(m);
            assert(moves_view(moves@) =~= before_m.push(m@));
        },
        None => {
            let mut owners_list: Vec<String> = Vec::new();
            owners_list.push(display_decl_exec(mover));
            let reason_text = no_port_reason_exec(&proto_string);
            let b = Blocked {
                host_port: port,
                protocol: proto_string,
                owners: owners_list,
                reason: reason_text,
            };
            assert(b@.owners =~= seq![display_decl(mover@)]);
            let ghost before_b = blocked_view(blocked@);
            blocked.push(b);
            assert(blocked_view(blocked@) =~= before_b.push(b@));
        },
    }
}

fn label_declared_exec(declarations: &[DeclaredPort], owners: &[PortOwner], label: &String) -> (r: bool)
    ensures
        r == label_declared(decls_view(declarations@), owners@, label@),
{
    let lv = chars_of(label.as_str());
    let ghost ds = decls_view(declarations@);
    let mut i: usize = 0;
    while i < owners.len()
        invariant
            i <= owners.len(),
            lv@ == label@,
            ds == decls_view(declarations@),
            forall|ii: int, j: int|
                0 <= ii < i && 0 <= j < ds.len() ==> !(#[trigger] owners@[ii].label@ == label@
                    && owners@[ii].declaration is Some && declaration_matches_spec(
                    owners@[ii].declaration->0@,
                    #[trigger] ds[j].file,
                    ds[j].service,
                )),
        decreases owners.len() - i,
    {
        let ov = chars_of(owners[i].label.as_str());
        if chars_eq(&ov, &lv) {
            match &owners[i].declaration {
                Some(key) => {
                    let mut j: usize = 0;
                    while j < declarations.len()
                        invariant
                            i < owners.len(),
                            j <= declarations.len(),
                            ds == decls_view(declarations@),
                            owners@[i as int].declaration == Some(*key),
                            owners@[i as int].label@ == label@,
                            forall|jj: int|
                                0 <= jj < j ==> !declaration_matches_spec(
                                    key@,
                                    #[trigger] ds[jj].file,
                                    ds[jj].service,
                                ),
                        decreases declarations.len() - j,
                    {
                        if declaration_matches(key.as_str(), declarations[j].file.as_str(), declarations[j].service.as_str()) {
                            assert(owners@[i as int].label@ == label@);
                            assert(declaration_matches_spec(
                                owners@[i as int].declaration->0@,
                                ds[j as int].file,
                                ds[j as int].service,
                            ));
                            return true;
                        }
                        j = j + 1;
                    }
                },
                None => {},
            }
        }
        i = i + 1;
    }
    false
}

fn fully_declared_exec(declarations: &[DeclaredPort], owners: &[PortOwner], c: &PortConflict) -> (r: bool)
    ensures
        r == fully_declared(decls_view(declarations@), owners@, c@),
{
    let mut m: usize = 0;
    while m < c.owners.len()
        invariant
            m <= c.owners.len(),
            forall|k: int|
                0 <= k < m ==> label_declared(
                    decls_view(declarations@),
                    owners@,
                    #[trigger] c@.owners[k],
                ),
        decreases c.owners.len() - m,
    {
        assert(c@.owners[m as int] == c.owners@[m as int]@);
        if !label_declared_exec(declarations, owners, &c.owners[m]) {
            return false;
        }
        m = m + 1;
    }
    true
}

fn unfixable_conflicts(declarations: &[DeclaredPort], owners: &[PortOwner]) -> (r: Vec<Blocked>)
    ensures
        blocked_view(r@) == unfixable_over(decls_view(declarations@), owners@, conflicts_spec(owners@)),
{
    let conflicts = find_conflicts(owners);
    let ghost cv = conflicts@.map_values(|c: PortConflict| c@);
    let mut out: Vec<Blocked> = Vec::new();
    let mut i: usize = 0;
    assert(blocked_view(out@) =~= unfixable_over(decls_view(declarations@), owners@, cv.take(0)));
    while i < conflicts.len()
        invariant
            i <= conflicts.len(),
            cv == conflicts@.map_values(|c: PortConflict| c@),
            blocked_view(out@) == unfixable_over(decls_view(declarations@), owners@, cv.take(i as int)),
        decreases conflicts.len() - i,
    {
        let c = &conflicts[i];
        assert(cv.take(i + 1).drop_last() =~= cv.take(i as int));
        assert(cv.take(i + 1).last() == c@);
        if !fully_declared_exec(declarations, owners, c) {
            let b = Blocked {
                host_port: c.host_port,
                protocol: copy_string(&c.protocol),
                owners: copy_strings(&c.owners),
                reason: String::from_str("au moins un conteneur n'a pas de déclaration compose : à corriger à la main"),
            };
            let ghost before = blocked_view(out@);
            out.push(b);
            assert(blocked_view(out@) =~= before.push(b@));
        }
        i = i + 1;
    }
    assert(cv.take(i as int) =~= cv);
    out
}

fn blocked_before(b: &Blocked, a: &Blocked) -> (r: bool)
    ensures
        r == key_lt(blocked_key(b@), blocked_key(a@)),
{
    if b.host_port < a.host_port {
        return true;
    }
    if b.host_port != a.host_port {
        return false;
    }
    let bp = chars_of(b.protocol.as_str());
    let ap = chars_of(a.protocol.as_str());
    chars_lt(&bp, &ap)
}

fn merge_exec(a: &Vec<Blocked>, b: &Vec<Blocked>) -> (r: Vec<Blocked>)
    ensures
        blocked_view(r@) == merge_blocked(blocked_view(a@), blocked_view(b@)),
{
    let ghost av = blocked_view(a@);
    let ghost bv = blocked_view(b@);
    let mut out: Vec<Blocked> = Vec::new();
    let mut i: usize = 0;
    let mut j: usize = 0;
    assert(av.skip(0) =~= av);
    assert(bv.skip(0) =~= bv);
    while i < a.len() || j < b.len()
        invariant
            i <= a.len(),
            j <= b.len(),
            av == blocked_view(a@),
            bv == blocked_view(b@),
            blocked_view(out@) + merge_blocked(av.skip(i as int), bv.skip(j as int)) == merge_blocked(
                av,
                bv,
            ),
        decreases a.len() + b.len() - i - j,
    {
        let ghost before = blocked_view(out@);
        let ghost sa = av.skip(i as int);
        let ghost sb = bv.skip(j as int);
        if i == a.len() {
            assert(sa.len() == 0);
            out.push(copy_blocked(&b[j]));
            assert(sb.drop_first() =~= bv.skip(j + 1));
            assert(merge_blocked(sa, sb) =~= seq![sb[0]] + merge_blocked(sa, sb.drop_first())) by {
                assert(merge_blocked(sa, sb.drop_first()) == sb.drop_first());
            }
            j = j + 1;
        } else if j == b.len() {
            assert(sb.len() == 0);
            out.push(copy_blocked(&a[i]));
            assert(sa.drop_first() =~= av.skip(i + 1));
            assert(merge_blocked(sa, sb) =~= seq![sa[0]] + merge_blocked(sa.drop_first(), sb)) by {
                if sa.drop_first().len() == 0 {
                }
            }
            i = i + 1;
        } else if blocked_before(&b[j], &a[i]) {
            out.push(copy_blocked(&b[j]));
            assert(sb.drop_first() =~= bv.skip(j + 1));
            j = j + 1;
        } else {
            out.push(copy_blocked(&a[i]));
            assert(sa.drop_first() =~= av.skip(i + 1));
            i = i + 1;
        }
        assert(blocked_view(out@) + merge_blocked(av.skip(i as int), bv.skip(j as int)) =~= before
            + merge_blocked(sa, sb));
    }
    assert(av.skip(i as int).len() == 0 && bv.skip(j as int).len() == 0);
    assert(blocked_view(out@) =~= blocked_view(out@) + merge_blocked(av.skip(i as int), bv.skip(j as int)));
    out
}

/// Build the reassignment proposal.
///
/// `declarations` must cover every discovered compose file, running or not:
/// a running stack's declaration is what wins the port it holds.
pub fn plan_reassignment(
    declarations: &[DeclaredPort],
    owners: &[PortOwner],
    listeners: &[ListeningPort],
) -> (r: ReassignmentPlan)
    ensures
        (moves_view(r.moves@), blocked_view(r.blocked@)) == plan_spec(
            decls_view(declarations@),
            owners@,
            listeners@,
        ),
{
    let ghost ds = decls_view(declarations@);
    let mut taken = build_taken(declarations, owners, listeners);
    let ghost st0 = PlanState {
        taken: initial_taken(ds, owners@, listeners@),
        moves: Seq::empty(),
        blocked: Seq::empty(),
    };
    let keys = decl_keys(declarations);
    let ghost kv = keys_view(keys@);
    let mut moves: Vec<PortMove> = Vec::new();
    let mut blocked: Vec<Blocked> = Vec::new();
    let mut k: usize = 0;
    assert(moves_view(moves@) =~= Seq::<MoveView>::empty());
    assert(blocked_view(blocked@) =~= Seq::<BlockedView>::empty());
    assert(kv.take(0) =~= Seq::<(u16, Seq<char>)>::empty());
    while k < keys.len()
        invariant
            k <= keys.len(),
            ds == decls_view(declarations@),
            kv == keys_view(keys@),
            ({
                let st = plan_over(ds, owners@, listeners@, kv.take(k as int), st0);
                &&& keys_view(taken@) == st.taken
                &&& moves_view(moves@) == st.moves
                &&& blocked_view(blocked@) == st.blocked
            }),
        decreases keys.len() - k,
    {
        let port = keys[k].0;
        let protocol = &keys[k].1;
        let ghost key = (port, protocol@);
        assert(kv[k as int] == key);
        assert(kv.take(k + 1).drop_last() =~= kv.take(k as int));
        let ghost st_k = plan_over(ds, owners@, listeners@, kv.take(k as int), st0);
        let group = group_for(declarations, port, protocol);
        let sorted = sort_group(owners, group);
        let reasons = reasons_for(owners, listeners, port, protocol, &sorted);
        let ghost rv = reasons_view(reasons@);
        let mut j: usize = 0;
        assert(rv.take(0) =~= Seq::<(DeclView, MoveReasonView)>::empty());
        while j < reasons.len()
            invariant
                j <= reasons.len(),
                rv == reasons_view(reasons@),
                ({
                    let st = assign_all(st_k, key, rv.take(j as int));
                    &&& keys_view(taken@) == st.taken
                    &&& moves_view(moves@) == st.moves
                    &&& blocked_view(blocked@) == st.blocked
                }),
                key == (port, protocol@),
            decreases reasons.len() - j,
        {
            assert(rv.take(j + 1).drop_last() =~= rv.take(j as int));
            assert(rv.take(j + 1).last() == (reasons@[j as int].0@, reasons@[j as int].1@));
            assign_exec(&mut taken, &mut moves, &mut blocked, port, protocol, &reasons[j].0, &reasons[j].1);
            j = j + 1;
        }
        assert(rv.take(j as int) =~= rv);
        k = k + 1;
    }
    assert(kv.take(k as int) =~= kv);
    let unfixable = unfixable_conflicts(declarations, owners);
    let all_blocked = merge_exec(&blocked, &unfixable);
    ReassignmentPlan { moves, blocked: all_blocked }
}



// ---------------------------------------------------------------------------
// Laws of the plan
// ---------------------------------------------------------------------------

/// The `(port, protocol)` each move hands out.
pub open spec fn move_keys(ms: Seq<MoveView>) -> Seq<(u16, Seq<char>)> {
    ms.map_values(|m: MoveView| (m.to, m.protocol))
}

/// A declaration with this file and service is live.
pub open spec fn live_identity(owners: Seq<PortOwner>, file: Seq<char>, service: Seq<char>) -> bool {
    exists|i: int|
        0 <= i < owners.len() && #[trigger] owners[i].kind == OwnerKind::RunningContainer
            && owners[i].declaration is Some && declaration_matches_spec(
            owners[i].declaration->0@,
            file,
            service,
        )
}

/// What every state the plan goes through satisfies, from the ports taken
/// at the start `t0`: the taken ports are `t0` followed by each move's new
/// port; each move's new port was free when it was handed out; it lies
/// between the floor and the ceiling; and a move blamed on the host concerns a declaration that is
/// not live.
pub open spec fn plan_inv(st: PlanState, t0: Seq<(u16, Seq<char>)>, owners: Seq<PortOwner>) -> bool {
    &&& st.taken == t0 + move_keys(st.moves)
    &&& forall|k: int|
        0 <= k < st.moves.len() ==> !(t0 + move_keys(st.moves).take(k)).contains(
            ((#[trigger] st.moves[k]).to, st.moves[k].protocol),
        )
    &&& forall|k: int|
        0 <= k < st.moves.len() ==> SEARCH_FLOOR <= (#[trigger] st.moves[k]).to && st.moves[k].to
            <= SEARCH_CEILING
    &&& forall|k: int|
        0 <= k < st.moves.len() ==> ((#[trigger] st.moves[k]).reason is TakenByHost
            ==> !live_identity(owners, st.moves[k].file, st.moves[k].service))
}

proof fn lemma_first_free(start: int, proto: Seq<char>, taken: Seq<(u16, Seq<char>)>, i: int)
    requires
        SEARCH_FLOOR <= start <= 65535,
        0 <= i,
    ensures
        first_free(start, proto, taken, i) matches Some(c) ==> !taken.contains((c, proto))
            && SEARCH_FLOOR <= c && c <= SEARCH_CEILING,
    decreases candidate_count(start) - i,
{
    if i < candidate_count(start) {
        let c = candidate(start, i);
        assert(SEARCH_FLOOR <= c && c <= SEARCH_CEILING);
        assert(c <= 65535);
        if taken.contains((c as u16, proto)) {
            lemma_first_free(start, proto, taken, i + 1);
        }
    }
}

proof fn lemma_next_free(from: u16, proto: Seq<char>, taken: Seq<(u16, Seq<char>)>)
    ensures
        next_free_spec(from, proto, taken) matches Some(to) ==> !taken.contains((to, proto))
            && SEARCH_FLOOR <= to && to <= SEARCH_CEILING,
{
    lemma_first_free(search_start(from), proto, taken, 0);
}

proof fn lemma_assign_one_inv(
    st: PlanState,
    t0: Seq<(u16, Seq<char>)>,
    owners: Seq<PortOwner>,
    key: (u16, Seq<char>),
    mover: DeclView,
    reason: MoveReasonView,
)
    requires
        plan_inv(st, t0, owners),
        reason is TakenByHost ==> !live_identity(owners, mover.file, mover.service),
    ensures
        plan_inv(assign_one(st, key, mover, reason), t0, owners),
{
    lemma_next_free(key.0, key.1, st.taken);
    let st2 = assign_one(st, key, mover, reason);
    if let Some(to) = next_free_spec(key.0, key.1, st.taken) {
        assert(move_keys(st2.moves) =~= move_keys(st.moves).push((to, key.1)));
        assert(st2.taken =~= t0 + move_keys(st2.moves));
        assert forall|k: int| 0 <= k < st2.moves.len() implies !(t0 + move_keys(st2.moves).take(k)).contains(
            ((#[trigger] st2.moves[k]).to, st2.moves[k].protocol),
        ) by {
            if k < st.moves.len() {
                assert(move_keys(st2.moves).take(k) =~= move_keys(st.moves).take(k));
                assert(st2.moves[k] == st.moves[k]);
            } else {
                assert(move_keys(st2.moves).take(k) =~= move_keys(st.moves));
            }
        }
        assert forall|k: int| 0 <= k < st2.moves.len() implies SEARCH_FLOOR <= (#[trigger] st2.moves[k]).to
            && st2.moves[k].to <= SEARCH_CEILING by {
            if k < st.moves.len() {
                assert(st2.moves[k] == st.moves[k]);
            }
        }
        assert forall|k: int| 0 <= k < st2.moves.len() implies ((#[trigger] st2.moves[k]).reason is TakenByHost
            ==> !live_identity(owners, st2.moves[k].file, st2.moves[k].service)) by {
            if k < st.moves.len() {
                assert(st2.moves[k] == st.moves[k]);
            }
        }
    }
}

proof fn lemma_assign_all_inv(
    st: PlanState,
    t0: Seq<(u16, Seq<char>)>,
    owners: Seq<PortOwner>,
    key: (u16, Seq<char>),
    reasons: Seq<(DeclView, MoveReasonView)>,
)
    requires
        plan_inv(st, t0, owners),
        forall|k: int|
            0 <= k < reasons.len() ==> ((#[trigger] reasons[k]).1 is TakenByHost ==> !live_identity(
                owners,
                reasons[k].0.file,
                reasons[k].0.service,
            )),
    ensures
        plan_inv(assign_all(st, key, reasons), t0, owners),
    decreases reasons.len(),
{
    if reasons.len() > 0 {
        let prev = reasons.drop_last();
        assert forall|k: int| 0 <= k < prev.len() implies ((#[trigger] prev[k]).1 is TakenByHost
            ==> !live_identity(owners, prev[k].0.file, prev[k].0.service)) by {
            assert(prev[k] == reasons[k]);
        }
        lemma_assign_all_inv(st, t0, owners, key, prev);
        let last = reasons[reasons.len() - 1];
        assert(last == reasons.last());
        lemma_assign_one_inv(assign_all(st, key, prev), t0, owners, key, last.0, last.1);
    }
}

proof fn lemma_group_reasons_host_not_live(
    owners: Seq<PortOwner>,
    listeners: Seq<ListeningPort>,
    key: (u16, Seq<char>),
    sorted: Seq<DeclView>,
)
    ensures
        forall|k: int|
            0 <= k < group_reasons(owners, listeners, key, sorted).len() ==> ((#[trigger] group_reasons(
                owners,
                listeners,
                key,
                sorted,
            )[k]).1 is TakenByHost ==> !live_identity(
                owners,
                group_reasons(owners, listeners, key, sorted)[k].0.file,
                group_reasons(owners, listeners, key, sorted)[k].0.service,
            )),
{
    let rs = group_reasons(owners, listeners, key, sorted);
    assert forall|k: int| 0 <= k < rs.len() implies ((#[trigger] rs[k]).1 is TakenByHost
        ==> !live_identity(owners, rs[k].0.file, rs[k].0.service)) by {
        if sorted.len() > 0 {
            let keeper = sorted[0];
            if !is_live_spec(owners, keeper) && host_holder_spec(listeners, key.0, key.1) is Some {
                if k == 0 {
                    assert(rs[k].0 == keeper);
                    if live_identity(owners, keeper.file, keeper.service) {
                        let i = choose|i: int|
                            0 <= i < owners.len() && #[trigger] owners[i].kind
                                == OwnerKind::RunningContainer && owners[i].declaration is Some
                                && declaration_matches_spec(
                                owners[i].declaration->0@,
                                keeper.file,
                                keeper.service,
                            );
                        assert(owners[i].kind == OwnerKind::RunningContainer);
                    }
                }
            }
        }
    }
}

proof fn lemma_plan_over_inv(
    decls: Seq<DeclView>,
    owners: Seq<PortOwner>,
    listeners: Seq<ListeningPort>,
    keys: Seq<(u16, Seq<char>)>,
    st0: PlanState,
    t0: Seq<(u16, Seq<char>)>,
)
    requires
        plan_inv(st0, t0, owners),
    ensures
        plan_inv(plan_over(decls, owners, listeners, keys, st0), t0, owners),
    decreases keys.len(),
{
    if keys.len() > 0 {
        lemma_plan_over_inv(decls, owners, listeners, keys.drop_last(), st0, t0);
        let key = keys.last();
        let sorted = rank_sort(owners, group_of(decls, key));
        lemma_group_reasons_host_not_live(owners, listeners, key, sorted);
        lemma_assign_all_inv(
            plan_over(decls, owners, listeners, keys.drop_last(), st0),
            t0,
            owners,
            key,
            group_reasons(owners, listeners, key, sorted),
        );
    }
}

/// The laws of a reassignment plan: no replacement port lands on anything
/// taken when planning began (a Docker owner's port, a host listener, a
/// compose declaration) for its protocol; two moves never land on the same
/// port of the same protocol; a replacement is never below
/// [`SEARCH_FLOOR`] and never above [`SEARCH_CEILING`] (the search wraps
/// back to the floor); and a move blamed on a host process never concerns
/// a declaration that is up.
pub proof fn law_plan_replacements_are_free(
    decls: Seq<DeclView>,
    owners: Seq<PortOwner>,
    listeners: Seq<ListeningPort>,
)
    ensures
        ({
            let moves = plan_spec(decls, owners, listeners).0;
            &&& forall|k: int|
                0 <= k < moves.len() ==> !initial_taken(decls, owners, listeners).contains(
                    ((#[trigger] moves[k]).to, moves[k].protocol),
                )
            &&& forall|j: int, k: int|
                0 <= j < k < moves.len() && (#[trigger] moves[j]).protocol == (#[trigger] moves[k]).protocol
                    ==> moves[j].to != moves[k].to
            &&& forall|k: int|
                0 <= k < moves.len() ==> SEARCH_FLOOR <= (#[trigger] moves[k]).to && moves[k].to
                    <= SEARCH_CEILING
            &&& forall|k: int|
                0 <= k < moves.len() ==> ((#[trigger] moves[k]).reason is TakenByHost ==> !live_identity(
                    owners,
                    moves[k].file,
                    moves[k].service,
                ))
        }),
{
    let t0 = initial_taken(decls, owners, listeners);
    let st0 = PlanState { taken: t0, moves: Seq::empty(), blocked: Seq::empty() };
    assert(move_keys(st0.moves) =~= Seq::<(u16, Seq<char>)>::empty());
    assert(st0.taken =~= t0 + move_keys(st0.moves));
    lemma_plan_over_inv(decls, owners, listeners, decl_key_order(decls), st0, t0);
    let st = plan_over(decls, owners, listeners, decl_key_order(decls), st0);
    let moves = st.moves;
    assert forall|k: int| 0 <= k < moves.len() implies !t0.contains(
        ((#[trigger] moves[k]).to, moves[k].protocol),
    ) by {
        if t0.contains((moves[k].to, moves[k].protocol)) {
            let i = choose|i: int| 0 <= i < t0.len() && t0[i] == (moves[k].to, moves[k].protocol);
            assert((t0 + move_keys(moves).take(k))[i] == t0[i]);
        }
    }
    assert forall|j: int, k: int|
        0 <= j < k < moves.len() && (#[trigger] moves[j]).protocol == (#[trigger] moves[k]).protocol
            implies moves[j].to != moves[k].to by {
        let pre = t0 + move_keys(moves).take(k);
        assert(pre[t0.len() + j] == (moves[j].to, moves[j].protocol));
        assert(!pre.contains((moves[k].to, moves[k].protocol)));
    }
}

proof fn lemma_rank_lt_order(owners: Seq<PortOwner>, a: DeclView, b: DeclView, c: DeclView)
    ensures
        !rank_lt(owners, a, a),
        rank_lt(owners, a, b) && rank_lt(owners, b, c) ==> rank_lt(owners, a, c),
{
    lemma_seq_lt_irreflexive(a.file);
    lemma_seq_lt_irreflexive(a.service);
    lemma_seq_lt_transitive(a.file, b.file, c.file);
    lemma_seq_lt_transitive(a.service, b.service, c.service);
}

proof fn lemma_min_index_least(owners: Seq<PortOwner>, g: Seq<DeclView>, n: int)
    requires
        1 <= n <= g.len(),
    ensures
        forall|i: int| 0 <= i < n ==> !rank_lt(owners, #[trigger] g[i], g[min_index(owners, g, n)]),
    decreases n,
{
    lemma_min_index_bounds(owners, g, n);
    if n == 1 {
        lemma_rank_lt_order(owners, g[0], g[0], g[0]);
    } else {
        lemma_min_index_least(owners, g, n - 1);
        let m = min_index(owners, g, n - 1);
        lemma_min_index_bounds(owners, g, n - 1);
        assert forall|i: int| 0 <= i < n implies !rank_lt(
            owners,
            #[trigger] g[i],
            g[min_index(owners, g, n)],
        ) by {
            lemma_rank_lt_order(owners, g[i], g[n - 1], g[m]);
            lemma_rank_lt_order(owners, g[n - 1], g[n - 1], g[n - 1]);
        }
    }
}

proof fn lemma_rank_sort_permutes(owners: Seq<PortOwner>, g: Seq<DeclView>)
    ensures
        rank_sort(owners, g).to_multiset() == g.to_multiset(),
    decreases g.len(),
{
    broadcast use vstd::multiset::group_multiset_axioms;

    if g.len() == 0 {
        assert(rank_sort(owners, g) =~= g);
    } else {
        let m = min_index(owners, g, g.len() as int);
        lemma_min_index_bounds(owners, g, g.len() as int);
        let rest = g.remove(m);
        lemma_rank_sort_permutes(owners, rest);
        vstd::seq_lib::lemma_multiset_commutative(seq![g[m]], rank_sort(owners, rest));
        vstd::seq_lib::to_multiset_remove(g, m);
        assert(seq![g[m]].to_multiset() =~= vstd::multiset::Multiset::empty().insert(g[m])) by {
            let e = Seq::<DeclView>::empty();
            vstd::seq_lib::to_multiset_build(e, g[m]);
            assert(e.push(g[m]) =~= seq![g[m]]);
            vstd::seq_lib::to_multiset_len(e);
            vstd::multiset::lemma_multiset_empty_len(e.to_multiset());
        }
        assert(g.to_multiset().count(g[m]) > 0) by {
            vstd::seq_lib::to_multiset_contains(g, g[m]);
        }
        assert(rank_sort(owners, g).to_multiset() =~= g.to_multiset());
    }
}

/// Of the declarations contesting one port, the one kept is the best
/// ranked (a live stack before the others, then by file and service): no
/// declaration of the group ranks before it; and the group in rank order
/// holds exactly the group's declarations, so every other one is a mover.
pub proof fn law_keeper_is_best_ranked(owners: Seq<PortOwner>, g: Seq<DeclView>)
    requires
        g.len() > 0,
    ensures
        g.contains(rank_sort(owners, g)[0]),
        forall|i: int| 0 <= i < g.len() ==> !rank_lt(owners, #[trigger] g[i], rank_sort(owners, g)[0]),
        rank_sort(owners, g).to_multiset() == g.to_multiset(),
{
    let m = min_index(owners, g, g.len() as int);
    lemma_min_index_bounds(owners, g, g.len() as int);
    lemma_min_index_least(owners, g, g.len() as int);
    assert(rank_sort(owners, g)[0] == g[m]);
    lemma_rank_sort_permutes(owners, g);
}

/// Blocked entries ordered by `(port, protocol)`, equal keys adjacent.
pub open spec fn blocked_in_order(bs: Seq<BlockedView>) -> bool {
    forall|i: int, j: int|
        0 <= i < j < bs.len() ==> !key_lt(blocked_key(#[trigger] bs[j]), blocked_key(#[trigger] bs[i]))
}

proof fn lemma_decl_key_order_sorted(ds: Seq<DeclView>)
    ensures
        strictly_sorted(decl_key_order(ds)),
    decreases ds.len(),
{
    if ds.len() > 0 {
        lemma_decl_key_order_sorted(ds.drop_last());
        lemma_insert_key_sorted(decl_key_order(ds.drop_last()), decl_key(ds.last()));
    }
}

proof fn lemma_assign_all_blocked(st: PlanState, key: (u16, Seq<char>), rs: Seq<(DeclView, MoveReasonView)>)
    ensures
        assign_all(st, key, rs).blocked.len() >= st.blocked.len(),
        forall|i: int|
            0 <= i < st.blocked.len() ==> #[trigger] assign_all(st, key, rs).blocked[i] == st.blocked[i],
        forall|i: int|
            st.blocked.len() <= i < assign_all(st, key, rs).blocked.len() ==> blocked_key(
                #[trigger] assign_all(st, key, rs).blocked[i],
            ) == key,
    decreases rs.len(),
{
    if rs.len() > 0 {
        lemma_assign_all_blocked(st, key, rs.drop_last());
    }
}

proof fn lemma_plan_over_blocked(
    decls: Seq<DeclView>,
    owners: Seq<PortOwner>,
    listeners: Seq<ListeningPort>,
    keys: Seq<(u16, Seq<char>)>,
    st0: PlanState,
)
    requires
        strictly_sorted(keys),
        st0.blocked.len() == 0,
    ensures
        blocked_in_order(plan_over(decls, owners, listeners, keys, st0).blocked),
        forall|i: int|
            0 <= i < plan_over(decls, owners, listeners, keys, st0).blocked.len() ==> keys.len() > 0
                && !key_lt(
                keys.last(),
                blocked_key(#[trigger] plan_over(decls, owners, listeners, keys, st0).blocked[i]),
            ),
    decreases keys.len(),
{
    if keys.len() > 0 {
        let init = keys.drop_last();
        assert(strictly_sorted(init));
        lemma_plan_over_blocked(decls, owners, listeners, init, st0);
        let st = plan_over(decls, owners, listeners, init, st0);
        let key = keys.last();
        let rs = group_reasons(owners, listeners, key, rank_sort(owners, group_of(decls, key)));
        lemma_assign_all_blocked(st, key, rs);
        let out = assign_all(st, key, rs).blocked;
        lemma_key_lt_order(key, key, key);
        if init.len() > 0 {
            assert(key_lt(keys[keys.len() - 2], keys[keys.len() - 1]));
        }
        assert forall|i: int| 0 <= i < out.len() implies keys.len() > 0 && !key_lt(
            keys.last(),
            blocked_key(#[trigger] out[i]),
        ) by {
            if i < st.blocked.len() {
                assert(out[i] == st.blocked[i]);
                lemma_key_lt_order(init.last(), key, blocked_key(out[i]));
                lemma_key_lt_order(blocked_key(out[i]), init.last(), key);
            }
        }
        assert forall|i: int, j: int| 0 <= i < j < out.len() implies !key_lt(
            blocked_key(#[trigger] out[j]),
            blocked_key(#[trigger] out[i]),
        ) by {
            if j < st.blocked.len() {
                assert(out[i] == st.blocked[i] && out[j] == st.blocked[j]);
            } else if i < st.blocked.len() {
                assert(out[i] == st.blocked[i]);
                lemma_key_lt_order(key, init.last(), blocked_key(out[i]));
                lemma_key_lt_order(blocked_key(out[i]), init.last(), key);
            }
        }
    }
}

proof fn lemma_unfixable_in_order(decls: Seq<DeclView>, owners: Seq<PortOwner>, cs: Seq<ConflictView>)
    requires
        forall|i: int, j: int|
            0 <= i < j < cs.len() ==> key_lt(conflict_key(#[trigger] cs[i]), conflict_key(#[trigger] cs[j])),
    ensures
        blocked_in_order(unfixable_over(decls, owners, cs)),
        forall|i: int|
            0 <= i < unfixable_over(decls, owners, cs).len() ==> cs.len() > 0 && !key_lt(
                conflict_key(cs.last()),
                blocked_key(#[trigger] unfixable_over(decls, owners, cs)[i]),
            ),
    decreases cs.len(),
{
    if cs.len() > 0 {
        let init = cs.drop_last();
        lemma_unfixable_in_order(decls, owners, init);
        let prev = unfixable_over(decls, owners, init);
        let out = unfixable_over(decls, owners, cs);
        let key = conflict_key(cs.last());
        lemma_key_lt_order(key, key, key);
        if init.len() > 0 {
            assert(key_lt(conflict_key(cs[cs.len() - 2]), conflict_key(cs[cs.len() - 1])));
        }
        assert forall|i: int| 0 <= i < out.len() implies cs.len() > 0 && !key_lt(
            key,
            blocked_key(#[trigger] out[i]),
        ) by {
            if i < prev.len() {
                assert(out[i] == prev[i]);
                lemma_key_lt_order(conflict_key(init.last()), key, blocked_key(out[i]));
                lemma_key_lt_order(blocked_key(out[i]), conflict_key(init.last()), key);
            }
        }
        assert forall|i: int, j: int| 0 <= i < j < out.len() implies !key_lt(
            blocked_key(#[trigger] out[j]),
            blocked_key(#[trigger] out[i]),
        ) by {
            if j < prev.len() {
                assert(out[i] == prev[i] && out[j] == prev[j]);
            } else if i < prev.len() {
                assert(out[i] == prev[i]);
                lemma_key_lt_order(key, conflict_key(init.last()), blocked_key(out[i]));
                lemma_key_lt_order(blocked_key(out[i]), conflict_key(init.last()), key);
            }
        }
    }
}

proof fn lemma_merge_in_order(a: Seq<BlockedView>, b: Seq<BlockedView>)
    requires
        blocked_in_order(a),
        blocked_in_order(b),
    ensures
        blocked_in_order(merge_blocked(a, b)),
        forall|x: BlockedView| #[trigger] merge_blocked(a, b).contains(x) ==> a.contains(x) || b.contains(x),
    decreases a.len() + b.len(),
{
    if a.len() == 0 || b.len() == 0 {
    } else {
        let m = merge_blocked(a, b);
        let b_first = key_lt(blocked_key(b[0]), blocked_key(a[0]));
        let (h, a2, b2) = if b_first {
            (b[0], a, b.drop_first())
        } else {
            (a[0], a.drop_first(), b)
        };
        assert(blocked_in_order(a2) && blocked_in_order(b2)) by {
            assert forall|i: int, j: int| 0 <= i < j < a2.len() implies !key_lt(
                blocked_key(#[trigger] a2[j]),
                blocked_key(#[trigger] a2[i]),
            ) by {
                if !b_first {
                    assert(a2[i] == a[i + 1] && a2[j] == a[j + 1]);
                }
            }
            assert forall|i: int, j: int| 0 <= i < j < b2.len() implies !key_lt(
                blocked_key(#[trigger] b2[j]),
                blocked_key(#[trigger] b2[i]),
            ) by {
                if b_first {
                    assert(b2[i] == b[i + 1] && b2[j] == b[j + 1]);
                }
            }
        }
        lemma_merge_in_order(a2, b2);
        let rest = merge_blocked(a2, b2);
        assert(m == seq![h] + rest);
        assert forall|x: BlockedView| #[trigger] m.contains(x) implies a.contains(x) || b.contains(x) by {
            let i = choose|i: int| 0 <= i < m.len() && m[i] == x;
            if i == 0 {
                if b_first {
                    assert(b[0] == x);
                } else {
                    assert(a[0] == x);
                }
            } else {
                assert(rest[i - 1] == x);
                assert(rest.contains(x));
                if a2.contains(x) {
                    let q = choose|q: int| 0 <= q < a2.len() && a2[q] == x;
                    if b_first {
                        assert(a[q] == x);
                    } else {
                        assert(a[q + 1] == x);
                    }
                } else {
                    let q = choose|q: int| 0 <= q < b2.len() && b2[q] == x;
                    if b_first {
                        assert(b[q + 1] == x);
                    } else {
                        assert(b[q] == x);
                    }
                }
            }
        }
        assert forall|j: int| 0 <= j < rest.len() implies !key_lt(
            blocked_key(#[trigger] rest[j]),
            blocked_key(h),
        ) by {
            let x = rest[j];
            assert(rest.contains(x));
            if a2.contains(x) {
                let q = choose|q: int| 0 <= q < a2.len() && a2[q] == x;
                if b_first {
                    assert(a[q] == x);
                    if q > 0 {
                        assert(!key_lt(blocked_key(a[q]), blocked_key(a[0])));
                    }
                    lemma_key_lt_order(blocked_key(x), blocked_key(b[0]), blocked_key(a[0]));
                } else {
                    assert(a[q + 1] == x);
                    assert(!key_lt(blocked_key(a[q + 1]), blocked_key(a[0])));
                }
            } else {
                let q = choose|q: int| 0 <= q < b2.len() && b2[q] == x;
                if b_first {
                    assert(b[q + 1] == x);
                    assert(!key_lt(blocked_key(b[q + 1]), blocked_key(b[0])));
                } else {
                    assert(b[q] == x);
                    if q > 0 {
                        assert(!key_lt(blocked_key(b[q]), blocked_key(b[0])));
                    }
                    lemma_key_lt_order(blocked_key(b[0]), blocked_key(x), blocked_key(a[0]));
                    lemma_key_lt_order(blocked_key(x), blocked_key(b[0]), blocked_key(a[0]));
                }
            }
        }
        assert forall|i: int, j: int| 0 <= i < j < m.len() implies !key_lt(
            blocked_key(#[trigger] m[j]),
            blocked_key(#[trigger] m[i]),
        ) by {
            if i == 0 {
                assert(m[j] == rest[j - 1]);
            } else {
                assert(m[i] == rest[i - 1] && m[j] == rest[j - 1]);
            }
        }
    }
}

/// The blocked entries of a plan come ordered by port, then protocol.
pub proof fn law_blocked_in_port_order(
    decls: Seq<DeclView>,
    owners: Seq<PortOwner>,
    listeners: Seq<ListeningPort>,
)
    ensures
        blocked_in_order(plan_spec(decls, owners, listeners).1),
{
    let st0 = PlanState {
        taken: initial_taken(decls, owners, listeners),
        moves: Seq::empty(),
        blocked: Seq::empty(),
    };
    lemma_decl_key_order_sorted(decls);
    lemma_plan_over_blocked(decls, owners, listeners, decl_key_order(decls), st0);
    lemma_owner_key_order_sorted(owners);
    lemma_conflicts_over_sorted(owners, owner_key_order(owners));
    lemma_unfixable_in_order(decls, owners, conflicts_spec(owners));
    lemma_merge_in_order(
        plan_over(decls, owners, listeners, decl_key_order(decls), st0).blocked,
        unfixable_over(decls, owners, conflicts_spec(owners)),
    );
}

/// The keeper of a contested port is moved only when it is not live and a
/// host process holds the port.
pub open spec fn keeper_moved(owners: Seq<PortOwner>, listeners: Seq<ListeningPort>, key: (u16, Seq<char>), keeper: DeclView) -> bool {
    !is_live_spec(owners, keeper) && host_holder_spec(listeners, key.0, key.1) is Some
}

/// The keeper rule of one contested port: in rank order, the first
/// declaration is kept (the best ranked, see [`law_keeper_is_best_ranked`]);
/// it gets an entry, taken by the host, exactly when it is not live and a
/// host process holds the port; every other declaration gets exactly one
/// entry, taken by the keeper's stack.
pub proof fn law_group_keeper_rule(
    owners: Seq<PortOwner>,
    listeners: Seq<ListeningPort>,
    key: (u16, Seq<char>),
    g: Seq<DeclView>,
)
    requires
        g.len() > 0,
    ensures
        ({
            let sorted = rank_sort(owners, g);
            let rs = group_reasons(owners, listeners, key, sorted);
            let keeper = sorted[0];
            let off: int = if keeper_moved(owners, listeners, key, keeper) {
                1
            } else {
                0
            };
            &&& sorted.len() == g.len()
            &&& rs.len() == g.len() - 1 + off
            &&& keeper_moved(owners, listeners, key, keeper) ==> rs[0] == (
                keeper,
                MoveReasonView::TakenByHost(host_holder_spec(listeners, key.0, key.1)->0),
            )
            &&& forall|k: int|
                1 <= k < g.len() ==> #[trigger] rs[k - 1 + off] == (
                    sorted[k],
                    MoveReasonView::TakenByStack(display_decl(keeper)),
                )
        }),
{
    law_keeper_is_best_ranked(owners, g);
    let sorted = rank_sort(owners, g);
    vstd::seq_lib::to_multiset_len(sorted);
    vstd::seq_lib::to_multiset_len(g);
    let keeper = sorted[0];
    let movers = sorted.drop_first().map_values(
        |m: DeclView| (m, MoveReasonView::TakenByStack(display_decl(keeper))),
    );
    let rs = group_reasons(owners, listeners, key, sorted);
    if keeper_moved(owners, listeners, key, keeper) {
        assert forall|k: int| 1 <= k < g.len() implies #[trigger] rs[k - 1 + 1] == (
            sorted[k],
            MoveReasonView::TakenByStack(display_decl(keeper)),
        ) by {
            assert(rs[k] == movers[k - 1]);
        }
    } else {
        assert forall|k: int| 1 <= k < g.len() implies #[trigger] rs[k - 1 + 0] == (
            sorted[k],
            MoveReasonView::TakenByStack(display_decl(keeper)),
        ) by {
            assert(rs[k - 1] == movers[k - 1]);
        }
    }
}

/// Each entry of a group's reasons yields exactly one entry of the plan: a
/// move of that declaration away from the contested port, or, when no port
/// is free, one blocked entry at that port naming it.
pub proof fn law_each_reason_yields_one_entry(
    st: PlanState,
    key: (u16, Seq<char>),
    mover: DeclView,
    reason: MoveReasonView,
)
    ensures
        ({
            let st2 = assign_one(st, key, mover, reason);
            ||| (st2.blocked == st.blocked && st2.moves.len() == st.moves.len() + 1 && st2.moves.drop_last()
                == st.moves && st2.moves.last().file == mover.file && st2.moves.last().service
                == mover.service && st2.moves.last().protocol == key.1 && st2.moves.last().from == key.0
                && st2.moves.last().reason == reason)
            ||| (st2.moves == st.moves && st2.blocked == st.blocked.push(
                BlockedView {
                    host_port: key.0,
                    protocol: key.1,
                    owners: seq![display_decl(mover)],
                    reason: no_port_reason(key.1),
                },
            ))
        }),
{
    let st2 = assign_one(st, key, mover, reason);
    if next_free_spec(key.0, key.1, st.taken) is Some {
        assert(st2.moves.drop_last() =~= st.moves);
    }
}

proof fn lemma_unfixable_contains(decls: Seq<DeclView>, owners: Seq<PortOwner>, cs: Seq<ConflictView>, i: int)
    requires
        0 <= i < cs.len(),
        !fully_declared(decls, owners, cs[i]),
    ensures
        unfixable_over(decls, owners, cs).contains(
            BlockedView {
                host_port: cs[i].host_port,
                protocol: cs[i].protocol,
                owners: cs[i].owners,
                reason: manual_reason(),
            },
        ),
    decreases cs.len(),
{
    let u = unfixable_over(decls, owners, cs);
    let prev = unfixable_over(decls, owners, cs.drop_last());
    let b = BlockedView {
        host_port: cs[i].host_port,
        protocol: cs[i].protocol,
        owners: cs[i].owners,
        reason: manual_reason(),
    };
    if i == cs.len() - 1 {
        assert(u[u.len() - 1] == b);
    } else {
        assert(cs.drop_last()[i] == cs[i]);
        lemma_unfixable_contains(decls, owners, cs.drop_last(), i);
        let k = choose|k: int| 0 <= k < prev.len() && prev[k] == b;
        assert(u[k] == b);
    }
}

proof fn lemma_merge_keeps(a: Seq<BlockedView>, b: Seq<BlockedView>)
    ensures
        forall|x: BlockedView|
            a.contains(x) || b.contains(x) ==> #[trigger] merge_blocked(a, b).contains(x),
    decreases a.len() + b.len(),
{
    if a.len() == 0 || b.len() == 0 {
    } else {
        let m = merge_blocked(a, b);
        if key_lt(blocked_key(b[0]), blocked_key(a[0])) {
            lemma_merge_keeps(a, b.drop_first());
            let rest = merge_blocked(a, b.drop_first());
            assert(m == seq![b[0]] + rest);
            assert forall|x: BlockedView| a.contains(x) || b.contains(x) implies #[trigger] m.contains(x) by {
                if x == b[0] {
                    assert(m[0] == x);
                } else {
                    if b.contains(x) {
                        let q = choose|q: int| 0 <= q < b.len() && b[q] == x;
                        assert(b.drop_first()[q - 1] == x);
                    }
                    assert(rest.contains(x));
                    let q = choose|q: int| 0 <= q < rest.len() && rest[q] == x;
                    assert(m[q + 1] == x);
                }
            }
        } else {
            lemma_merge_keeps(a.drop_first(), b);
            let rest = merge_blocked(a.drop_first(), b);
            assert(m == seq![a[0]] + rest);
            assert forall|x: BlockedView| a.contains(x) || b.contains(x) implies #[trigger] m.contains(x) by {
                if x == a[0] {
                    assert(m[0] == x);
                } else {
                    if a.contains(x) {
                        let q = choose|q: int| 0 <= q < a.len() && a[q] == x;
                        assert(a.drop_first()[q - 1] == x);
                    }
                    assert(rest.contains(x));
                    let q = choose|q: int| 0 <= q < rest.len() && rest[q] == x;
                    assert(m[q + 1] == x);
                }
            }
        }
    }
}

/// A collision with a container that no compose declaration describes
/// cannot be fixed by rewriting files: whenever a conflict the owners
/// report names an owner built from none of the declarations, the plan
/// blocks that conflict (its port, protocol and owners) for a manual fix.
pub proof fn law_undeclared_collisions_are_blocked(
    decls: Seq<DeclView>,
    owners: Seq<PortOwner>,
    listeners: Seq<ListeningPort>,
    i: int,
    m: int,
)
    requires
        0 <= i < conflicts_spec(owners).len(),
        0 <= m < conflicts_spec(owners)[i].owners.len(),
        !label_declared(decls, owners, conflicts_spec(owners)[i].owners[m]),
    ensures
        exists|k: int|
            0 <= k < plan_spec(decls, owners, listeners).1.len() && {
                let b = #[trigger] plan_spec(decls, owners, listeners).1[k];
                let c = conflicts_spec(owners)[i];
                &&& b.host_port == c.host_port
                &&& b.protocol == c.protocol
                &&& b.owners == c.owners
                &&& b.reason == manual_reason()
            },
{
    let cs = conflicts_spec(owners);
    let c = cs[i];
    assert(!fully_declared(decls, owners, c)) by {
        assert(!label_declared(decls, owners, c.owners[m]));
    }
    lemma_unfixable_contains(decls, owners, cs, i);
    let st0 = PlanState {
        taken: initial_taken(decls, owners, listeners),
        moves: Seq::empty(),
        blocked: Seq::empty(),
    };
    let planned = plan_over(decls, owners, listeners, decl_key_order(decls), st0).blocked;
    let u = unfixable_over(decls, owners, cs);
    lemma_merge_keeps(planned, u);
    let b = BlockedView { host_port: c.host_port, protocol: c.protocol, owners: c.owners, reason: manual_reason() };
    assert(merge_blocked(planned, u).contains(b));
    let blocked = plan_spec(decls, owners, listeners).1;
    assert(blocked == merge_blocked(planned, u));
    let k = choose|k: int| 0 <= k < blocked.len() && blocked[k] == b;
    assert(blocked[k] == b);
}

} // verus!
