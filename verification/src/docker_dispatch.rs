//! What the Docker view's actions do to its state: the selection (toggled,
//! cleared, replaced by the dormant objects, pruned after a batch
//! deletion), the batch report, the active list, the slow reads deferred
//! behind a status, and the port reassignment proposal.

use vstd::prelude::*;

use crate::docker_confirm::DockerAction;
use crate::port_plan::ReassignmentPlan;
use crate::text::{decimal, push_decimal, str_eq};

verus! {

/// An object of the Docker view that can be selected: its kind (container,
/// image, volume) and its id.
#[derive(Clone, Debug, PartialEq, Eq)]
pub struct SelectionKey {
    pub kind: String,
    pub id: String,
}

pub open spec fn key_view(k: SelectionKey) -> (Seq<char>, Seq<char>) {
    (k.kind@, k.id@)
}

pub open spec fn keys_view(s: Seq<SelectionKey>) -> Seq<(Seq<char>, Seq<char>)> {
    s.map_values(|k: SelectionKey| key_view(k))
}

/// A read the view defers to the next frame, once its status shows.
#[derive(Clone, Copy, Debug, PartialEq, Eq, Structural)]
pub enum DeferredRead {
    ComputeVolumeSizes,
    ScanHostPorts,
}

/// An action of the Docker view.
#[derive(Clone, Debug, PartialEq, Eq)]
pub enum DockerViewAction<L> {
    Refresh,
    Retry,
    ToggleSelection(SelectionKey),
    SelectDormant,
    ClearSelection,
    SelectList(L),
    ComputeVolumeSizes,
    ScanHostPorts,
    PlanPortReassignment,
    ClearPortPlan,
    /// A destructive action, which asks for confirmation first.
    Destructive(DockerAction),
}

/// What the application then does.
#[derive(Clone, Debug, PartialEq, Eq)]
pub enum DockerViewEffect {
    Nothing,
    /// Fetch the Docker state again.
    Refetch,
    /// Drop from the selection what the snapshot no longer allows.
    PruneSelection,
    /// Replace the selection by the dormant objects of the snapshot.
    SelectDormant,
    /// Plan the port reassignment (see [`adopt_port_plan`]).
    PlanPorts,
    /// Ask to confirm this action.
    Confirm(DockerAction),
}

/// The Docker view's state as its actions change it; `L` is the list
/// shown, `R` an entry of the batch report, `E` a report of a written
/// compose file.
pub struct DockerViewSession<L, R, E> {
    pub selection: Vec<SelectionKey>,
    pub batch_report: Vec<R>,
    pub active_list: L,
    pub deferred: Option<DeferredRead>,
    /// The status bar's message and whether it is an error.
    pub status: Option<(String, bool)>,
    pub port_plan: Option<ReassignmentPlan>,
    pub port_edits: Vec<E>,
}

/// The index of the first key of `s` equal to `k`.
pub open spec fn find_key(s: Seq<(Seq<char>, Seq<char>)>, k: (Seq<char>, Seq<char>)) -> Option<int>
    decreases s.len(),
{
    if s.len() == 0 {
        None
    } else {
        match find_key(s.drop_last(), k) {
            Some(i) => Some(i),
            None => if s.last() == k {
                Some(s.len() - 1)
            } else {
                None
            },
        }
    }
}

/// The selection after ticking `k`: removed when present, added otherwise.
pub open spec fn toggled(s: Seq<(Seq<char>, Seq<char>)>, k: (Seq<char>, Seq<char>)) -> Seq<
    (Seq<char>, Seq<char>),
> {
    match find_key(s, k) {
        Some(i) => s.remove(i),
        None => s.push(k),
    }
}

fn same_key(a: &SelectionKey, b: &SelectionKey) -> (r: bool)
    ensures
        r == (key_view(*a) == key_view(*b)),
{
    str_eq(a.kind.as_str(), b.kind.as_str()) && str_eq(a.id.as_str(), b.id.as_str())
}

proof fn lemma_find_key_bounds(s: Seq<(Seq<char>, Seq<char>)>, k: (Seq<char>, Seq<char>))
    ensures
        find_key(s, k) matches Some(i) ==> 0 <= i < s.len() && s[i] == k,
    decreases s.len(),
{
    if s.len() > 0 {
        lemma_find_key_bounds(s.drop_last(), k);
    }
}

fn find_key_exec(s: &Vec<SelectionKey>, k: &SelectionKey) -> (r: Option<usize>)
    ensures
        r matches Some(x) ==> find_key(keys_view(s@), key_view(*k)) == Some(x as int),
        r is None ==> find_key(keys_view(s@), key_view(*k)) is None,
{
    let mut i: usize = 0;
    while i < s.len()
        invariant
            i <= s.len(),
            find_key(keys_view(s@).take(i as int), key_view(*k)) is None,
        decreases s.len() - i,
    {
        assert(keys_view(s@).take(i + 1).drop_last() =~= keys_view(s@).take(i as int));
        if same_key(&s[i], k) {
            proof {
                lemma_find_key_prefix(keys_view(s@), key_view(*k), i + 1);
            }
            return Some(i);
        }
        proof {
            lemma_find_key_prefix(keys_view(s@), key_view(*k), i + 1);
        }
        i = i + 1;
    }
    assert(keys_view(s@).take(s.len() as int) =~= keys_view(s@));
    None
}

/// A key found in a prefix is found at the same place in the whole.
proof fn lemma_find_key_prefix(s: Seq<(Seq<char>, Seq<char>)>, k: (Seq<char>, Seq<char>), n: int)
    requires
        0 <= n <= s.len(),
    ensures
        find_key(s.take(n), k) matches Some(i) ==> find_key(s, k) == Some(i),
        find_key(s.take(n), k) is None && n < s.len() && s[n] == k ==> find_key(s, k) == Some(n),
    decreases s.len() - n,
{
    if n < s.len() {
        lemma_find_key_prefix(s, k, n + 1);
        assert(s.take(n + 1).drop_last() =~= s.take(n));
    } else {
        assert(s.take(n) =~= s);
    }
}

/// Ticks or unticks `key` (see [`toggled`]).
pub fn toggle_selection(selection: &mut Vec<SelectionKey>, key: SelectionKey)
    ensures
        keys_view(final(selection)@) == toggled(keys_view(old(selection)@), key_view(key)),
{
    proof {
        lemma_find_key_bounds(keys_view(selection@), key_view(key));
    }
    match find_key_exec(selection, &key) {
        Some(i) => {
            assert(find_key(keys_view(old(selection)@), key_view(key)) == Some(i as int));
            selection.remove(i);
            assert(keys_view(selection@) =~= keys_view(old(selection)@).remove(i as int));
        },
        None => {
            assert(find_key(keys_view(old(selection)@), key_view(key)) is None);
            let ghost kv = key_view(key);
            selection.push(key);
            assert(keys_view(selection@) =~= keys_view(old(selection)@).push(kv));
        },
    }
}

/// The status of a port reassignment proposal.
pub open spec fn plan_message(moves: nat, blocked: nat) -> Seq<char> {
    if moves == 0 && blocked == 0 {
        "Aucun conflit de port à corriger."@
    } else {
        decimal(moves) + " réattribution(s) proposée(s), "@ + decimal(blocked)
            + " conflit(s) non réglable(s)."@
    }
}

/// The rest of the view's state is unchanged.
pub open spec fn same_but_selection_and_report<L, R, E>(
    a: DockerViewSession<L, R, E>,
    b: DockerViewSession<L, R, E>,
) -> bool {
    &&& a.active_list == b.active_list
    &&& a.deferred == b.deferred
    &&& a.status == b.status
    &&& a.port_plan == b.port_plan
    &&& a.port_edits == b.port_edits
}

/// What an action of the Docker view does:
/// - a refresh or a retry clears the batch report and refetches;
/// - ticking an object toggles it, clears the report and prunes the
///   selection against the snapshot;
/// - selecting the dormant objects, or clearing the selection, clears the
///   report too;
/// - switching lists keeps the report;
/// - computing volume sizes and scanning the host's ports are deferred
///   behind a status;
/// - clearing the proposal drops it with its edit reports;
/// - a destructive action asks for confirmation.
pub open spec fn view_action_outcome<L, R, E>(
    before: DockerViewSession<L, R, E>,
    action: DockerViewAction<L>,
    after: DockerViewSession<L, R, E>,
    effect: DockerViewEffect,
) -> bool {
    match action {
        DockerViewAction::Refresh | DockerViewAction::Retry => {
            &&& after.batch_report@.len() == 0
            &&& after.selection == before.selection
            &&& same_but_selection_and_report(after, before)
            &&& effect == DockerViewEffect::Refetch
        },
        DockerViewAction::ToggleSelection(k) => {
            &&& keys_view(after.selection@) == toggled(keys_view(before.selection@), key_view(k))
            &&& after.batch_report@.len() == 0
            &&& same_but_selection_and_report(after, before)
            &&& effect == DockerViewEffect::PruneSelection
        },
        DockerViewAction::SelectDormant => {
            &&& after.batch_report@.len() == 0
            &&& after.selection == before.selection
            &&& same_but_selection_and_report(after, before)
            &&& effect == DockerViewEffect::SelectDormant
        },
        DockerViewAction::ClearSelection => {
            &&& after.batch_report@.len() == 0
            &&& after.selection@.len() == 0
            &&& same_but_selection_and_report(after, before)
            &&& effect == DockerViewEffect::Nothing
        },
        DockerViewAction::SelectList(l) => {
            &&& after.active_list == l
            &&& after.selection == before.selection
            &&& after.batch_report == before.batch_report
            &&& after.deferred == before.deferred
            &&& after.status == before.status
            &&& after.port_plan == before.port_plan
            &&& after.port_edits == before.port_edits
            &&& effect == DockerViewEffect::Nothing
        },
        DockerViewAction::ComputeVolumeSizes => {
            &&& after.deferred == Some(DeferredRead::ComputeVolumeSizes)
            &&& after.status matches Some((m, e)) && m@ == "Calcul des tailles des volumes…"@ && !e
            &&& after.selection == before.selection
            &&& after.batch_report == before.batch_report
            &&& after.active_list == before.active_list
            &&& after.port_plan == before.port_plan
            &&& after.port_edits == before.port_edits
            &&& effect == DockerViewEffect::Nothing
        },
        DockerViewAction::ScanHostPorts => {
            &&& after.deferred == Some(DeferredRead::ScanHostPorts)
            &&& after.status matches Some((m, e)) && m@ == "Analyse des ports de l'hôte…"@ && !e
            &&& after.selection == before.selection
            &&& after.batch_report == before.batch_report
            &&& after.active_list == before.active_list
            &&& after.port_plan == before.port_plan
            &&& after.port_edits == before.port_edits
            &&& effect == DockerViewEffect::Nothing
        },
        DockerViewAction::PlanPortReassignment => {
            &&& after.selection == before.selection
            &&& after.batch_report == before.batch_report
            &&& same_but_selection_and_report(after, before)
            &&& effect == DockerViewEffect::PlanPorts
        },
        DockerViewAction::ClearPortPlan => {
            &&& after.port_plan is None
            &&& after.port_edits@.len() == 0
            &&& after.selection == before.selection
            &&& after.batch_report == before.batch_report
            &&& after.active_list == before.active_list
            &&& after.deferred == before.deferred
            &&& after.status == before.status
            &&& effect == DockerViewEffect::Nothing
        },
        DockerViewAction::Destructive(a) => {
            &&& after.selection == before.selection
            &&& after.batch_report == before.batch_report
            &&& same_but_selection_and_report(after, before)
            &&& effect == DockerViewEffect::Confirm(a)
        },
    }
}

/// Carries out an action of the Docker view (see [`view_action_outcome`]).
pub fn docker_view_step<L, R, E>(
    session: &mut DockerViewSession<L, R, E>,
    action: DockerViewAction<L>,
) -> (effect: DockerViewEffect)
    ensures
        view_action_outcome(*old(session), action, *final(session), effect),
{
    match action {
        DockerViewAction::Refresh | DockerViewAction::Retry => {
            session.batch_report = Vec::new();
            DockerViewEffect::Refetch
        },
        DockerViewAction::ToggleSelection(key) => {
            toggle_selection(&mut session.selection, key);
            session.batch_report = Vec::new();
            DockerViewEffect::PruneSelection
        },
        DockerViewAction::SelectDormant => {
            session.batch_report = Vec::new();
            DockerViewEffect::SelectDormant
        },
        DockerViewAction::ClearSelection => {
            session.selection = Vec::new();
            session.batch_report = Vec::new();
            DockerViewEffect::Nothing
        },
        DockerViewAction::SelectList(list) => {
            session.active_list = list;
            DockerViewEffect::Nothing
        },
        DockerViewAction::ComputeVolumeSizes => {
            session.deferred = Some(DeferredRead::ComputeVolumeSizes);
            session.status = Some((String::from_str("Calcul des tailles des volumes…"), false));
            DockerViewEffect::Nothing
        },
        DockerViewAction::ScanHostPorts => {
            session.deferred = Some(DeferredRead::ScanHostPorts);
            session.status = Some((String::from_str("Analyse des ports de l'hôte…"), false));
            DockerViewEffect::Nothing
        },
        DockerViewAction::PlanPortReassignment => DockerViewEffect::PlanPorts,
        DockerViewAction::ClearPortPlan => {
            session.port_plan = None;
            session.port_edits = Vec::new();
            DockerViewEffect::Nothing
        },
        DockerViewAction::Destructive(a) => DockerViewEffect::Confirm(a),
    }
}

/// Shows a freshly computed reassignment proposal: it replaces the previous
/// one, the reports of an earlier application are dropped (they describe
/// the files before this plan), and the status counts the proposal.
pub fn adopt_port_plan<L, R, E>(session: &mut DockerViewSession<L, R, E>, plan: ReassignmentPlan)
    ensures
        final(session).port_plan == Some(plan),
        final(session).port_edits@.len() == 0,
        final(session).status matches Some((m, e)) && m@ == plan_message(
            plan.moves@.len(),
            plan.blocked@.len(),
        ) && !e,
        final(session).selection == old(session).selection,
        final(session).batch_report == old(session).batch_report,
        final(session).active_list == old(session).active_list,
        final(session).deferred == old(session).deferred,
{
    let message = if plan.is_empty() {
        String::from_str("Aucun conflit de port à corriger.")
    } else {
        let mut m = String::new();
        push_decimal(&mut m, plan.moves.len() as u64);
        m.append(" réattribution(s) proposée(s), ");
        push_decimal(&mut m, plan.blocked.len() as u64);
        m.append(" conflit(s) non réglable(s).");
        m
    };
    session.port_edits = Vec::new();
    session.port_plan = Some(plan);
    session.status = Some((message, false));
}

/// The selection after a batch deletion whose outcomes come in the order
/// of `processed`: each target that was deleted is unticked; a failed one
/// stays ticked, so that retrying is one click.
pub open spec fn after_batch(
    selection: Seq<(Seq<char>, Seq<char>)>,
    processed: Seq<(Seq<char>, Seq<char>)>,
    outcomes: Seq<Result<(), String>>,
) -> Seq<(Seq<char>, Seq<char>)>
    decreases selection.len(),
{
    if selection.len() == 0 {
        Seq::empty()
    } else {
        let rest = after_batch(selection.drop_last(), processed, outcomes);
        if deleted_in(processed, outcomes, selection.last()) {
            rest
        } else {
            rest.push(selection.last())
        }
    }
}

/// `k` was among the targets and its deletion succeeded.
pub open spec fn deleted_in(
    processed: Seq<(Seq<char>, Seq<char>)>,
    outcomes: Seq<Result<(), String>>,
    k: (Seq<char>, Seq<char>),
) -> bool {
    exists|j: int|
        0 <= j < processed.len() && j < outcomes.len() && processed[j] == k && #[trigger] outcomes[j] is Ok
}

fn deleted(processed: &Vec<SelectionKey>, outcomes: &Vec<Result<(), String>>, k: &SelectionKey) -> (r: bool)
    ensures
        r == deleted_in(keys_view(processed@), outcomes@, key_view(*k)),
{
    let ghost pv = keys_view(processed@);
    let mut j: usize = 0;
    while j < processed.len() && j < outcomes.len()
        invariant
            j <= processed.len(),
            pv == keys_view(processed@),
            forall|q: int|
                0 <= q < j && q < outcomes@.len() ==> !(pv[q] == key_view(*k) && #[trigger] outcomes@[q] is Ok),
        decreases processed.len() - j,
    {
        assert(pv[j as int] == key_view(processed@[j as int]));
        if outcomes[j].is_ok() && same_key(&processed[j], k) {
            assert(outcomes@[j as int] is Ok);
            return true;
        }
        j = j + 1;
    }
    proof {
        assert forall|q: int|
            !(0 <= q < pv.len() && q < outcomes@.len() && pv[q] == key_view(*k)
                && #[trigger] outcomes@[q] is Ok) by {
            if 0 <= q < pv.len() && q < outcomes@.len() {
                assert(q < j);
            }
        }
    }
    false
}

/// Unticks what a batch deletion removed (see [`after_batch`]).
pub fn selection_after_batch(
    selection: &Vec<SelectionKey>,
    processed: &Vec<SelectionKey>,
    outcomes: &Vec<Result<(), String>>,
) -> (r: Vec<SelectionKey>)
    ensures
        keys_view(r@) == after_batch(keys_view(selection@), keys_view(processed@), outcomes@),
{
    let ghost sv = keys_view(selection@);
    let ghost pv = keys_view(processed@);
    let mut out: Vec<SelectionKey> = Vec::new();
    let mut i: usize = 0;
    assert(sv.take(0) =~= Seq::<(Seq<char>, Seq<char>)>::empty());
    while i < selection.len()
        invariant
            i <= selection.len(),
            sv == keys_view(selection@),
            pv == keys_view(processed@),
            keys_view(out@) == after_batch(sv.take(i as int), pv, outcomes@),
        decreases selection.len() - i,
    {
        assert(sv.take(i + 1).drop_last() =~= sv.take(i as int));
        assert(sv.take(i + 1).last() == key_view(selection@[i as int]));
        let d = deleted(processed, outcomes, &selection[i]);
        if !d {
            let k = SelectionKey {
                kind: crate::text::copy_string(&selection[i].kind),
                id: crate::text::copy_string(&selection[i].id),
            };
            let ghost kv = key_view(k);
            assert(kv == sv[i as int]);
            let ghost before = out@;
            out.push(k);
            assert(keys_view(out@) =~= keys_view(before).push(kv));
        }
        i = i + 1;
    }
    assert(sv.take(selection.len() as int) =~= sv);
    out
}

} // verus!
