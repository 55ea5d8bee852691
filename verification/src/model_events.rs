//! How the models workspace takes in what the model tool reports: an
//! inventory, a reply to the job in flight (offers, settings, recovery
//! journals, a guided integration), progress, and the end of an operation;
//! and what each action of the workspace starts.

use vstd::prelude::*;

use crate::models::{AcquisitionOffer, CatalogSnapshot};
use crate::model_commands::{
    download_arguments, download_arguments_spec, download_operation_id, guided_confirmation,
    library_change_confirmation, no_review_digest, no_reviewed_plan, recovery_confirmation,
    resolve_arguments, resolve_arguments_spec,
};
use crate::models_view::{ModelsAction, ModelsSection, ModelsUiState};
use crate::pending_actions::{ConfirmedAction, ModelsJob};
use crate::text::{
    chars_of, decimal, lemma_strings_view_push, opt_chars, str_eq, strings_view, trim, trim_bounds,
};

verus! {

/// The library settings the model tool reports.
#[derive(Clone, Debug, PartialEq, Eq)]
pub struct ModelSettings {
    pub library_root: String,
    pub provider_order: Vec<String>,
    pub enabled_providers: Vec<String>,
    pub xet_enabled: bool,
    pub keep_patterns: Vec<String>,
}

/// How an operation ended.
#[derive(Clone, Debug, PartialEq, Eq)]
pub struct OperationEnd {
    pub kind: String,
    pub message: Option<String>,
}

/// A reply of the model tool, read as the job in flight expects (see
/// [`expected_reply`]); a payload that did not read carries the reading
/// error.
#[derive(Debug, PartialEq, Eq)]
pub enum ModelReply<J, G> {
    Offers(Result<Vec<AcquisitionOffer>, String>),
    Settings(Result<ModelSettings, String>),
    Journals(Result<Vec<J>, String>),
    Guided(Result<G, String>),
    /// A reply that needs no reading.
    Received,
}

/// What the reply to a job is read as.
#[derive(Clone, Copy, Debug, PartialEq, Eq, Structural)]
pub enum ReplyKind {
    Offers,
    Settings,
    Journals,
    Guided,
    Received,
}

/// What the model tool reports.
#[derive(Debug, PartialEq, Eq)]
pub enum ModelEvent<J, G, P> {
    Inventory(Result<CatalogSnapshot, String>),
    Reply(Result<ModelReply<J, G>, String>),
    Progress(P),
    Terminal(Result<OperationEnd, String>),
}

/// The query that follows an event, if any.
#[derive(Clone, Debug, PartialEq, Eq)]
pub enum ModelQuery {
    /// A new inventory.
    Inventory,
    /// The model tool with these arguments.
    Run(Vec<String>),
}

/// The workspace as the events change it.
pub struct ModelsSession<J, G, P> {
    pub job: Option<ModelsJob>,
    pub error: Option<String>,
    pub snapshot: Option<CatalogSnapshot>,
    pub offers: Vec<AcquisitionOffer>,
    pub ui: ModelsUiState,
    pub recovery: Vec<J>,
    pub guided: Option<G>,
    pub progress: Vec<P>,
    pub terminal: Option<OperationEnd>,
    /// An operation can be cancelled.
    pub cancellable: bool,
    /// Queries are run (off in a session that only displays).
    pub spawning: bool,
}

/// What a reply to `job` is read as: offers for a resolution, settings
/// for a settings read or write, journals for a recovery read, a guided
/// integration for a guided write; anything else is not read.
pub fn expected_reply(job: Option<ModelsJob>) -> (r: ReplyKind)
    ensures
        r == (match job {
            Some(ModelsJob::Resolve) => ReplyKind::Offers,
            Some(ModelsJob::SettingsRead) => ReplyKind::Settings,
            Some(ModelsJob::SettingsWrite) => ReplyKind::Settings,
            Some(ModelsJob::RecoveryRead) => ReplyKind::Journals,
            Some(ModelsJob::GuidedWrite) => ReplyKind::Guided,
            _ => ReplyKind::Received,
        }),
{
    match job {
        Some(ModelsJob::Resolve) => ReplyKind::Offers,
        Some(ModelsJob::SettingsRead) => ReplyKind::Settings,
        Some(ModelsJob::SettingsWrite) => ReplyKind::Settings,
        Some(ModelsJob::RecoveryRead) => ReplyKind::Journals,
        Some(ModelsJob::GuidedWrite) => ReplyKind::Guided,
        _ => ReplyKind::Received,
    }
}

// ---------------------------------------------------------------------------
// Pieces
// ---------------------------------------------------------------------------

/// The offers of `offers` whose provider is (`want`) or is not the manual
/// one, in order.
pub open spec fn offers_by_provider(offers: Seq<AcquisitionOffer>, manual: Seq<char>, want: bool) -> Seq<
    AcquisitionOffer,
>
    decreases offers.len(),
{
    if offers.len() == 0 {
        Seq::empty()
    } else {
        let rest = offers_by_provider(offers.drop_last(), manual, want);
        if (offers.last().provider@ == manual) == want {
            rest.push(offers.last())
        } else {
            rest
        }
    }
}

/// The offers with the manual provider's first, the order otherwise kept;
/// a blank manual provider changes nothing.
pub open spec fn manual_first(offers: Seq<AcquisitionOffer>, manual: Seq<char>) -> Seq<AcquisitionOffer> {
    if trim(manual).len() == 0 {
        offers
    } else {
        offers_by_provider(offers, trim(manual), true) + offers_by_provider(offers, trim(manual), false)
    }
}

fn manual_provider_first(offers: Vec<AcquisitionOffer>, manual: &str) -> (r: Vec<AcquisitionOffer>)
    ensures
        r@ == manual_first(offers@, manual@),
{
    let mv = chars_of(manual);
    let (start, end) = trim_bounds(&mv, 0, mv.len());
    assert(mv@.subrange(0, mv@.len() as int) =~= manual@);
    if start == end {
        return offers;
    }
    let m = crate::text::string_of_range(&mv, start, end);
    let ghost all = offers@;
    let mut offers = offers;
    let mut first: Vec<AcquisitionOffer> = Vec::new();
    let mut rest: Vec<AcquisitionOffer> = Vec::new();
    let mut i: usize = 0;
    let n = offers.len();
    assert(all.take(0) =~= Seq::<AcquisitionOffer>::empty());
    assert(all.skip(0) =~= all);
    while i < n
        invariant
            i <= n,
            n == all.len(),
            offers@ == all.skip(i as int),
            m@ == trim(manual@),
            first@ == offers_by_provider(all.take(i as int), m@, true),
            rest@ == offers_by_provider(all.take(i as int), m@, false),
        decreases n - i,
    {
        assert(all.take(i + 1).drop_last() =~= all.take(i as int));
        assert(all.take(i + 1).last() == all[i as int]);
        let o = offers.remove(0);
        assert(offers@ =~= all.skip(i + 1));
        if str_eq(o.provider.as_str(), m.as_str()) {
            first.push(o);
        } else {
            rest.push(o);
        }
        i += 1;
    }
    assert(all.take(n as int) =~= all);
    first.append(&mut rest);
    first
}

/// `parts` joined with commas.
pub open spec fn join_commas(parts: Seq<Seq<char>>) -> Seq<char>
    decreases parts.len(),
{
    if parts.len() == 0 {
        Seq::empty()
    } else if parts.len() == 1 {
        parts[0]
    } else {
        join_commas(parts.drop_last()) + ","@ + parts.last()
    }
}

fn join_with_commas(parts: &Vec<String>) -> (r: String)
    ensures
        r@ == join_commas(strings_view(parts@)),
{
    let ghost ps = strings_view(parts@);
    let mut r = String::new();
    let mut i: usize = 0;
    assert(ps.take(0) =~= Seq::<Seq<char>>::empty());
    while i < parts.len()
        invariant
            i <= parts.len(),
            ps == strings_view(parts@),
            ps.len() == parts.len(),
            r@ == join_commas(ps.take(i as int)),
        decreases parts.len() - i,
    {
        assert(ps.take(i + 1).drop_last() =~= ps.take(i as int));
        assert(ps.take(i + 1).last() == parts@[i as int]@);
        if i > 0 {
            r.append(",");
        } else {
            assert(ps.take(1) =~= seq![ps[0]]);
            assert(r@ =~= Seq::<char>::empty());
        }
        r.append(parts[i].as_str());
        i += 1;
    }
    assert(ps.take(parts.len() as int) =~= ps);
    r
}

/// The recovery query that follows a settings read or an inventory: the
/// journals of the library, when a library root is set.
pub open spec fn recovery_query(root: Seq<char>) -> Option<Seq<Seq<char>>> {
    if trim(root).len() == 0 {
        None
    } else {
        Some(seq!["recovery"@, "--root"@, root])
    }
}

/// A query as plain values: `None` for no query, `Some(None)` for a new
/// inventory, `Some(Some(args))` for a run of the model tool.
pub open spec fn query_view(q: Option<ModelQuery>) -> Option<Option<Seq<Seq<char>>>> {
    match q {
        None => None,
        Some(ModelQuery::Inventory) => Some(None),
        Some(ModelQuery::Run(args)) => Some(Some(strings_view(args@))),
    }
}

/// After a settings read or an inventory (no job left in flight): the
/// recovery journals are read when a library root is set, the query run
/// only in a spawning session.
pub open spec fn recovery_follow<J, G, P>(after: ModelsSession<J, G, P>, q: Option<ModelQuery>) -> bool {
    match recovery_query(after.ui.library_root@) {
        None => q is None && after.job is None,
        Some(args) => after.job == Some(ModelsJob::RecoveryRead) && query_view(q) == (if after.spawning {
            Some(Some(args))
        } else {
            None
        }),
    }
}

/// A new inventory: the job is an inventory, the error cleared, the query
/// run only in a spawning session.
pub open spec fn inventory_follow<J, G, P>(after: ModelsSession<J, G, P>, q: Option<ModelQuery>) -> bool {
    &&& after.job == Some(ModelsJob::Inventory)
    &&& after.error is None
    &&& q == (if after.spawning {
        Some(ModelQuery::Inventory)
    } else {
        None
    })
}

fn refresh_recovery<J, G, P>(session: &mut ModelsSession<J, G, P>) -> (q: Option<ModelQuery>)
    requires
        old(session).job is None,
    ensures
        recovery_follow(*final(session), q),
        final(session).error == old(session).error,
        same_view(*final(session), *old(session)),
{
    let v = chars_of(session.ui.library_root.as_str());
    let (start, end) = trim_bounds(&v, 0, v.len());
    assert(v@.subrange(0, v@.len() as int) =~= session.ui.library_root@);
    if start == end {
        return None;
    }
    session.job = Some(ModelsJob::RecoveryRead);
    if !session.spawning {
        return None;
    }
    let mut args: Vec<String> = Vec::new();
    args.push(String::from_str("recovery"));
    args.push(String::from_str("--root"));
    args.push(session.ui.library_root.clone());
    assert(strings_view(args@) =~= seq!["recovery"@, "--root"@, session.ui.library_root@]);
    Some(ModelQuery::Run(args))
}

fn refresh_inventory<J, G, P>(session: &mut ModelsSession<J, G, P>) -> (q: Option<ModelQuery>)
    ensures
        inventory_follow(*final(session), q),
        same_view(*final(session), *old(session)),
{
    session.job = Some(ModelsJob::Inventory);
    session.error = None;
    if session.spawning {
        Some(ModelQuery::Inventory)
    } else {
        None
    }
}

fn prefixed(prefix: &str, e: String) -> (r: String)
    ensures
        r@ == prefix@ + e@,
{
    let mut r = String::from_str(prefix);
    r.append(e.as_str());
    r
}

/// The snapshot, progress, last ending, cancel handle and spawning flag
/// are unchanged.
pub open spec fn keeps_tail<J, G, P>(a: ModelsSession<J, G, P>, b: ModelsSession<J, G, P>) -> bool {
    &&& a.snapshot == b.snapshot
    &&& a.progress == b.progress
    &&& a.terminal == b.terminal
    &&& a.cancellable == b.cancellable
    &&& a.spawning == b.spawning
}

/// Everything but the job, the error and the offers is unchanged.
pub open spec fn keeps_rest<J, G, P>(a: ModelsSession<J, G, P>, b: ModelsSession<J, G, P>) -> bool {
    &&& keeps_tail(a, b)
    &&& a.recovery == b.recovery
    &&& a.guided == b.guided
}

/// Everything but the job and the error is unchanged.
pub open spec fn same_view<J, G, P>(a: ModelsSession<J, G, P>, b: ModelsSession<J, G, P>) -> bool {
    &&& keeps_rest(a, b)
    &&& a.ui == b.ui
    &&& a.offers == b.offers
}

/// The settings form filled from `st` (lists joined with commas), the
/// other fields of `before` kept.
pub open spec fn settings_filled(after: ModelsUiState, before: ModelsUiState, st: ModelSettings) -> bool {
    &&& after.library_root@ == st.library_root@
    &&& after.provider_order@ == join_commas(strings_view(st.provider_order@))
    &&& after.enabled_providers@ == join_commas(strings_view(st.enabled_providers@))
    &&& after.xet_enabled == st.xet_enabled
    &&& after.keep_pattern@ == join_commas(strings_view(st.keep_patterns@))
    &&& after.section == before.section
    &&& after.filters == before.filters
    &&& after.locator == before.locator
    &&& after.alternatives == before.alternatives
    &&& after.family == before.family
    &&& after.selected_offer == before.selected_offer
    &&& after.manual_provider == before.manual_provider
}

/// Only the error changes, to `message`; the job ends; no query follows.
pub open spec fn failed_with<J, G, P>(
    before: ModelsSession<J, G, P>,
    after: ModelsSession<J, G, P>,
    q: Option<ModelQuery>,
    message: Seq<char>,
) -> bool {
    &&& after.job is None
    &&& opt_chars(after.error) == Some(message)
    &&& q is None
    &&& same_view(after, before)
}

/// What a reply does to the workspace (`before` to `after`) and which
/// query follows it. The job in flight ends:
/// - offers for a resolution replace the offers (the manual provider's
///   first), with none selected;
/// - settings fill the settings form and are followed by a new inventory
///   after a write, by the recovery journals after a read;
/// - journals replace the recovery list; a guided integration is shown in
///   the operations section;
/// - an acknowledged recovery is followed by a new inventory;
/// - a payload that did not read, or a tool error, is shown as the error;
///   a reply to any other job is unexpected.
pub open spec fn reply_outcome<J, G, P>(
    before: ModelsSession<J, G, P>,
    reply: Result<ModelReply<J, G>, String>,
    after: ModelsSession<J, G, P>,
    q: Option<ModelQuery>,
) -> bool {
    match (before.job, reply) {
        (_, Err(e)) => failed_with(before, after, q, e@),
        (Some(ModelsJob::Resolve), Ok(ModelReply::Offers(Ok(offers)))) => {
            &&& after.job is None
            &&& after.error is None
            &&& after.offers@ == manual_first(offers@, before.ui.manual_provider@)
            &&& after.ui == (ModelsUiState { selected_offer: None, ..before.ui })
            &&& q is None
            &&& keeps_rest(after, before)
        },
        (Some(ModelsJob::Resolve), Ok(ModelReply::Offers(Err(e)))) => failed_with(
            before,
            after,
            q,
            "offres modèles invalides: "@ + e@,
        ),
        (Some(ModelsJob::SettingsRead), Ok(ModelReply::Settings(Ok(st)))) => {
            &&& settings_filled(after.ui, before.ui, st)
            &&& after.error is None
            &&& after.offers == before.offers
            &&& keeps_rest(after, before)
            &&& recovery_follow(after, q)
        },
        (Some(ModelsJob::SettingsWrite), Ok(ModelReply::Settings(Ok(st)))) => {
            &&& settings_filled(after.ui, before.ui, st)
            &&& after.offers == before.offers
            &&& keeps_rest(after, before)
            &&& inventory_follow(after, q)
        },
        (Some(ModelsJob::SettingsRead), Ok(ModelReply::Settings(Err(e)))) => failed_with(
            before,
            after,
            q,
            "réglages modèles invalides: "@ + e@,
        ),
        (Some(ModelsJob::SettingsWrite), Ok(ModelReply::Settings(Err(e)))) => failed_with(
            before,
            after,
            q,
            "réglages modèles invalides: "@ + e@,
        ),
        (Some(ModelsJob::RecoveryRead), Ok(ModelReply::Journals(Ok(js)))) => {
            &&& after.job is None
            &&& after.error is None
            &&& after.recovery == js
            &&& q is None
            &&& after.ui == before.ui
            &&& after.offers == before.offers
            &&& after.guided == before.guided
            &&& keeps_tail(after, before)
        },
        (Some(ModelsJob::RecoveryRead), Ok(ModelReply::Journals(Err(e)))) => failed_with(
            before,
            after,
            q,
            "journaux modèles invalides: "@ + e@,
        ),
        (Some(ModelsJob::RecoveryWrite), Ok(_)) => inventory_follow(after, q) && same_view(
            after,
            before,
        ),
        (Some(ModelsJob::GuidedWrite), Ok(ModelReply::Guided(Ok(g)))) => {
            &&& after.job is None
            &&& after.error is None
            &&& after.guided == Some(g)
            &&& after.ui == (ModelsUiState { section: ModelsSection::Operations, ..before.ui })
            &&& q is None
            &&& after.offers == before.offers
            &&& after.recovery == before.recovery
            &&& keeps_tail(after, before)
        },
        (Some(ModelsJob::GuidedWrite), Ok(ModelReply::Guided(Err(e)))) => failed_with(
            before,
            after,
            q,
            "intégration guidée invalide: "@ + e@,
        ),
        (_, Ok(_)) => failed_with(before, after, q, "réponse modèles reçue pour un job inattendu"@),
    }
}

/// The reply to the job in flight (see [`reply_outcome`]).
pub fn model_reply_step<J, G, P>(
    session: &mut ModelsSession<J, G, P>,
    reply: Result<ModelReply<J, G>, String>,
) -> (q: Option<ModelQuery>)
    ensures
        reply_outcome(*old(session), reply, *final(session), q),
{
    let job = session.job;
    session.job = None;
    match (job, reply) {
        (_, Err(e)) => {
            session.error = Some(e);
            None
        },
        (Some(ModelsJob::Resolve), Ok(ModelReply::Offers(Ok(offers)))) => {
            let sorted = manual_provider_first(offers, session.ui.manual_provider.as_str());
            session.offers = sorted;
            session.ui.selected_offer = None;
            session.error = None;
            None
        },
        (Some(ModelsJob::Resolve), Ok(ModelReply::Offers(Err(e)))) => {
            session.error = Some(prefixed("offres modèles invalides: ", e));
            None
        },
        (Some(ModelsJob::SettingsRead), Ok(ModelReply::Settings(Ok(st))))
        | (Some(ModelsJob::SettingsWrite), Ok(ModelReply::Settings(Ok(st)))) => {
            session.ui.provider_order = join_with_commas(&st.provider_order);
            session.ui.enabled_providers = join_with_commas(&st.enabled_providers);
            session.ui.keep_pattern = join_with_commas(&st.keep_patterns);
            session.ui.xet_enabled = st.xet_enabled;
            session.ui.library_root = st.library_root;
            session.error = None;
            if job == Some(ModelsJob::SettingsWrite) {
                refresh_inventory(session)
            } else {
                refresh_recovery(session)
            }
        },
        (Some(ModelsJob::SettingsRead), Ok(ModelReply::Settings(Err(e))))
        | (Some(ModelsJob::SettingsWrite), Ok(ModelReply::Settings(Err(e)))) => {
            session.error = Some(prefixed("réglages modèles invalides: ", e));
            None
        },
        (Some(ModelsJob::RecoveryRead), Ok(ModelReply::Journals(Ok(js)))) => {
            session.recovery = js;
            session.error = None;
            None
        },
        (Some(ModelsJob::RecoveryRead), Ok(ModelReply::Journals(Err(e)))) => {
            session.error = Some(prefixed("journaux modèles invalides: ", e));
            None
        },
        (Some(ModelsJob::RecoveryWrite), Ok(_)) => refresh_inventory(session),
        (Some(ModelsJob::GuidedWrite), Ok(ModelReply::Guided(Ok(g)))) => {
            session.guided = Some(g);
            session.ui.section = ModelsSection::Operations;
            session.error = None;
            None
        },
        (Some(ModelsJob::GuidedWrite), Ok(ModelReply::Guided(Err(e)))) => {
            session.error = Some(prefixed("intégration guidée invalide: ", e));
            None
        },
        (_, Ok(_)) => {
            session.error = Some(String::from_str("réponse modèles reçue pour un job inattendu"));
            None
        },
    }
}

/// What an inventory does: the job ends; a snapshot replaces the shown
/// one and clears the error, and is followed by a settings read when no
/// library root is known yet in a spawning session, by the recovery
/// journals otherwise; a failure is shown as the error.
pub open spec fn inventory_outcome<J, G, P>(
    before: ModelsSession<J, G, P>,
    r: Result<CatalogSnapshot, String>,
    after: ModelsSession<J, G, P>,
    q: Option<ModelQuery>,
) -> bool {
    match r {
        Err(e) => failed_with(before, after, q, e@),
        Ok(snap) => {
            &&& after.snapshot == Some(snap)
            &&& after.error is None
            &&& after.ui == before.ui
            &&& after.offers == before.offers
            &&& after.recovery == before.recovery
            &&& after.guided == before.guided
            &&& after.progress == before.progress
            &&& after.terminal == before.terminal
            &&& after.cancellable == before.cancellable
            &&& after.spawning == before.spawning
            &&& if before.ui.library_root@.len() == 0 && before.spawning {
                &&& after.job == Some(ModelsJob::SettingsRead)
                &&& query_view(q) == Some(Some(seq!["settings"@]))
            } else {
                recovery_follow(after, q)
            }
        },
    }
}

/// The error left by the end of an operation, before any refresh: a
/// failure, or the message of an operation that did not complete.
pub open spec fn ending_error(before: Option<String>, r: Result<OperationEnd, String>) -> Option<Seq<char>> {
    match r {
        Err(e) => Some(e@),
        Ok(end) => if end.kind@ == "completed"@ {
            opt_chars(before)
        } else {
            opt_chars(end.message)
        },
    }
}

/// What the end of an operation does: nothing is left to cancel, the
/// ending is kept, and a spawning session takes a new inventory (which
/// clears the error); otherwise the job ends with the ending's error.
pub open spec fn terminal_outcome<J, G, P>(
    before: ModelsSession<J, G, P>,
    r: Result<OperationEnd, String>,
    after: ModelsSession<J, G, P>,
    q: Option<ModelQuery>,
) -> bool {
    &&& !after.cancellable
    &&& after.terminal == (match r {
        Ok(end) => Some(end),
        Err(_) => before.terminal,
    })
    &&& after.snapshot == before.snapshot
    &&& after.ui == before.ui
    &&& after.offers == before.offers
    &&& after.recovery == before.recovery
    &&& after.guided == before.guided
    &&& after.progress == before.progress
    &&& after.spawning == before.spawning
    &&& if before.spawning {
        inventory_follow(after, q)
    } else {
        &&& after.job is None
        &&& opt_chars(after.error) == ending_error(before.error, r)
        &&& q is None
    }
}

/// What an event of the model tool does to the workspace, and the query
/// that follows it (see [`inventory_outcome`], [`reply_outcome`] and
/// [`terminal_outcome`]); progress is appended.
pub open spec fn event_outcome<J, G, P>(
    before: ModelsSession<J, G, P>,
    event: ModelEvent<J, G, P>,
    after: ModelsSession<J, G, P>,
    q: Option<ModelQuery>,
) -> bool {
    match event {
        ModelEvent::Inventory(r) => inventory_outcome(before, r, after, q),
        ModelEvent::Reply(r) => reply_outcome(before, r, after, q),
        ModelEvent::Progress(p) => {
            &&& after.progress@ == before.progress@.push(p)
            &&& after.job == before.job
            &&& after.error == before.error
            &&& after.snapshot == before.snapshot
            &&& after.ui == before.ui
            &&& after.offers == before.offers
            &&& after.recovery == before.recovery
            &&& after.guided == before.guided
            &&& after.terminal == before.terminal
            &&& after.cancellable == before.cancellable
            &&& after.spawning == before.spawning
            &&& q is None
        },
        ModelEvent::Terminal(r) => terminal_outcome(before, r, after, q),
    }
}

fn copy_message(m: &Option<String>) -> (r: Option<String>)
    ensures
        opt_chars(r) == opt_chars(*m),
{
    match m {
        Some(s) => Some(s.clone()),
        None => None,
    }
}

/// Takes in one event of the model tool; returns the query to run next.
pub fn model_event_step<J, G, P>(
    session: &mut ModelsSession<J, G, P>,
    event: ModelEvent<J, G, P>,
) -> (q: Option<ModelQuery>)
    ensures
        event_outcome(*old(session), event, *final(session), q),
{
    match event {
        ModelEvent::Inventory(r) => {
            session.job = None;
            match r {
                Ok(snapshot) => {
                    session.snapshot = Some(snapshot);
                    session.error = None;
                    if chars_of(session.ui.library_root.as_str()).len() == 0 && session.spawning {
                        session.job = Some(ModelsJob::SettingsRead);
                        let mut args: Vec<String> = Vec::new();
                        args.push(String::from_str("settings"));
                        assert(strings_view(args@) =~= seq!["settings"@]);
                        Some(ModelQuery::Run(args))
                    } else {
                        refresh_recovery(session)
                    }
                },
                Err(e) => {
                    session.error = Some(e);
                    None
                },
            }
        },
        ModelEvent::Reply(r) => model_reply_step(session, r),
        ModelEvent::Progress(p) => {
            session.progress.push(p);
            None
        },
        ModelEvent::Terminal(r) => {
            session.job = None;
            session.cancellable = false;
            match r {
                Ok(end) => {
                    if !str_eq(end.kind.as_str(), "completed") {
                        session.error = copy_message(&end.message);
                    }
                    session.terminal = Some(end);
                },
                Err(e) => {
                    session.error = Some(e);
                },
            }
            if session.spawning {
                refresh_inventory(session)
            } else {
                None
            }
        },
    }
}

// ---------------------------------------------------------------------------
// Actions of the workspace
// ---------------------------------------------------------------------------

/// What an action of the workspace asks the application to start.
#[derive(Debug, PartialEq, Eq)]
pub enum ModelCommand {
    Nothing,
    /// A query of the model tool.
    Query(ModelQuery),
    /// A cancellable operation of the model tool.
    Operation { operation_id: String, arguments: Vec<String> },
    /// Cancelling the operation in flight.
    Cancel,
    /// A confirmation, and what runs once it is given.
    Confirm { title: String, message: String, on_confirm: ConfirmedAction },
}

/// Everything but the job, the error, the selected offer and the section is
/// unchanged.
pub open spec fn keeps_offers_and_rest<J, G, P>(a: ModelsSession<J, G, P>, b: ModelsSession<J, G, P>) -> bool {
    &&& keeps_rest(a, b)
    &&& a.offers == b.offers
}

/// The download that the reviewed offer starts, at `millis`: its
/// operation id and command line, or why it is refused.
pub open spec fn reviewed_download<J, G, P>(before: ModelsSession<J, G, P>, millis: u64) -> Result<
    (Seq<char>, Seq<Seq<char>>),
    Seq<char>,
> {
    let op = "ui-download-"@ + decimal(millis as nat);
    match before.ui.selected_offer {
        Some(i) if i < before.offers.len() => match before.offers@[i as int].review_digest {
            Some(d) => Ok(
                (op, download_arguments_spec(before.offers@[i as int], d@, op, before.ui.library_root@)),
            ),
            None => Err(no_review_digest()),
        },
        _ => Err(no_reviewed_plan()),
    }
}

/// What an action does to the workspace and what it starts:
/// - a refresh takes a new inventory;
/// - a resolution becomes the job in flight and queries the offers for the
///   typed locator, family and alternatives;
/// - reviewing selects an offer;
/// - running the reviewed offer starts its download as a cancellable
///   operation, after clearing the progress, the last ending and the
///   error, and shows the operations section; without a reviewed offer
///   carrying a review digest it only shows why;
/// - cancelling cancels the operation in flight, if one can be (a failed
///   cancel is shown through [`model_cancel_failed`]);
/// - a recovery, a guided integration or a library change asks for
///   confirmation first.
/// A session that does not spawn keeps the same state changes and starts
/// nothing.
pub open spec fn action_outcome<J, G, P>(
    before: ModelsSession<J, G, P>,
    action: ModelsAction,
    millis: u64,
    after: ModelsSession<J, G, P>,
    c: ModelCommand,
) -> bool {
    match action {
        ModelsAction::Refresh => {
            &&& after.job == Some(ModelsJob::Inventory)
            &&& after.error is None
            &&& same_view(after, before)
            &&& c == (if before.spawning {
                ModelCommand::Query(ModelQuery::Inventory)
            } else {
                ModelCommand::Nothing
            })
        },
        ModelsAction::Resolve => {
            &&& after.job == Some(ModelsJob::Resolve)
            &&& after.error is None
            &&& same_view(after, before)
            &&& if before.spawning {
                c matches ModelCommand::Query(ModelQuery::Run(args)) && strings_view(args@)
                    == resolve_arguments_spec(
                    before.ui.locator@,
                    before.ui.family@,
                    before.ui.alternatives@,
                )
            } else {
                c == ModelCommand::Nothing
            }
        },
        ModelsAction::Review(i) => {
            &&& after.ui == (ModelsUiState { selected_offer: Some(i), ..before.ui })
            &&& after.job == before.job
            &&& after.error == before.error
            &&& keeps_offers_and_rest(after, before)
            &&& c == ModelCommand::Nothing
        },
        ModelsAction::RunReviewed => match reviewed_download(before, millis) {
            Err(e) => {
                &&& after.job == before.job
                &&& opt_chars(after.error) == Some(e)
                &&& after.ui == before.ui
                &&& keeps_offers_and_rest(after, before)
                &&& c == ModelCommand::Nothing
            },
            Ok((op, args)) => {
                &&& after.job == Some(ModelsJob::Download)
                &&& after.error is None
                &&& after.progress.len() == 0
                &&& after.terminal is None
                &&& after.ui == (ModelsUiState { section: ModelsSection::Operations, ..before.ui })
                &&& after.offers == before.offers
                &&& after.snapshot == before.snapshot
                &&& after.recovery == before.recovery
                &&& after.guided == before.guided
                &&& after.spawning == before.spawning
                &&& after.cancellable == (before.spawning || before.cancellable)
                &&& if before.spawning {
                    c matches ModelCommand::Operation { operation_id, arguments } && operation_id@
                        == op && strings_view(arguments@) == args
                } else {
                    c == ModelCommand::Nothing
                }
            },
        },
        ModelsAction::Cancel => {
            &&& after == before
            &&& c == (if before.cancellable {
                ModelCommand::Cancel
            } else {
                ModelCommand::Nothing
            })
        },
        ModelsAction::Recover { operation_id, action } => {
            &&& after == before
            &&& c matches ModelCommand::Confirm { title, message, on_confirm }
            &&& title@ == "Récupérer l'opération ?"@
            &&& message@ == "Appliquer « "@ + action@
                + " » uniquement au staging possédé de l'opération exacte « "@ + operation_id@
                + " » ?"@
            &&& on_confirm == ConfirmedAction::RecoverModelOperation { operation_id, action }
        },
        ModelsAction::Guide { artifact_id, destination, category } => {
            &&& after == before
            &&& c matches ModelCommand::Confirm { title, message, on_confirm }
            &&& title@ == "Préparer l'intégration guidée ?"@
            &&& message@ == "Préparer l'artefact exact « "@ + artifact_id@ + " » pour "@
                + destination@ + " ?\nAucun fichier tiers ne sera réécrit automatiquement."@
            &&& on_confirm == ConfirmedAction::GuideModel { artifact_id, destination, category }
        },
        ModelsAction::SaveSettings => {
            &&& after == before
            &&& c matches ModelCommand::Confirm { title, message, on_confirm }
            &&& title@ == "Changer de bibliothèque ?"@
            &&& message@ == "Utiliser « "@ + before.ui.library_root@
                + " » pour les prochains artefacts ?\nLes fichiers existants ne seront ni déplacés ni supprimés."@
            &&& on_confirm matches ConfirmedAction::SaveModelSettings {
                root,
                provider_order,
                enabled_providers,
                xet_enabled,
                keep_patterns,
            }
            &&& root@ == before.ui.library_root@
            &&& provider_order@ == before.ui.provider_order@
            &&& enabled_providers@ == before.ui.enabled_providers@
            &&& xet_enabled == before.ui.xet_enabled
            &&& keep_patterns@ == before.ui.keep_pattern@
        },
    }
}

/// Carries out an action of the workspace at `millis` (milliseconds since
/// the Unix epoch, naming a download); see [`action_outcome`].
pub fn model_action_step<J, G, P>(
    session: &mut ModelsSession<J, G, P>,
    action: ModelsAction,
    millis: u64,
) -> (c: ModelCommand)
    ensures
        action_outcome(*old(session), action, millis, *final(session), c),
{
    match action {
        ModelsAction::Refresh => match refresh_inventory(session) {
            Some(q) => ModelCommand::Query(q),
            None => ModelCommand::Nothing,
        },
        ModelsAction::Resolve => {
            session.job = Some(ModelsJob::Resolve);
            session.error = None;
            if session.spawning {
                let args = resolve_arguments(
                    session.ui.locator.as_str(),
                    session.ui.family.as_str(),
                    session.ui.alternatives.as_str(),
                );
                ModelCommand::Query(ModelQuery::Run(args))
            } else {
                ModelCommand::Nothing
            }
        },
        ModelsAction::Review(i) => {
            session.ui.selected_offer = Some(i);
            ModelCommand::Nothing
        },
        ModelsAction::RunReviewed => {
            let op = download_operation_id(millis);
            match download_arguments(
                &session.offers,
                session.ui.selected_offer,
                op.as_str(),
                session.ui.library_root.as_str(),
            ) {
                Err(e) => {
                    session.error = Some(e);
                    ModelCommand::Nothing
                },
                Ok(arguments) => {
                    session.progress = Vec::new();
                    session.terminal = None;
                    session.error = None;
                    session.job = Some(ModelsJob::Download);
                    session.ui.section = ModelsSection::Operations;
                    if session.spawning {
                        session.cancellable = true;
                        ModelCommand::Operation { operation_id: op, arguments }
                    } else {
                        ModelCommand::Nothing
                    }
                },
            }
        },
        ModelsAction::Cancel => {
            if session.cancellable {
                ModelCommand::Cancel
            } else {
                ModelCommand::Nothing
            }
        },
        ModelsAction::Recover { operation_id, action } => {
            let (title, message) = recovery_confirmation(operation_id.as_str(), action.as_str());
            ModelCommand::Confirm {
                title,
                message,
                on_confirm: ConfirmedAction::RecoverModelOperation { operation_id, action },
            }
        },
        ModelsAction::Guide { artifact_id, destination, category } => {
            let (title, message) = guided_confirmation(artifact_id.as_str(), destination.as_str());
            ModelCommand::Confirm {
                title,
                message,
                on_confirm: ConfirmedAction::GuideModel { artifact_id, destination, category },
            }
        },
        ModelsAction::SaveSettings => {
            let (title, message) = library_change_confirmation(session.ui.library_root.as_str());
            ModelCommand::Confirm {
                title,
                message,
                on_confirm: ConfirmedAction::SaveModelSettings {
                    root: session.ui.library_root.clone(),
                    provider_order: session.ui.provider_order.clone(),
                    enabled_providers: session.ui.enabled_providers.clone(),
                    xet_enabled: session.ui.xet_enabled,
                    keep_patterns: session.ui.keep_pattern.clone(),
                },
            }
        },
    }
}

/// A cancel that the application could not carry out: its error is shown,
/// nothing else changes.
pub fn model_cancel_failed<J, G, P>(session: &mut ModelsSession<J, G, P>, error: String)
    ensures
        opt_chars(final(session).error) == Some(error@),
        final(session).job == old(session).job,
        same_view(*final(session), *old(session)),
{
    session.error = Some(error);
}

} // verus!
