//! The local-model workspace's state and its pure queries: which catalog
//! artifacts pass the filters, what a catalog row says of an artifact and
//! where it may be guided, and which download offers are proven to carry
//! the same bytes as the primary one.

use vstd::prelude::*;

use crate::models::{AcquisitionOffer, Artifact, CatalogSnapshot};
use crate::ports::join_comma;
use crate::text::{
    chars_of, contains_str, find, opt_chars, opt_str_eq, starts_with, str_eq, str_lowercase,
    str_starts_with, strings_view, to_lowercase, trim, trim_bounds,
};

verus! {

/// The sections of the workspace.
#[derive(Clone, Copy, Debug, Default, PartialEq, Eq, Structural)]
pub enum ModelsSection {
    #[default]
    Catalog,
    Download,
    Operations,
    Settings,
}

/// The catalog filters; an empty text filter and an unset flag let
/// everything through.
#[derive(Clone, Debug, Default)]
pub struct ModelFilters {
    pub family: String,
    pub tool: String,
    pub format: String,
    pub variant: String,
    pub protected_only: bool,
    pub duplicates_only: bool,
}

/// The editable state of the workspace's forms.
#[derive(Clone, Debug)]
pub struct ModelsUiState {
    pub section: ModelsSection,
    pub filters: ModelFilters,
    pub locator: String,
    pub alternatives: String,
    pub family: String,
    pub selected_offer: Option<usize>,
    pub manual_provider: String,
    pub library_root: String,
    pub provider_order: String,
    pub enabled_providers: String,
    pub xet_enabled: bool,
    pub keep_pattern: String,
}

impl Default for ModelsUiState {
    /// The catalog section, no filter, the `llm` family, every provider
    /// enabled in the order ollama, huggingface, lm-studio, direct, and Xet
    /// transfers on.
    fn default() -> (r: Self)
        ensures
            r.section == ModelsSection::Catalog,
            r.filters.family@.len() == 0 && r.filters.tool@.len() == 0 && r.filters.format@.len()
                == 0 && r.filters.variant@.len() == 0,
            !r.filters.protected_only && !r.filters.duplicates_only,
            r.locator@.len() == 0 && r.alternatives@.len() == 0,
            r.family@ == "llm"@,
            r.selected_offer is None,
            r.manual_provider@.len() == 0 && r.library_root@.len() == 0,
            r.provider_order@ == "ollama,huggingface,lm-studio,direct"@,
            r.enabled_providers@ == "ollama,huggingface,lm-studio,direct"@,
            r.xet_enabled,
            r.keep_pattern@.len() == 0,
    {
        ModelsUiState {
            section: ModelsSection::Catalog,
            filters: ModelFilters {
                family: String::new(),
                tool: String::new(),
                format: String::new(),
                variant: String::new(),
                protected_only: false,
                duplicates_only: false,
            },
            locator: String::new(),
            alternatives: String::new(),
            family: String::from_str("llm"),
            selected_offer: None,
            manual_provider: String::new(),
            library_root: String::new(),
            provider_order: String::from_str("ollama,huggingface,lm-studio,direct"),
            enabled_providers: String::from_str("ollama,huggingface,lm-studio,direct"),
            xet_enabled: true,
            keep_pattern: String::new(),
        }
    }
}

/// What the workspace asks the application to do.
#[derive(Clone, Debug, PartialEq, Eq)]
pub enum ModelsAction {
    Refresh,
    Resolve,
    Review(usize),
    RunReviewed,
    Cancel,
    Recover { operation_id: String, action: String },
    Guide { artifact_id: String, destination: String, category: Option<String> },
    SaveSettings,
}

/// `o`'s text, or the empty text when absent.
pub open spec fn text_or_empty(o: Option<String>) -> Seq<char> {
    match o {
        Some(s) => s@,
        None => Seq::empty(),
    }
}

/// `needle` occurs in the lowercase form of `text`.
pub open spec fn lower_contains(text: Seq<char>, needle: Seq<char>) -> bool {
    find(str_lowercase(text), needle) is Some
}

/// An artifact passes the filters: same family, same format, referenced by
/// the tool, the lowercased variant found in its lowercased id,
/// quantization or category, protected, in a duplicate group (each only
/// when that filter is set).
pub open spec fn artifact_selected(a: Artifact, f: ModelFilters) -> bool {
    let needle = str_lowercase(f.variant@);
    &&& (f.family@.len() == 0 || a.family@ == f.family@)
    &&& (f.format@.len() == 0 || a.format@ == f.format@)
    &&& (f.tool@.len() == 0 || exists|k: int|
        0 <= k < a.references@.len() && (#[trigger] a.references@[k]).tool@ == f.tool@)
    &&& (needle.len() == 0 || lower_contains(a.artifact_id@, needle) || lower_contains(
        text_or_empty(a.quantization),
        needle,
    ) || lower_contains(text_or_empty(a.category), needle))
    &&& (!f.protected_only || a.protection.protected)
    &&& (!f.duplicates_only || a.duplicate_group is Some)
}

/// The artifacts of `s` that pass the filters, in order.
pub open spec fn select_artifacts(s: Seq<Artifact>, f: ModelFilters) -> Seq<Artifact>
    decreases s.len(),
{
    if s.len() == 0 {
        Seq::empty()
    } else {
        let prev = select_artifacts(s.drop_last(), f);
        if artifact_selected(s.last(), f) {
            prev.push(s.last())
        } else {
            prev
        }
    }
}

fn references_tool(a: &Artifact, tool: &String) -> (r: bool)
    ensures
        r == exists|k: int| 0 <= k < a.references@.len() && (#[trigger] a.references@[k]).tool@ == tool@,
{
    let mut i: usize = 0;
    while i < a.references.len()
        invariant
            i <= a.references@.len(),
            forall|k: int| 0 <= k < i ==> (#[trigger] a.references@[k]).tool@ != tool@,
        decreases a.references@.len() - i,
    {
        if str_eq(a.references[i].tool.as_str(), tool.as_str()) {
            return true;
        }
        i = i + 1;
    }
    false
}

fn lower_text_contains(text: &Option<String>, needle: &String) -> (r: bool)
    ensures
        r == lower_contains(text_or_empty(*text), needle@),
{
    let lower = match text {
        Some(t) => to_lowercase(t.as_str()),
        None => to_lowercase(""),
    };
    proof {
        if text is None {
            reveal_strlit("");
            assert(""@ =~= Seq::<char>::empty());
        }
    }
    contains_str(lower.as_str(), needle.as_str())
}

fn artifact_passes(a: &Artifact, filters: &ModelFilters, needle: &String) -> (r: bool)
    requires
        needle@ == str_lowercase(filters.variant@),
    ensures
        r == artifact_selected(*a, *filters),
{
    if !(filters.family.as_str().is_empty() || str_eq(a.family.as_str(), filters.family.as_str())) {
        return false;
    }
    if !(filters.format.as_str().is_empty() || str_eq(a.format.as_str(), filters.format.as_str())) {
        return false;
    }
    if !(filters.tool.as_str().is_empty() || references_tool(a, &filters.tool)) {
        return false;
    }
    if !needle.as_str().is_empty() {
        let id_lower = to_lowercase(a.artifact_id.as_str());
        if !(contains_str(id_lower.as_str(), needle.as_str()) || lower_text_contains(
            &a.quantization,
            needle,
        ) || lower_text_contains(&a.category, needle)) {
            return false;
        }
    }
    if filters.protected_only && !a.protection.protected {
        return false;
    }
    if filters.duplicates_only && a.duplicate_group.is_none() {
        return false;
    }
    true
}

/// The catalog artifacts that pass `filters`, in catalog order.
pub fn filtered_artifacts<'a>(snapshot: &'a CatalogSnapshot, filters: &ModelFilters) -> (r: Vec<
    &'a Artifact,
>)
    ensures
        r@.map_values(|a: &Artifact| *a) == select_artifacts(snapshot.artifacts@, *filters),
{
    let needle = to_lowercase(filters.variant.as_str());
    let mut out: Vec<&'a Artifact> = Vec::new();
    let mut i: usize = 0;
    let ghost s = snapshot.artifacts@;
    while i < snapshot.artifacts.len()
        invariant
            i <= s.len(),
            s == snapshot.artifacts@,
            needle@ == str_lowercase(filters.variant@),
            out@.map_values(|a: &Artifact| *a) == select_artifacts(s.take(i as int), *filters),
        decreases s.len() - i,
    {
        assert(s.take(i + 1).drop_last() =~= s.take(i as int));
        let a = &snapshot.artifacts[i];
        if artifact_passes(a, filters, &needle) {
            let ghost before = out@;
            out.push(a);
            assert(out@.map_values(|a: &Artifact| *a) =~= before.map_values(|a: &Artifact| *a).push(
                *a,
            ));
        }
        i = i + 1;
    }
    assert(s.take(s.len() as int) =~= s);
    out
}

/// The offer at `i` carries the same bytes as the primary one: same
/// trusted digest, immutable revision, file name, format, quantization and
/// category.
pub open spec fn same_bytes(o: AcquisitionOffer, p: AcquisitionOffer) -> bool {
    &&& opt_chars(o.trusted_digest) == opt_chars(p.trusted_digest)
    &&& opt_chars(o.immutable_revision) == opt_chars(p.immutable_revision)
    &&& o.filename@ == p.filename@
    &&& o.format@ == p.format@
    &&& opt_chars(o.quantization) == opt_chars(p.quantization)
    &&& opt_chars(o.category) == opt_chars(p.category)
}

/// Whether offer `i` may be compared with the primary (first) offer: when
/// the primary has no trusted digest or no immutable revision only the
/// primary itself; otherwise every offer with the same bytes.
pub open spec fn comparable(offers: Seq<AcquisitionOffer>, i: int) -> bool {
    let p = offers[0];
    if p.trusted_digest is None || p.immutable_revision is None {
        i == 0
    } else {
        same_bytes(offers[i], p)
    }
}

/// The indices below `n` of the offers comparable with the primary one.
pub open spec fn comparable_upto(offers: Seq<AcquisitionOffer>, n: int) -> Seq<usize>
    decreases n,
{
    if n <= 0 {
        Seq::empty()
    } else {
        let prev = comparable_upto(offers, n - 1);
        if comparable(offers, n - 1) {
            prev.push((n - 1) as usize)
        } else {
            prev
        }
    }
}

/// The indices of the offers proven to carry the primary offer's exact
/// bytes (see [`comparable`]); none when there is no offer.
pub fn proven_offer_indices(offers: &[AcquisitionOffer]) -> (r: Vec<usize>)
    ensures
        r@ == (if offers@.len() == 0 {
            Seq::empty()
        } else {
            comparable_upto(offers@, offers@.len() as int)
        }),
{
    if offers.len() == 0 {
        return Vec::new();
    }
    let primary = &offers[0];
    let unproven = primary.trusted_digest.is_none() || primary.immutable_revision.is_none();
    let mut out: Vec<usize> = Vec::new();
    let mut i: usize = 0;
    while i < offers.len()
        invariant
            i <= offers@.len(),
            offers@.len() > 0,
            *primary == offers@[0],
            unproven == (primary.trusted_digest is None || primary.immutable_revision is None),
            out@ == comparable_upto(offers@, i as int),
        decreases offers@.len() - i,
    {
        let o = &offers[i];
        let keep = if unproven {
            i == 0
        } else {
            opt_str_eq(&o.trusted_digest, &primary.trusted_digest) && opt_str_eq(
                &o.immutable_revision,
                &primary.immutable_revision,
            ) && str_eq(o.filename.as_str(), primary.filename.as_str()) && str_eq(
                o.format.as_str(),
                primary.format.as_str(),
            ) && opt_str_eq(&o.quantization, &primary.quantization) && opt_str_eq(
                &o.category,
                &primary.category,
            )
        };
        if keep {
            out.push(i);
        }
        i = i + 1;
    }
    out
}


proof fn lemma_comparable_upto(offers: Seq<AcquisitionOffer>, n: int)
    requires
        1 <= n <= offers.len(),
    ensures
        comparable_upto(offers, n).len() > 0,
        comparable_upto(offers, n)[0] == 0,
    decreases n,
{
    if n > 1 {
        lemma_comparable_upto(offers, n - 1);
    } else {
        assert(comparable_upto(offers, 0).len() == 0);
        assert(comparable(offers, 0));
    }
}

/// The primary offer is always comparable with itself: when there is an
/// offer, the proven indices start with 0.
pub proof fn law_primary_offer_is_proven(offers: Seq<AcquisitionOffer>)
    requires
        offers.len() > 0,
    ensures
        comparable_upto(offers, offers.len() as int).len() > 0,
        comparable_upto(offers, offers.len() as int)[0] == 0,
{
    lemma_comparable_upto(offers, offers.len() as int);
}

// ---------------------------------------------------------------------------
// What the download and operations sections offer
// ---------------------------------------------------------------------------

/// Offers can be compared once an exact locator is typed, while no
/// operation runs.
pub fn can_compare(busy: bool, locator: &str) -> (r: bool)
    ensures
        r == (!busy && trim(locator@).len() > 0),
{
    if busy {
        return false;
    }
    let v = chars_of(locator);
    let (start, end) = trim_bounds(&v, 0, v.len());
    assert(v@.subrange(0, v@.len() as int) =~= locator@);
    start < end
}

/// An offer can be reviewed when it is executable without conversion and
/// no operation runs.
pub fn can_review(offer: &AcquisitionOffer, busy: bool) -> (r: bool)
    ensures
        r == (offer.executable && !offer.conversion_required && !busy),
{
    offer.executable && !offer.conversion_required && !busy
}

/// The reviewed plan the download section shows: the selected offer, when
/// it exists and carries a review digest.
pub fn reviewed_offer_index(offers: &Vec<AcquisitionOffer>, selected: Option<usize>) -> (r: Option<
    usize,
>)
    ensures
        r == (match selected {
            Some(i) => if i < offers.len() && offers@[i as int].review_digest is Some {
                Some(i)
            } else {
                None
            },
            None => None,
        }),
{
    match selected {
        Some(i) => if i < offers.len() && offers[i].review_digest.is_some() {
            Some(i)
        } else {
            None
        },
        None => None,
    }
}

/// The action a recovery journal offers: discarding the partial staging
/// owned by exactly that operation, when the journal says it is
/// discardable; nothing otherwise (a resumable one only explains itself).
pub fn recovery_action(journal_state: &str, operation_id: &str) -> (r: Option<ModelsAction>)
    ensures
        journal_state@ == "discardable"@ ==> (r matches Some(ModelsAction::Recover { operation_id: o, action: a })
            && o@ == operation_id@ && a@ == "discard-partial"@),
        journal_state@ != "discardable"@ ==> r is None,
{
    if str_eq(journal_state, "discardable") {
        Some(
            ModelsAction::Recover {
                operation_id: String::from_str(operation_id),
                action: String::from_str("discard-partial"),
            },
        )
    } else {
        None
    }
}

/// The artifact filter keeps exactly the artifacts that pass it, in the
/// order of the snapshot.
pub proof fn law_selection_is_a_filter(s: Seq<Artifact>, f: ModelFilters)
    ensures
        select_artifacts(s, f) == s.filter(|a: Artifact| artifact_selected(a, f)),
    decreases s.len(),
{
    reveal(Seq::filter);
    if s.len() > 0 {
        law_selection_is_a_filter(s.drop_last(), f);
    }
}

/// The proven indices below `n` are increasing and are exactly the indices
/// of the offers comparable with the primary one.
pub proof fn law_proven_indices_are_the_comparable_ones(offers: Seq<AcquisitionOffer>, n: int)
    requires
        0 <= n <= offers.len() <= usize::MAX,
    ensures
        forall|i: int, j: int|
            0 <= i < j < comparable_upto(offers, n).len() ==> #[trigger] comparable_upto(
                offers,
                n,
            )[i] < #[trigger] comparable_upto(offers, n)[j],
        forall|m: int|
            0 <= m < comparable_upto(offers, n).len() ==> #[trigger] comparable_upto(offers, n)[m]
                < n,
        forall|k: int|
            0 <= k < n ==> (comparable_upto(offers, n).contains(k as usize) <==> #[trigger] comparable(
                offers,
                k,
            )),
    decreases n,
{
    if n > 0 {
        law_proven_indices_are_the_comparable_ones(offers, n - 1);
        let prev = comparable_upto(offers, n - 1);
        let cur = comparable_upto(offers, n);
        assert forall|k: int| 0 <= k < n implies (cur.contains(k as usize) <==> #[trigger] comparable(
            offers,
            k,
        )) by {
            if k < n - 1 {
                if cur.contains(k as usize) {
                    let m = choose|m: int| 0 <= m < cur.len() && cur[m] == k as usize;
                    if m < prev.len() {
                        assert(prev[m] == k as usize);
                    }
                }
                if prev.contains(k as usize) {
                    let m = choose|m: int| 0 <= m < prev.len() && prev[m] == k as usize;
                    assert(cur[m] == k as usize);
                }
            } else {
                if comparable(offers, k) {
                    assert(cur[cur.len() - 1] == k as usize);
                }
                if cur.contains(k as usize) {
                    let m = choose|m: int| 0 <= m < cur.len() && cur[m] == k as usize;
                    if m < prev.len() {
                        assert(prev[m] < n - 1);
                    }
                }
            }
        }
    }
}

// ---------------------------------------------------------------------------
// What a catalog row says of an artifact
// ---------------------------------------------------------------------------

/// The status of a catalog row: protected (with its reasons joined by
/// `", "`), a verified exact duplicate, or the identity's state.
pub open spec fn artifact_status_spec(a: Artifact) -> Seq<char> {
    if a.protection.protected {
        "protégé : "@ + join_comma(strings_view(a.protection.reasons@))
    } else if a.duplicate_group is Some {
        "doublon exact vérifié"@
    } else {
        a.identity.state@
    }
}

fn join_comma_space(parts: &Vec<String>) -> (r: String)
    ensures
        r@ == join_comma(strings_view(parts@)),
{
    let ghost ps = strings_view(parts@);
    let mut r = String::new();
    let mut i: usize = 0;
    assert(ps.take(0) =~= Seq::<Seq<char>>::empty());
    while i < parts.len()
        invariant
            i <= parts.len(),
            ps == strings_view(parts@),
            ps.len() == parts.len(),
            r@ == join_comma(ps.take(i as int)),
        decreases parts.len() - i,
    {
        assert(ps.take(i + 1).drop_last() =~= ps.take(i as int));
        assert(ps.take(i + 1).last() == parts@[i as int]@);
        let ghost before = r@;
        if i > 0 {
            r.append(", ");
            proof {
                reveal_strlit(", ");
                assert(", "@ =~= seq![',', ' ']);
            }
        } else {
            assert(ps.take(1) =~= seq![ps[0]]);
            assert(r@ =~= Seq::<char>::empty());
        }
        r.append(parts[i].as_str());
        proof {
            if i > 0 {
                assert(r@ =~= before + seq![',', ' '] + ps[i as int]);
            }
        }
        i = i + 1;
    }
    assert(ps.take(parts.len() as int) =~= ps);
    r
}

/// The status a catalog row shows for `a` (see [`artifact_status_spec`]).
pub fn artifact_status(a: &Artifact) -> (r: String)
    ensures
        r@ == artifact_status_spec(*a),
{
    if a.protection.protected {
        let mut r = String::from_str("protégé : ");
        let joined = join_comma_space(&a.protection.reasons);
        r.append(joined.as_str());
        r
    } else if a.duplicate_group.is_some() {
        String::from_str("doublon exact vérifié")
    } else {
        a.identity.state.clone()
    }
}

/// Where a catalog row may guide its artifact. Only artifacts of the
/// managed library (id `library:…`) are offered anything: Jan for a
/// language model, ComfyUI for an image model; each offer is enabled only
/// for a verified identity while nothing runs (and, for ComfyUI, a known
/// category), and an unverified identity is explained.
#[derive(Clone, Copy, Debug, PartialEq, Eq)]
pub struct GuideOffers {
    pub in_library: bool,
    /// `Some(enabled)` when the Jan button is shown.
    pub jan: Option<bool>,
    /// `Some(enabled)` when the ComfyUI button is shown.
    pub comfyui: Option<bool>,
    /// The identity is too weak for any integration.
    pub explain_identity: bool,
}

pub open spec fn guide_offers_spec(a: Artifact, busy: bool) -> GuideOffers {
    let verified = a.identity.state@ == "verified"@;
    if !starts_with(a.artifact_id@, "library:"@) {
        GuideOffers { in_library: false, jan: None, comfyui: None, explain_identity: false }
    } else {
        GuideOffers {
            in_library: true,
            jan: if a.family@ == "llm"@ {
                Some(verified && !busy)
            } else {
                None
            },
            comfyui: if a.family@ == "image"@ {
                Some(verified && a.category is Some && !busy)
            } else {
                None
            },
            explain_identity: !verified,
        }
    }
}

/// What a catalog row offers for `a` (see [`guide_offers_spec`]).
pub fn guide_offers(a: &Artifact, busy: bool) -> (r: GuideOffers)
    ensures
        r == guide_offers_spec(*a, busy),
{
    if !str_starts_with(a.artifact_id.as_str(), "library:") {
        return GuideOffers { in_library: false, jan: None, comfyui: None, explain_identity: false };
    }
    let verified = str_eq(a.identity.state.as_str(), "verified");
    let jan = if str_eq(a.family.as_str(), "llm") {
        Some(verified && !busy)
    } else {
        None
    };
    let comfyui = if str_eq(a.family.as_str(), "image") {
        Some(verified && a.category.is_some() && !busy)
    } else {
        None
    };
    GuideOffers { in_library: true, jan, comfyui, explain_identity: !verified }
}

/// The action of a row's guide button: Jan takes no category, ComfyUI the
/// artifact's.
pub fn guide_action(a: &Artifact, to_comfyui: bool) -> (r: ModelsAction)
    ensures
        r matches ModelsAction::Guide { artifact_id, destination, category } && artifact_id@
            == a.artifact_id@ && (if to_comfyui {
            destination@ == "comfyui"@ && category == a.category
        } else {
            destination@ == "jan"@ && category is None
        }),
{
    let artifact_id = a.artifact_id.clone();
    if to_comfyui {
        ModelsAction::Guide {
            artifact_id,
            destination: String::from_str("comfyui"),
            category: a.category.clone(),
        }
    } else {
        ModelsAction::Guide { artifact_id, destination: String::from_str("jan"), category: None }
    }
}

proof fn lemma_selected_is_listed(s: Seq<Artifact>, f: ModelFilters, i: int)
    requires
        0 <= i < s.len(),
        artifact_selected(s[i], f),
    ensures
        select_artifacts(s, f).contains(s[i]),
    decreases s.len(),
{
    let r = select_artifacts(s, f);
    if i == s.len() - 1 {
        assert(r[r.len() - 1] == s[i]);
    } else {
        assert(s.drop_last()[i] == s[i]);
        lemma_selected_is_listed(s.drop_last(), f, i);
        let prev = select_artifacts(s.drop_last(), f);
        let k = choose|k: int| 0 <= k < prev.len() && prev[k] == s[i];
        assert(r[k] == s[i]);
    }
}

/// The variant filter searches the id, the quantization and the category:
/// an artifact that passes the family, format, tool, protection and
/// duplicate filters is listed as soon as the lowercase form of any of
/// these contains the lowercased variant (whatever the variant, empty
/// included).
pub proof fn law_variant_searches_id_quantization_and_category(s: Seq<Artifact>, f: ModelFilters, i: int)
    requires
        0 <= i < s.len(),
        f.family@.len() == 0 || s[i].family@ == f.family@,
        f.format@.len() == 0 || s[i].format@ == f.format@,
        f.tool@.len() == 0 || exists|k: int|
            0 <= k < s[i].references@.len() && (#[trigger] s[i].references@[k]).tool@ == f.tool@,
        !f.protected_only || s[i].protection.protected,
        !f.duplicates_only || s[i].duplicate_group is Some,
        lower_contains(s[i].artifact_id@, str_lowercase(f.variant@)) || lower_contains(
            text_or_empty(s[i].quantization),
            str_lowercase(f.variant@),
        ) || lower_contains(text_or_empty(s[i].category), str_lowercase(f.variant@)),
    ensures
        select_artifacts(s, f).contains(s[i]),
{
    lemma_selected_is_listed(s, f, i);
}

/// Every listed artifact passes each filter: same family and format when
/// those are set, referenced by the tool when it is set, the lowercased
/// variant (when set) found in its lowercased id, quantization or
/// category, protected and duplicated when those are asked; and every
/// listed artifact is one of the snapshot's.
pub proof fn law_listed_artifacts_pass_every_filter(s: Seq<Artifact>, f: ModelFilters)
    ensures
        forall|k: int| 0 <= k < select_artifacts(s, f).len() ==> {
            let a = #[trigger] select_artifacts(s, f)[k];
            let needle = str_lowercase(f.variant@);
            &&& s.contains(a)
            &&& f.family@.len() == 0 || a.family@ == f.family@
            &&& f.format@.len() == 0 || a.format@ == f.format@
            &&& f.tool@.len() == 0 || exists|q: int|
                0 <= q < a.references@.len() && (#[trigger] a.references@[q]).tool@ == f.tool@
            &&& needle.len() == 0 || lower_contains(a.artifact_id@, needle) || lower_contains(
                text_or_empty(a.quantization),
                needle,
            ) || lower_contains(text_or_empty(a.category), needle)
            &&& !f.protected_only || a.protection.protected
            &&& !f.duplicates_only || a.duplicate_group is Some
        },
    decreases s.len(),
{
    if s.len() > 0 {
        law_listed_artifacts_pass_every_filter(s.drop_last(), f);
        let prev = select_artifacts(s.drop_last(), f);
        let r = select_artifacts(s, f);
        assert forall|k: int| 0 <= k < r.len() implies s.contains(#[trigger] r[k]) && artifact_selected(r[k], f) by {
            if k < prev.len() {
                assert(r[k] == prev[k]);
                assert(s.drop_last().contains(prev[k]));
                let q = choose|q: int| 0 <= q < s.drop_last().len() && s.drop_last()[q] == prev[k];
                assert(s[q] == prev[k]);
                lemma_listed_are_selected(s.drop_last(), f, k);
            } else {
                assert(r[k] == s.last());
                assert(s[s.len() - 1] == s.last());
            }
        }
    }
}

proof fn lemma_listed_are_selected(s: Seq<Artifact>, f: ModelFilters, k: int)
    requires
        0 <= k < select_artifacts(s, f).len(),
    ensures
        artifact_selected(select_artifacts(s, f)[k], f),
    decreases s.len(),
{
    let prev = select_artifacts(s.drop_last(), f);
    if k < prev.len() {
        assert(select_artifacts(s, f)[k] == prev[k]);
        lemma_listed_are_selected(s.drop_last(), f, k);
    }
}

} // verus!
