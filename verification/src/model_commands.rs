//! The command lines that the models view hands to the model tool, and the
//! confirmations it asks for first: resolving a model, downloading a
//! reviewed plan, changing the library settings, recovering an operation
//! and preparing a guided integration.

use vstd::prelude::*;

use crate::models::AcquisitionOffer;
use crate::text::{
    chars_of, decimal, lemma_strings_view_push, push_decimal, split_either, split_ranges_either,
    string_of_range, strings_view, trim, trim_bounds,
};

verus! {

/// The `--alternative` flags of the pieces, in order: one per non-blank
/// piece, trimmed.
pub open spec fn alternative_flags(pieces: Seq<Seq<char>>) -> Seq<Seq<char>>
    decreases pieces.len(),
{
    if pieces.len() == 0 {
        Seq::empty()
    } else {
        let rest = alternative_flags(pieces.drop_last());
        let p = trim(pieces.last());
        if p.len() > 0 {
            rest + seq!["--alternative"@, p]
        } else {
            rest
        }
    }
}

/// `resolve <locator> --family <family>` with the locator trimmed, then an
/// `--alternative` flag per alternative, the alternatives being separated
/// by commas or newlines.
pub open spec fn resolve_arguments_spec(
    locator: Seq<char>,
    family: Seq<char>,
    alternatives: Seq<char>,
) -> Seq<Seq<char>> {
    seq!["resolve"@, trim(locator), "--family"@, family] + alternative_flags(
        split_either(alternatives, ',', '\n'),
    )
}

fn push_str(r: &mut Vec<String>, s: &str)
    ensures
        strings_view(final(r)@) == strings_view(old(r)@).push(s@),
{
    let t = String::from_str(s);
    proof {
        lemma_strings_view_push(r@, t);
    }
    r.push(t);
}

fn push_string(r: &mut Vec<String>, s: String)
    ensures
        strings_view(final(r)@) == strings_view(old(r)@).push(s@),
{
    proof {
        lemma_strings_view_push(r@, s);
    }
    r.push(s);
}

/// The command line that resolves a model (see [`resolve_arguments_spec`]).
pub fn resolve_arguments(locator: &str, family: &str, alternatives: &str) -> (r: Vec<String>)
    ensures
        strings_view(r@) == resolve_arguments_spec(locator@, family@, alternatives@),
{
    let mut r: Vec<String> = Vec::new();
    push_str(&mut r, "resolve");
    let lv = chars_of(locator);
    let (s0, e0) = trim_bounds(&lv, 0, lv.len());
    assert(lv@.subrange(0, lv@.len() as int) =~= locator@);
    push_string(&mut r, string_of_range(&lv, s0, e0));
    push_str(&mut r, "--family");
    push_str(&mut r, family);
    let ghost base = strings_view(r@);
    assert(base =~= seq!["resolve"@, trim(locator@), "--family"@, family@]);
    let av = chars_of(alternatives);
    let pieces = split_ranges_either(&av, ',', '\n');
    let ghost ps = split_either(av@, ',', '\n');
    assert(ps.take(0) =~= Seq::<Seq<char>>::empty());
    assert(base + alternative_flags(ps.take(0)) =~= base);
    let mut k: usize = 0;
    while k < pieces.len()
        invariant
            k <= pieces.len(),
            pieces@.len() == ps.len(),
            ps == split_either(av@, ',', '\n'),
            av@ == alternatives@,
            forall|q: int|
                0 <= q < pieces@.len() ==> (#[trigger] pieces@[q]).0 <= pieces@[q].1 <= av.len()
                    && av@.subrange(pieces@[q].0 as int, pieces@[q].1 as int) == ps[q],
            strings_view(r@) == base + alternative_flags(ps.take(k as int)),
        decreases pieces.len() - k,
    {
        let (a, b) = pieces[k];
        let (s1, e1) = trim_bounds(&av, a, b);
        assert(ps.take(k + 1).drop_last() =~= ps.take(k as int));
        assert(ps.take(k + 1).last() == ps[k as int]);
        if s1 < e1 {
            push_str(&mut r, "--alternative");
            push_string(&mut r, string_of_range(&av, s1, e1));
            assert(strings_view(r@) =~= base + alternative_flags(ps.take(k + 1)));
        }
        k += 1;
    }
    assert(ps.take(ps.len() as int) =~= ps);
    r
}

/// The operation id of a download started at `millis` (milliseconds since
/// the Unix epoch).
pub fn download_operation_id(millis: u64) -> (r: String)
    ensures
        r@ == "ui-download-"@ + decimal(millis as nat),
{
    let mut r = String::from_str("ui-download-");
    push_decimal(&mut r, millis);
    r
}

pub open spec fn opt_view(o: Option<String>) -> Option<Seq<char>> {
    match o {
        Some(s) => Some(s@),
        None => None,
    }
}

/// Why the reviewed plan cannot be downloaded: none was reviewed.
pub open spec fn no_reviewed_plan() -> Seq<char> {
    "Aucun plan exact revu."@
}

/// Why the reviewed plan cannot be downloaded: it has no review digest.
pub open spec fn no_review_digest() -> Seq<char> {
    "Le plan revu n'a pas de digest immuable."@
}

/// The download command line of a reviewed offer: its locator, family,
/// the operation id and the review digest, then the library root when one
/// is set (not blank).
pub open spec fn download_arguments_spec(
    offer: AcquisitionOffer,
    digest: Seq<char>,
    operation_id: Seq<char>,
    library_root: Seq<char>,
) -> Seq<Seq<char>> {
    seq![
        "download"@,
        offer.locator@,
        "--family"@,
        offer.family@,
        "--operation-id"@,
        operation_id,
        "--review-digest"@,
        digest,
    ] + if trim(library_root).len() > 0 {
        seq!["--root"@, library_root]
    } else {
        Seq::empty()
    }
}

/// The command line that downloads the reviewed offer `selected` of
/// `offers`: refused when no offer (or an index past the list) was
/// reviewed, or when the offer has no review digest; otherwise see
/// [`download_arguments_spec`].
pub fn download_arguments(
    offers: &Vec<AcquisitionOffer>,
    selected: Option<usize>,
    operation_id: &str,
    library_root: &str,
) -> (r: Result<Vec<String>, String>)
    ensures
        match selected {
            Some(i) if i < offers.len() => match offers@[i as int].review_digest {
                Some(d) => r matches Ok(args) && strings_view(args@) == download_arguments_spec(
                    offers@[i as int],
                    d@,
                    operation_id@,
                    library_root@,
                ),
                None => r matches Err(e) && e@ == no_review_digest(),
            },
            _ => r matches Err(e) && e@ == no_reviewed_plan(),
        },
{
    let index = match selected {
        Some(i) => i,
        None => return Err(String::from_str("Aucun plan exact revu.")),
    };
    if index >= offers.len() {
        return Err(String::from_str("Aucun plan exact revu."));
    }
    let offer = &offers[index];
    let digest = match &offer.review_digest {
        Some(d) => d,
        None => return Err(String::from_str("Le plan revu n'a pas de digest immuable.")),
    };
    let mut r: Vec<String> = Vec::new();
    push_str(&mut r, "download");
    push_str(&mut r, offer.locator.as_str());
    push_str(&mut r, "--family");
    push_str(&mut r, offer.family.as_str());
    push_str(&mut r, "--operation-id");
    push_str(&mut r, operation_id);
    push_str(&mut r, "--review-digest");
    push_str(&mut r, digest.as_str());
    let rv = chars_of(library_root);
    let (s0, e0) = trim_bounds(&rv, 0, rv.len());
    assert(rv@.subrange(0, rv@.len() as int) =~= library_root@);
    if s0 < e0 {
        push_str(&mut r, "--root");
        push_str(&mut r, library_root);
    }
    assert(strings_view(r@) =~= download_arguments_spec(
        *offer,
        digest@,
        operation_id@,
        library_root@,
    ));
    Ok(r)
}

/// The command line that saves the library settings.
pub fn settings_arguments(
    root: &str,
    provider_order: &str,
    enabled_providers: &str,
    xet_enabled: bool,
    keep_patterns: &str,
) -> (r: Vec<String>)
    ensures
        strings_view(r@) == seq![
            "settings"@,
            "--set-library-root"@,
            root@,
            "--set-provider-order"@,
            provider_order@,
            "--set-enabled-providers"@,
            enabled_providers@,
            if xet_enabled {
                "--xet-enabled"@
            } else {
                "--no-xet-enabled"@
            },
            "--set-keep-patterns"@,
            keep_patterns@,
        ],
{
    let mut r: Vec<String> = Vec::new();
    push_str(&mut r, "settings");
    push_str(&mut r, "--set-library-root");
    push_str(&mut r, root);
    push_str(&mut r, "--set-provider-order");
    push_str(&mut r, provider_order);
    push_str(&mut r, "--set-enabled-providers");
    push_str(&mut r, enabled_providers);
    if xet_enabled {
        push_str(&mut r, "--xet-enabled");
    } else {
        push_str(&mut r, "--no-xet-enabled");
    }
    push_str(&mut r, "--set-keep-patterns");
    push_str(&mut r, keep_patterns);
    r
}

/// The command line that applies a recovery `action` to the staging owned
/// by `operation_id`, the action being also the capability it needs.
pub fn recovery_arguments(library_root: &str, operation_id: &str, action: &str) -> (r: Vec<String>)
    ensures
        strings_view(r@) == seq![
            "recover"@,
            "--root"@,
            library_root@,
            "--operation-id"@,
            operation_id@,
            "--action"@,
            action@,
            "--capability"@,
            action@,
        ],
{
    let mut r: Vec<String> = Vec::new();
    push_str(&mut r, "recover");
    push_str(&mut r, "--root");
    push_str(&mut r, library_root);
    push_str(&mut r, "--operation-id");
    push_str(&mut r, operation_id);
    push_str(&mut r, "--action");
    push_str(&mut r, action);
    push_str(&mut r, "--capability");
    push_str(&mut r, action);
    r
}

/// The command line that prepares the guided integration of an artifact
/// into `destination`, as migration `ui-guided-<millis>`, filed under
/// `category` when one is given.
pub fn guided_start_arguments(
    artifact_id: &str,
    destination: &str,
    millis: u64,
    category: Option<&str>,
) -> (r: Vec<String>)
    ensures
        strings_view(r@) == seq![
            "guided-start"@,
            "--artifact-id"@,
            artifact_id@,
            "--destination"@,
            destination@,
            "--migration-id"@,
            "ui-guided-"@ + decimal(millis as nat),
        ] + match category {
            Some(c) => seq!["--category"@, c@],
            None => Seq::empty(),
        },
{
    let mut r: Vec<String> = Vec::new();
    push_str(&mut r, "guided-start");
    push_str(&mut r, "--artifact-id");
    push_str(&mut r, artifact_id);
    push_str(&mut r, "--destination");
    push_str(&mut r, destination);
    push_str(&mut r, "--migration-id");
    let mut id = String::from_str("ui-guided-");
    push_decimal(&mut id, millis);
    push_string(&mut r, id);
    match category {
        Some(c) => {
            push_str(&mut r, "--category");
            push_str(&mut r, c);
        },
        None => {},
    }
    let ghost expected = seq![
        "guided-start"@,
        "--artifact-id"@,
        artifact_id@,
        "--destination"@,
        destination@,
        "--migration-id"@,
        "ui-guided-"@ + decimal(millis as nat),
    ] + match category {
        Some(c) => seq!["--category"@, c@],
        None => Seq::empty(),
    };
    assert(strings_view(r@) =~= expected);
    r
}

/// The confirmation asked before recovering an operation: its title and
/// its question.
pub fn recovery_confirmation(operation_id: &str, action: &str) -> (r: (String, String))
    ensures
        r.0@ == "Récupérer l'opération ?"@,
        r.1@ == "Appliquer « "@ + action@ + " » uniquement au staging possédé de l'opération exacte « "@
            + operation_id@ + " » ?"@,
{
    let mut body = String::from_str("Appliquer « ");
    body.append(action);
    body.append(" » uniquement au staging possédé de l'opération exacte « ");
    body.append(operation_id);
    body.append(" » ?");
    (String::from_str("Récupérer l'opération ?"), body)
}

/// The confirmation asked before a guided integration.
pub fn guided_confirmation(artifact_id: &str, destination: &str) -> (r: (String, String))
    ensures
        r.0@ == "Préparer l'intégration guidée ?"@,
        r.1@ == "Préparer l'artefact exact « "@ + artifact_id@ + " » pour "@ + destination@
            + " ?\nAucun fichier tiers ne sera réécrit automatiquement."@,
{
    let mut body = String::from_str("Préparer l'artefact exact « ");
    body.append(artifact_id);
    body.append(" » pour ");
    body.append(destination);
    body.append(" ?\nAucun fichier tiers ne sera réécrit automatiquement.");
    (String::from_str("Préparer l'intégration guidée ?"), body)
}

/// The confirmation asked before changing the model library.
pub fn library_change_confirmation(root: &str) -> (r: (String, String))
    ensures
        r.0@ == "Changer de bibliothèque ?"@,
        r.1@ == "Utiliser « "@ + root@
            + " » pour les prochains artefacts ?\nLes fichiers existants ne seront ni déplacés ni supprimés."@,
{
    let mut body = String::from_str("Utiliser « ");
    body.append(root);
    body.append(" » pour les prochains artefacts ?\nLes fichiers existants ne seront ni déplacés ni supprimés.");
    (String::from_str("Changer de bibliothèque ?"), body)
}

} // verus!
