//! The confirmations that guard the Docker view's destructive actions:
//! what each one says, from the last snapshot, and what it then carries out.

use vstd::prelude::*;

use crate::port_plan::PortMove;
use crate::text::{chars_eq, chars_of, decimal, push_decimal, str_eq};

verus! {

/// A container of the snapshot, as the confirmations read it.
#[derive(Clone, Debug, PartialEq, Eq)]
pub struct ContainerInfo {
    pub id: String,
    pub name: String,
    /// The size of its writable layer, empty when Docker reported none.
    pub rw_size: String,
}

/// An image of the snapshot.
#[derive(Clone, Debug, PartialEq, Eq)]
pub struct ImageInfo {
    pub id: String,
    /// `repository:tag`, as listed.
    pub identity: String,
    /// What `docker rmi` is given for it.
    pub rmi_reference: String,
    pub size: String,
    /// It has no tag.
    pub untagged: bool,
}

/// A volume of the snapshot.
#[derive(Clone, Debug, PartialEq, Eq)]
pub struct VolumeInfo {
    pub name: String,
    /// Its size, once computed.
    pub size: Option<String>,
}

/// The Docker objects of the last listing.
#[derive(Clone, Debug, PartialEq, Eq)]
pub struct DockerSnapshot {
    pub containers: Vec<ContainerInfo>,
    pub images: Vec<ImageInfo>,
    pub volumes: Vec<VolumeInfo>,
}

/// A destructive action of the Docker view, before confirmation.
#[derive(Clone, Debug, PartialEq, Eq)]
pub enum DockerAction {
    ApplyPortReassignment(Vec<PortMove>),
    StopContainer(String),
    RemoveContainer(String),
    RemoveImage(String),
    RemoveVolume(String),
}

/// What a confirmed action carries out, with the name it was announced by.
#[derive(Clone, Debug, PartialEq, Eq)]
pub enum DockerPending {
    ApplyPortReassignment(Vec<PortMove>),
    StopContainer { id: String, name: String },
    RemoveContainer { id: String, name: String },
    RemoveImage { reference: String, name: String },
    RemoveVolume(String),
}

// ---------------------------------------------------------------------------
// Lookups
// ---------------------------------------------------------------------------

/// The first container of `cs` with id `id`.
pub open spec fn first_container(cs: Seq<ContainerInfo>, id: Seq<char>) -> Option<int>
    decreases cs.len(),
{
    if cs.len() == 0 {
        None
    } else {
        match first_container(cs.drop_last(), id) {
            Some(k) => Some(k),
            None => if cs.last().id@ == id {
                Some(cs.len() - 1)
            } else {
                None
            },
        }
    }
}

/// The first image of `is` that `docker rmi` knows as `reference`.
pub open spec fn first_image(is: Seq<ImageInfo>, reference: Seq<char>) -> Option<int>
    decreases is.len(),
{
    if is.len() == 0 {
        None
    } else {
        match first_image(is.drop_last(), reference) {
            Some(k) => Some(k),
            None => if is.last().rmi_reference@ == reference {
                Some(is.len() - 1)
            } else {
                None
            },
        }
    }
}

/// How many images of `is` have the image id `id`.
pub open spec fn images_with_id(is: Seq<ImageInfo>, id: Seq<char>) -> nat
    decreases is.len(),
{
    if is.len() == 0 {
        0
    } else {
        images_with_id(is.drop_last(), id) + if is.last().id@ == id {
            1nat
        } else {
            0nat
        }
    }
}

/// The first volume of `vs` named `name`.
pub open spec fn first_volume(vs: Seq<VolumeInfo>, name: Seq<char>) -> Option<int>
    decreases vs.len(),
{
    if vs.len() == 0 {
        None
    } else {
        match first_volume(vs.drop_last(), name) {
            Some(k) => Some(k),
            None => if vs.last().name@ == name {
                Some(vs.len() - 1)
            } else {
                None
            },
        }
    }
}

/// How many distinct values `s` holds.
pub open spec fn distinct_count(s: Seq<Seq<char>>) -> nat
    decreases s.len(),
{
    if s.len() == 0 {
        0
    } else {
        distinct_count(s.drop_last()) + if s.drop_last().contains(s.last()) {
            0nat
        } else {
            1nat
        }
    }
}

proof fn lemma_first_container(cs: Seq<ContainerInfo>, id: Seq<char>)
    ensures
        first_container(cs, id) matches Some(k) ==> 0 <= k < cs.len() && cs[k].id@ == id,
    decreases cs.len(),
{
    if cs.len() > 0 {
        lemma_first_container(cs.drop_last(), id);
    }
}

proof fn lemma_first_image(is: Seq<ImageInfo>, reference: Seq<char>)
    ensures
        first_image(is, reference) matches Some(k) ==> 0 <= k < is.len() && is[k].rmi_reference@
            == reference,
    decreases is.len(),
{
    if is.len() > 0 {
        lemma_first_image(is.drop_last(), reference);
    }
}

proof fn lemma_first_volume(vs: Seq<VolumeInfo>, name: Seq<char>)
    ensures
        first_volume(vs, name) matches Some(k) ==> 0 <= k < vs.len() && vs[k].name@ == name,
    decreases vs.len(),
{
    if vs.len() > 0 {
        lemma_first_volume(vs.drop_last(), name);
    }
}

fn find_container(cs: &Vec<ContainerInfo>, id: &str) -> (r: Option<usize>)
    ensures
        match first_container(cs@, id@) {
            Some(k) => r == Some(k as usize),
            None => r is None,
        },
        r matches Some(k) ==> k < cs.len(),
{
    let mut i: usize = 0;
    let mut found: Option<usize> = None;
    assert(cs@.take(0) =~= Seq::<ContainerInfo>::empty());
    while i < cs.len()
        invariant
            i <= cs.len(),
            match first_container(cs@.take(i as int), id@) {
                Some(k) => found == Some(k as usize),
                None => found is None,
            },
        decreases cs.len() - i,
    {
        assert(cs@.take(i + 1).drop_last() =~= cs@.take(i as int));
        if found.is_none() && str_eq(cs[i].id.as_str(), id) {
            found = Some(i);
        }
        i += 1;
    }
    assert(cs@.take(cs.len() as int) =~= cs@);
    proof {
        lemma_first_container(cs@, id@);
    }
    found
}

fn find_image(is: &Vec<ImageInfo>, reference: &str) -> (r: Option<usize>)
    ensures
        match first_image(is@, reference@) {
            Some(k) => r == Some(k as usize),
            None => r is None,
        },
        r matches Some(k) ==> k < is.len(),
{
    let mut i: usize = 0;
    let mut found: Option<usize> = None;
    assert(is@.take(0) =~= Seq::<ImageInfo>::empty());
    while i < is.len()
        invariant
            i <= is.len(),
            match first_image(is@.take(i as int), reference@) {
                Some(k) => found == Some(k as usize),
                None => found is None,
            },
        decreases is.len() - i,
    {
        assert(is@.take(i + 1).drop_last() =~= is@.take(i as int));
        if found.is_none() && str_eq(is[i].rmi_reference.as_str(), reference) {
            found = Some(i);
        }
        i += 1;
    }
    assert(is@.take(is.len() as int) =~= is@);
    proof {
        lemma_first_image(is@, reference@);
    }
    found
}

fn count_images_with_id(is: &Vec<ImageInfo>, id: &str) -> (r: usize)
    ensures
        r == images_with_id(is@, id@),
{
    let mut i: usize = 0;
    let mut n: usize = 0;
    assert(is@.take(0) =~= Seq::<ImageInfo>::empty());
    while i < is.len()
        invariant
            i <= is.len(),
            n <= i,
            n == images_with_id(is@.take(i as int), id@),
        decreases is.len() - i,
    {
        assert(is@.take(i + 1).drop_last() =~= is@.take(i as int));
        if str_eq(is[i].id.as_str(), id) {
            n += 1;
        }
        i += 1;
    }
    assert(is@.take(is.len() as int) =~= is@);
    n
}

fn find_volume(vs: &Vec<VolumeInfo>, name: &str) -> (r: Option<usize>)
    ensures
        match first_volume(vs@, name@) {
            Some(k) => r == Some(k as usize),
            None => r is None,
        },
        r matches Some(k) ==> k < vs.len(),
{
    let mut i: usize = 0;
    let mut found: Option<usize> = None;
    assert(vs@.take(0) =~= Seq::<VolumeInfo>::empty());
    while i < vs.len()
        invariant
            i <= vs.len(),
            match first_volume(vs@.take(i as int), name@) {
                Some(k) => found == Some(k as usize),
                None => found is None,
            },
        decreases vs.len() - i,
    {
        assert(vs@.take(i + 1).drop_last() =~= vs@.take(i as int));
        if found.is_none() && str_eq(vs[i].name.as_str(), name) {
            found = Some(i);
        }
        i += 1;
    }
    assert(vs@.take(vs.len() as int) =~= vs@);
    proof {
        lemma_first_volume(vs@, name@);
    }
    found
}

/// The files of a list of moves.
pub open spec fn move_files(moves: Seq<PortMove>) -> Seq<Seq<char>> {
    moves.map_values(|m: PortMove| m.file@)
}

fn count_files(moves: &Vec<PortMove>) -> (r: usize)
    ensures
        r == distinct_count(move_files(moves@)),
{
    let ghost files = move_files(moves@);
    let mut seen: Vec<Vec<char>> = Vec::new();
    let mut i: usize = 0;
    assert(files.take(0) =~= Seq::<Seq<char>>::empty());
    while i < moves.len()
        invariant
            i <= moves.len(),
            files == move_files(moves@),
            seen@.len() == distinct_count(files.take(i as int)),
            seen@.len() <= i,
            forall|x: Seq<char>| files.take(i as int).contains(x) <==> exists|k: int|
                0 <= k < seen@.len() && (#[trigger] seen@[k])@ == x,
        decreases moves.len() - i,
    {
        let f = chars_of(moves[i].file.as_str());
        let ghost prefix = files.take(i as int);
        assert(files.take(i + 1).drop_last() =~= prefix);
        assert(files.take(i + 1).last() == f@);
        let ghost old_seen = seen@;
        let mut k: usize = 0;
        let mut known = false;
        while k < seen.len()
            invariant
                k <= seen@.len(),
                seen@ == old_seen,
                known ==> exists|j: int| 0 <= j < seen@.len() && (#[trigger] seen@[j])@ == f@,
                !known ==> forall|j: int| 0 <= j < k ==> (#[trigger] seen@[j])@ != f@,
            decreases seen.len() - k,
        {
            if !known && chars_eq(&seen[k], &f) {
                known = true;
            }
            k += 1;
        }
        if !known {
            seen.push(f);
        }
        let ghost next = files.take(i + 1);
        assert(next =~= prefix.push(f@));
        assert(known <==> prefix.contains(f@));
        assert forall|x: Seq<char>| #[trigger] next.contains(x) <==> exists|k: int|
            0 <= k < seen@.len() && (#[trigger] seen@[k])@ == x by {
            assert(next[i as int] == f@);
            if next.contains(x) {
                let j = choose|j: int| 0 <= j < next.len() && #[trigger] next[j] == x;
                if j < i {
                    assert(prefix[j] == x);
                    assert(prefix.contains(x));
                    let k = choose|k: int| 0 <= k < old_seen.len() && (#[trigger] old_seen[k])@ == x;
                    assert(seen@[k] == old_seen[k]);
                } else if !known {
                    assert(seen@[old_seen.len() as int]@ == f@);
                }
            }
            if exists|k: int| 0 <= k < seen@.len() && (#[trigger] seen@[k])@ == x {
                let k = choose|k: int| 0 <= k < seen@.len() && (#[trigger] seen@[k])@ == x;
                if k < old_seen.len() {
                    assert(old_seen[k]@ == x);
                    assert(prefix.contains(x));
                    let j = choose|j: int| 0 <= j < prefix.len() && #[trigger] prefix[j] == x;
                    assert(next[j] == x);
                } else {
                    assert(x == f@);
                }
            }
        }
        i += 1;
    }
    assert(files.take(moves.len() as int) =~= files);
    seen.len()
}

// ---------------------------------------------------------------------------
// The confirmations
// ---------------------------------------------------------------------------

/// The name a container is announced by: its name, or its id when it has
/// none.
pub open spec fn container_label(c: ContainerInfo) -> Seq<char> {
    if c.name@.len() == 0 {
        c.id@
    } else {
        c.name@
    }
}

/// The rest of the port-reassignment question, after the counts.
pub open spec fn reassignment_tail() -> Seq<char> {
    " fichier(s) compose.                          Une copie de chaque fichier est enregistrée avant modification.                          Les conteneurs déjà créés gardent leur port jusqu'à un                          « docker compose up -d --force-recreate ». Continuer ?"@
}

/// The name an object is announced by, from the snapshot when it holds it
/// (a container by its label, an image by its id when untagged or else by
/// its identity), else by the reference the action was given.
pub open spec fn container_name_spec(snapshot: Option<DockerSnapshot>, id: Seq<char>) -> Seq<char> {
    match snapshot {
        Some(s) => match first_container(s.containers@, id) {
            Some(k) => container_label(s.containers@[k]),
            None => id,
        },
        None => id,
    }
}

pub open spec fn image_of(snapshot: Option<DockerSnapshot>, reference: Seq<char>) -> Option<ImageInfo> {
    match snapshot {
        Some(s) => match first_image(s.images@, reference) {
            Some(k) => Some(s.images@[k]),
            None => None,
        },
        None => None,
    }
}

/// Another tag still points at the image: its id is listed more than once.
pub open spec fn other_tags_remain(snapshot: Option<DockerSnapshot>, reference: Seq<char>) -> bool {
    match (snapshot, image_of(snapshot, reference)) {
        (Some(s), Some(im)) => images_with_id(s.images@, im.id@) > 1,
        _ => false,
    }
}

/// The confirmation of an action, from the snapshot (none when the last
/// listing failed or is missing): the dialog's title, its question, and
/// what a « Oui » carries out.
pub open spec fn confirmation_spec(action: DockerAction, snapshot: Option<DockerSnapshot>) -> (
    Seq<char>,
    Seq<char>,
) {
    match action {
        DockerAction::ApplyPortReassignment(moves) => (
            "Réattribuer les ports"@,
            decimal(moves@.len()) + " port(s) vont être réécrits dans "@ + decimal(
                distinct_count(move_files(moves@)),
            ) + reassignment_tail(),
        ),
        DockerAction::StopContainer(id) => (
            "Arrêter le conteneur"@,
            "Le conteneur « "@ + container_name_spec(snapshot, id@)
                + " » va être arrêté (docker stop). Continuer ?"@,
        ),
        DockerAction::RemoveContainer(id) => (
            "Supprimer le conteneur"@,
            "Le conteneur « "@ + container_name_spec(snapshot, id@)
                + " » va être définitivement supprimé (docker rm). Continuer ?"@ + match snapshot {
                Some(s) => match first_container(s.containers@, id@) {
                    Some(k) => if s.containers@[k].rw_size@.len() > 0 {
                        " Libérera environ "@ + s.containers@[k].rw_size@
                            + " (couche d'écriture du conteneur)."@
                    } else {
                        Seq::empty()
                    },
                    None => Seq::empty(),
                },
                None => Seq::empty(),
            },
        ),
        DockerAction::RemoveImage(reference) => (
            "Supprimer l'image"@,
            match image_of(snapshot, reference@) {
                Some(im) => if im.untagged {
                    "L'image « "@ + im.id@
                        + " » (non taguée) va être définitivement supprimée (docker rmi). Continuer ?"@
                        + if other_tags_remain(snapshot, reference@) {
                        " Aucun espace ne sera libéré tant que les autres tags subsistent."@
                    } else {
                        " Libérera jusqu'à "@ + im.size@
                            + " (les couches partagées avec d'autres images ne sont pas comptées)."@
                    }
                } else if other_tags_remain(snapshot, reference@) {
                    "Le tag « "@ + im.identity@
                        + " » va être retiré de cette image (docker rmi) — elle ne sera pas supprimée car d'autres tags pointent encore vers elle. Continuer ?"@
                        + " Aucun espace ne sera libéré tant que les autres tags subsistent."@
                } else {
                    "L'image « "@ + im.identity@
                        + " » va être définitivement supprimée (docker rmi). Continuer ?"@
                        + " Libérera jusqu'à "@ + im.size@
                        + " (les couches partagées avec d'autres images ne sont pas comptées)."@
                },
                None => "L'image « "@ + reference@ + " » va être supprimée (docker rmi). Continuer ?"@,
            },
        ),
        DockerAction::RemoveVolume(name) => (
            "Supprimer le volume"@,
            "Le volume orphelin « "@ + name@
                + " » va être définitivement supprimé (docker volume rm). Continuer ?"@ + match snapshot {
                Some(s) => match first_volume(s.volumes@, name@) {
                    Some(k) => match s.volumes@[k].size {
                        Some(size) => " Libérera "@ + size@ + "."@,
                        None => " Taille inconnue — le bouton « Calculer les tailles » permet de l'estimer."@,
                    },
                    None => " Taille inconnue — le bouton « Calculer les tailles » permet de l'estimer."@,
                },
                None => " Taille inconnue — le bouton « Calculer les tailles » permet de l'estimer."@,
            },
        ),
    }
}

/// What a confirmed action carries out: the same action, with the name it
/// was announced by (an image's name being its id when untagged, its
/// identity otherwise, the reference when the snapshot lacks it).
pub open spec fn pending_matches(p: DockerPending, action: DockerAction, snapshot: Option<DockerSnapshot>) -> bool {
    match action {
        DockerAction::ApplyPortReassignment(moves) => p == DockerPending::ApplyPortReassignment(moves),
        DockerAction::StopContainer(id) => p matches DockerPending::StopContainer { id: i, name: n }
            && i == id && n@ == container_name_spec(snapshot, id@),
        DockerAction::RemoveContainer(id) => p matches DockerPending::RemoveContainer { id: i, name: n }
            && i == id && n@ == container_name_spec(snapshot, id@),
        DockerAction::RemoveImage(reference) => p matches DockerPending::RemoveImage {
            reference: r,
            name: n,
        } && r == reference && n@ == match image_of(snapshot, reference@) {
            Some(im) => if im.untagged {
                im.id@
            } else {
                im.identity@
            },
            None => reference@,
        },
        DockerAction::RemoveVolume(name) => p == DockerPending::RemoveVolume(name),
    }
}

fn container_name(snapshot: Option<&DockerSnapshot>, id: &String) -> (r: (String, Option<usize>))
    ensures
        r.0@ == container_name_spec(
            match snapshot {
                Some(s) => Some(*s),
                None => None,
            },
            id@,
        ),
        match snapshot {
            Some(s) => match first_container(s.containers@, id@) {
                Some(k) => r.1 == Some(k as usize),
                None => r.1 is None,
            },
            None => r.1 is None,
        },
        snapshot matches Some(s) ==> (r.1 matches Some(k) ==> k < s.containers.len()),
{
    proof {
        match snapshot {
            Some(s) => lemma_first_container(s.containers@, id@),
            None => {},
        }
    }
    match snapshot {
        Some(s) => match find_container(&s.containers, id.as_str()) {
            Some(k) => {
                let c = &s.containers[k];
                if c.name.as_str().is_empty() {
                    (c.id.clone(), Some(k))
                } else {
                    (c.name.clone(), Some(k))
                }
            },
            None => (id.clone(), None),
        },
        None => (id.clone(), None),
    }
}

/// The confirmation of a destructive action (see [`confirmation_spec`] and
/// [`pending_matches`]).
pub fn docker_confirmation(action: DockerAction, snapshot: Option<&DockerSnapshot>) -> (r: (
    String,
    String,
    DockerPending,
))
    ensures
        ({
            let snap = match snapshot {
                Some(s) => Some(*s),
                None => None,
            };
            &&& (r.0@, r.1@) == confirmation_spec(action, snap)
            &&& pending_matches(r.2, action, snap)
        }),
{
    let ghost snap = match snapshot {
        Some(s) => Some(*s),
        None => None,
    };
    match action {
        DockerAction::ApplyPortReassignment(moves) => {
            let files = count_files(&moves);
            let mut message = String::new();
            push_decimal(&mut message, moves.len() as u64);
            message.append(" port(s) vont être réécrits dans ");
            push_decimal(&mut message, files as u64);
            assert(message@ =~= decimal(moves@.len()) + " port(s) vont être réécrits dans "@ + decimal(
                distinct_count(move_files(moves@)),
            ));
            message.append(" fichier(s) compose.                          Une copie de chaque fichier est enregistrée avant modification.                          Les conteneurs déjà créés gardent leur port jusqu'à un                          « docker compose up -d --force-recreate ». Continuer ?");
            (
                String::from_str("Réattribuer les ports"),
                message,
                DockerPending::ApplyPortReassignment(moves),
            )
        },
        DockerAction::StopContainer(id) => {
            let (name, _) = container_name(snapshot, &id);
            let mut message = String::from_str("Le conteneur « ");
            message.append(name.as_str());
            message.append(" » va être arrêté (docker stop). Continuer ?");
            assert(message@ =~= confirmation_spec(action, snap).1);
            (String::from_str("Arrêter le conteneur"), message, DockerPending::StopContainer { id, name })
        },
        DockerAction::RemoveContainer(id) => {
            proof {
                match snapshot {
                    Some(s) => lemma_first_container(s.containers@, id@),
                    None => {},
                }
            }
            let (name, found) = container_name(snapshot, &id);
            let mut message = String::from_str("Le conteneur « ");
            message.append(name.as_str());
            message.append(" » va être définitivement supprimé (docker rm). Continuer ?");
            match (snapshot, found) {
                (Some(s), Some(k)) => {
                    let rw = &s.containers[k].rw_size;
                    if !rw.as_str().is_empty() {
                        message.append(" Libérera environ ");
                        message.append(rw.as_str());
                        message.append(" (couche d'écriture du conteneur).");
                    }
                },
                _ => {},
            }
            assert(message@ =~= confirmation_spec(action, snap).1);
            (String::from_str("Supprimer le conteneur"), message, DockerPending::RemoveContainer { id, name })
        },
        DockerAction::RemoveImage(reference) => {
            proof {
                match snapshot {
                    Some(s) => lemma_first_image(s.images@, reference@),
                    None => {},
                }
            }
            let found = match snapshot {
                Some(s) => find_image(&s.images, reference.as_str()),
                None => None,
            };
            match (snapshot, found) {
                (Some(s), Some(k)) => {
                    let image = &s.images[k];
                    let others = count_images_with_id(&s.images, image.id.as_str()) > 1;
                    let (name, mut message) = if image.untagged {
                        let mut m = String::from_str("L'image « ");
                        m.append(image.id.as_str());
                        m.append(" » (non taguée) va être définitivement supprimée (docker rmi). Continuer ?");
                        (image.id.clone(), m)
                    } else if others {
                        let mut m = String::from_str("Le tag « ");
                        m.append(image.identity.as_str());
                        m.append(" » va être retiré de cette image (docker rmi) — elle ne sera pas supprimée car d'autres tags pointent encore vers elle. Continuer ?");
                        (image.identity.clone(), m)
                    } else {
                        let mut m = String::from_str("L'image « ");
                        m.append(image.identity.as_str());
                        m.append(" » va être définitivement supprimée (docker rmi). Continuer ?");
                        (image.identity.clone(), m)
                    };
                    if others {
                        message.append(" Aucun espace ne sera libéré tant que les autres tags subsistent.");
                    } else {
                        message.append(" Libérera jusqu'à ");
                        message.append(image.size.as_str());
                        message.append(" (les couches partagées avec d'autres images ne sont pas comptées).");
                    }
                    (String::from_str("Supprimer l'image"), message, DockerPending::RemoveImage { reference, name })
                },
                _ => {
                    let mut message = String::from_str("L'image « ");
                    message.append(reference.as_str());
                    message.append(" » va être supprimée (docker rmi). Continuer ?");
                    let name = reference.clone();
                    (String::from_str("Supprimer l'image"), message, DockerPending::RemoveImage { reference, name })
                },
            }
        },
        DockerAction::RemoveVolume(name) => {
            proof {
                match snapshot {
                    Some(s) => lemma_first_volume(s.volumes@, name@),
                    None => {},
                }
            }
            let mut message = String::from_str("Le volume orphelin « ");
            message.append(name.as_str());
            message.append(" » va être définitivement supprimé (docker volume rm). Continuer ?");
            let size = match snapshot {
                Some(s) => match find_volume(&s.volumes, name.as_str()) {
                    Some(k) => match &s.volumes[k].size {
                        Some(size) => Some(size),
                        None => None,
                    },
                    None => None,
                },
                None => None,
            };
            match size {
                Some(size) => {
                    message.append(" Libérera ");
                    message.append(size.as_str());
                    message.append(".");
                },
                None => message.append(" Taille inconnue — le bouton « Calculer les tailles » permet de l'estimer."),
            }
            assert(message@ =~= confirmation_spec(action, snap).1);
            (String::from_str("Supprimer le volume"), message, DockerPending::RemoveVolume(name))
        },
    }
}

/// The question asked before deleting a selection of `containers`
/// containers, `images` images and `volumes` volumes, in that order: the
/// space it frees is `formatted` (the display of `size`), or unknown when
/// there is no snapshot (`size` is `None`) or nothing selected has a known
/// size (`size` is `(0, true)`).
pub fn selection_confirmation(
    containers: usize,
    images: usize,
    volumes: usize,
    size: Option<(u64, bool)>,
    formatted: &str,
) -> (r: (String, String))
    ensures
        r.0@ == "Supprimer la sélection"@,
        r.1@ == "Suppression définitive, dans cet ordre :\n• "@ + decimal(containers as nat)
            + " conteneur(s) — docker rm\n• "@ + decimal(images as nat)
            + " image(s) — docker rmi\n• "@ + decimal(volumes as nat)
            + " volume(s) — docker volume rm\n\n"@ + (match size {
            None => "Espace récupéré inconnu.\n"@,
            Some(sz) => if sz.0 == 0 && sz.1 {
                "Espace récupéré inconnu.\n"@
            } else {
                "Libérera environ "@ + formatted@ + ".\n"@
            },
        }) + "Continuer ?"@,
{
    let mut m = String::from_str("Suppression définitive, dans cet ordre :\n• ");
    push_decimal(&mut m, containers as u64);
    m.append(" conteneur(s) — docker rm\n• ");
    push_decimal(&mut m, images as u64);
    m.append(" image(s) — docker rmi\n• ");
    push_decimal(&mut m, volumes as u64);
    m.append(" volume(s) — docker volume rm\n\n");
    let unknown = match size {
        None => true,
        Some((bytes, partial)) => bytes == 0 && partial,
    };
    if unknown {
        m.append("Espace récupéré inconnu.\n");
    } else {
        m.append("Libérera environ ");
        m.append(formatted);
        m.append(".\n");
    }
    m.append("Continuer ?");
    (String::from_str("Supprimer la sélection"), m)
}

} // verus!
