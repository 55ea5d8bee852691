use devtoolbox::docker_confirm::{
    docker_confirmation, ContainerInfo, DockerAction, DockerPending, DockerSnapshot, ImageInfo,
    VolumeInfo,
};
use devtoolbox::port_plan::{MoveReason, PortMove};

fn snapshot() -> DockerSnapshot {
    DockerSnapshot {
        containers: vec![
            ContainerInfo {
                id: "c1".into(),
                name: "web".into(),
                rw_size: "12MB".into(),
            },
            ContainerInfo {
                id: "c2".into(),
                name: String::new(),
                rw_size: String::new(),
            },
        ],
        images: vec![
            ImageInfo {
                id: "sha256:a".into(),
                identity: "nginx:1".into(),
                rmi_reference: "nginx:1".into(),
                size: "140MB".into(),
                untagged: false,
            },
            ImageInfo {
                id: "sha256:a".into(),
                identity: "nginx:latest".into(),
                rmi_reference: "nginx:latest".into(),
                size: "140MB".into(),
                untagged: false,
            },
            ImageInfo {
                id: "sha256:b".into(),
                identity: "redis:7".into(),
                rmi_reference: "redis:7".into(),
                size: "40MB".into(),
                untagged: false,
            },
            ImageInfo {
                id: "sha256:c".into(),
                identity: "<none>:<none>".into(),
                rmi_reference: "sha256:c".into(),
                size: "5MB".into(),
                untagged: true,
            },
        ],
        volumes: vec![VolumeInfo {
            name: "data".into(),
            size: Some("1GB".into()),
        }],
    }
}

#[test]
fn stopping_names_the_container_or_its_id() {
    let s = snapshot();
    let (title, message, pending) = docker_confirmation(DockerAction::StopContainer("c1".into()), Some(&s));
    assert_eq!(title, "Arrêter le conteneur");
    assert_eq!(message, "Le conteneur « web » va être arrêté (docker stop). Continuer ?");
    assert_eq!(pending, DockerPending::StopContainer { id: "c1".into(), name: "web".into() });
    let (_, message, _) = docker_confirmation(DockerAction::StopContainer("c2".into()), Some(&s));
    assert!(message.contains("« c2 »"));
    let (_, message, _) = docker_confirmation(DockerAction::StopContainer("gone".into()), None);
    assert!(message.contains("« gone »"));
}

#[test]
fn removing_a_container_quotes_its_writable_layer_when_known() {
    let s = snapshot();
    let (_, message, _) = docker_confirmation(DockerAction::RemoveContainer("c1".into()), Some(&s));
    assert_eq!(
        message,
        "Le conteneur « web » va être définitivement supprimé (docker rm). Continuer ? Libérera environ 12MB (couche d'écriture du conteneur)."
    );
    let (_, message, _) = docker_confirmation(DockerAction::RemoveContainer("c2".into()), Some(&s));
    assert!(message.ends_with("(docker rm). Continuer ?"));
}

#[test]
fn removing_an_image_says_whether_it_is_deleted_or_untagged() {
    let s = snapshot();
    let (_, message, pending) = docker_confirmation(DockerAction::RemoveImage("nginx:1".into()), Some(&s));
    assert!(message.starts_with("Le tag « nginx:1 » va être retiré de cette image"));
    assert!(message.ends_with(" Aucun espace ne sera libéré tant que les autres tags subsistent."));
    assert_eq!(pending, DockerPending::RemoveImage { reference: "nginx:1".into(), name: "nginx:1".into() });
    let (_, message, _) = docker_confirmation(DockerAction::RemoveImage("redis:7".into()), Some(&s));
    assert_eq!(
        message,
        "L'image « redis:7 » va être définitivement supprimée (docker rmi). Continuer ? Libérera jusqu'à 40MB (les couches partagées avec d'autres images ne sont pas comptées)."
    );
    let (_, message, pending) = docker_confirmation(DockerAction::RemoveImage("sha256:c".into()), Some(&s));
    assert!(message.starts_with("L'image « sha256:c » (non taguée)"));
    assert_eq!(pending, DockerPending::RemoveImage { reference: "sha256:c".into(), name: "sha256:c".into() });
    let (_, message, _) = docker_confirmation(DockerAction::RemoveImage("x:1".into()), None);
    assert_eq!(message, "L'image « x:1 » va être supprimée (docker rmi). Continuer ?");
}

#[test]
fn removing_a_volume_quotes_its_size_or_says_it_is_unknown() {
    let s = snapshot();
    let (title, message, _) = docker_confirmation(DockerAction::RemoveVolume("data".into()), Some(&s));
    assert_eq!(title, "Supprimer le volume");
    assert!(message.ends_with(" Libérera 1GB."));
    let (_, message, _) = docker_confirmation(DockerAction::RemoveVolume("other".into()), Some(&s));
    assert!(message.ends_with("permet de l'estimer."));
}

#[test]
fn applying_a_reassignment_counts_ports_and_distinct_files() {
    let mv = |file: &str, from: u16| PortMove {
        file: file.into(),
        service: "web".into(),
        protocol: "tcp".into(),
        from,
        to: from + 1,
        reason: MoveReason::TakenByHost("x".into()),
    };
    let moves = vec![mv("/a.yml", 80), mv("/b.yml", 81), mv("/a.yml", 82)];
    let (title, message, pending) =
        docker_confirmation(DockerAction::ApplyPortReassignment(moves.clone()), None);
    assert_eq!(title, "Réattribuer les ports");
    assert!(message.starts_with("3 port(s) vont être réécrits dans 2 fichier(s) compose."));
    assert!(message.ends_with("Continuer ?"));
    assert_eq!(pending, DockerPending::ApplyPortReassignment(moves));
}

#[test]
fn deleting_a_selection_lists_the_counts_and_the_space() {
    let (title, message) =
        devtoolbox::docker_confirm::selection_confirmation(2, 1, 0, Some((3_000, false)), "3 Ko");
    assert_eq!(title, "Supprimer la sélection");
    assert_eq!(
        message,
        "Suppression définitive, dans cet ordre :\n• 2 conteneur(s) — docker rm\n• 1 image(s) — docker rmi\n• 0 volume(s) — docker volume rm\n\nLibérera environ 3 Ko.\nContinuer ?"
    );
    let (_, message) = devtoolbox::docker_confirm::selection_confirmation(0, 0, 1, Some((0, true)), "≥ 0B");
    assert!(message.contains("Espace récupéré inconnu.\n"));
    let (_, message) = devtoolbox::docker_confirm::selection_confirmation(0, 0, 1, None, "");
    assert!(message.contains("Espace récupéré inconnu.\n"));
}
