use devtoolbox::uninstall::{check_removal, delete_user_data};

#[test]
fn data_removal_needs_explicit_confirmation() {
    assert!(delete_user_data(false, vec!["/data".to_string()])
        .unwrap_err()
        .contains("confirmation"));
}

#[test]
fn confirmed_removal_covers_every_user_data_root_in_order() {
    let roots = vec!["/a".to_string(), "/b".to_string()];
    assert_eq!(delete_user_data(true, roots.clone()), Ok(roots));
}

#[test]
fn links_and_paths_outside_the_root_are_refused() {
    assert_eq!(
        check_removal(true, true, "/x/link"),
        Err("suppression refusée pour le lien /x/link".to_string())
    );
    assert_eq!(
        check_removal(false, false, "/elsewhere"),
        Err("suppression hors racine refusée: /elsewhere".to_string())
    );
    assert_eq!(check_removal(false, true, "/x/y"), Ok(()));
}
