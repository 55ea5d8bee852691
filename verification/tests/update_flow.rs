use std::hash::{Hash, Hasher};

use devtoolbox::update::keys::KeyRing;
use devtoolbox::update::manifest::{PackageFormat, Version};
use devtoolbox::update::service::{
    check_day, check_failure_state, install_failure_state, parse_last_check, prepare_update_check,
    settle_update_reports, UpdateState,
};

#[test]
fn an_update_check_needs_a_package_a_key_ring_and_a_version() {
    let version = || Version::parse("1.2.3");
    match prepare_update_check(None, Ok(KeyRing::default()), version()) {
        Err(UpdateState::Disabled(message)) => assert_eq!(
            message,
            "Mise à jour intégrée réservée aux paquets installés; utilisez GitHub Releases."
        ),
        _ => panic!("an unpackaged installation cannot update itself"),
    }
    match prepare_update_check(Some(PackageFormat::Deb), Err("bad".into()), version()) {
        Err(UpdateState::Disabled(message)) => {
            assert_eq!(message, "Trousseau de mise à jour invalide.")
        }
        _ => panic!("an unreadable key ring disables the updater"),
    }
    match prepare_update_check(
        Some(PackageFormat::Nsis),
        Ok(KeyRing::default()),
        Version::parse("not a version"),
    ) {
        Err(UpdateState::Failed(message)) => assert_eq!(message, "Version applicative invalide."),
        _ => panic!("an unreadable version fails the check"),
    }
    match prepare_update_check(Some(PackageFormat::App), Ok(KeyRing::default()), version()) {
        Ok((format, ring, current)) => {
            assert_eq!(format, PackageFormat::App);
            assert!(ring.is_empty());
            assert_eq!(current.to_text(), "1.2.3");
        }
        Err(_) => panic!("everything is there"),
    }
}

#[test]
fn a_check_is_recorded_at_the_start_of_its_day() {
    assert_eq!(check_day(0), (0, 0));
    assert_eq!(check_day(86_399), (0, 0));
    assert_eq!(check_day(86_400 * 3 + 5), (3, 86_400 * 3));
}

#[test]
fn the_latest_report_wins_and_only_checking_keeps_listening() {
    assert_eq!(settle_update_reports(Vec::new()), (None, true));
    assert_eq!(
        settle_update_reports(vec![UpdateState::Checking]),
        (Some(UpdateState::Checking), true)
    );
    assert_eq!(
        settle_update_reports(vec![UpdateState::Checking, UpdateState::UpToDate]),
        (Some(UpdateState::UpToDate), false)
    );
}

#[test]
fn a_failed_check_is_shown_by_its_cause() {
    assert_eq!(
        check_failure_state("release 1.0.0 is not newer".into()),
        UpdateState::UpToDate
    );
    assert_eq!(
        check_failure_state("recovery asset missing".into()),
        UpdateState::Recovery("recovery asset missing".into())
    );
    assert_eq!(
        check_failure_state("offline".into()),
        UpdateState::Failed("offline".into())
    );
    assert_eq!(
        install_failure_state("recovery download failed: x".into()),
        UpdateState::Recovery("recovery download failed: x".into())
    );
    assert_eq!(
        install_failure_state("release 1.0.0 is not newer".into()),
        UpdateState::Failed("release 1.0.0 is not newer".into())
    );
}

#[test]
fn the_last_check_record_is_read_trimmed() {
    assert_eq!(parse_last_check(" 1700000000\n"), Some(1_700_000_000));
    assert_eq!(parse_last_check("+42"), Some(42));
    assert_eq!(parse_last_check(""), None);
    assert_eq!(parse_last_check("12a"), None);
    assert_eq!(parse_last_check("18446744073709551616"), None);
}

#[test]
fn the_jitter_is_the_machine_id_hash_modulo_3601() {
    let mut hasher = std::collections::hash_map::DefaultHasher::new();
    "machine-42".hash(&mut hasher);
    let expected = hasher.finish() % 3601;
    assert_eq!(
        devtoolbox::update::service::machine_jitter_secs("machine-42"),
        expected
    );
    assert_eq!(devtoolbox::update::service::jitter_of_hash(3601 * 7 + 12), 12);
    assert_eq!(devtoolbox::update::service::jitter_of_hash(3600), 3600);
}
