use std::cmp::Ordering;
use world_pumpkin::config::Config;
use world_pumpkin::updater::{
    compare_versions, normalize_version, release_update, release_update_from_json,
    startup_report, version_parts, UpdateJoinHandler, UpdateState, UpdateStatus, RELEASES_URL,
};

#[test]
fn strips_release_tag_prefix() {
    assert_eq!(normalize_version("v0.1.0"), "0.1.0");
}

#[test]
fn compares_versions_by_number_parts() {
    assert_eq!(compare_versions("1.10.0", "1.2.0"), Ordering::Greater);
    assert_eq!(compare_versions("1.0.0", "1.0"), Ordering::Equal);
    assert_eq!(compare_versions("1.0.0", "1.0.1"), Ordering::Less);
}

#[test]
fn normalizing_trims_and_drops_every_leading_v() {
    assert_eq!(normalize_version("  vv2.0 \n"), "2.0");
    assert_eq!(normalize_version("release-1"), "release-1");
    assert_eq!(normalize_version("v"), "");
}

#[test]
fn version_parts_skip_separators_and_oversized_numbers() {
    assert_eq!(version_parts("1.2.3-beta.4"), vec![1, 2, 3, 4]);
    assert_eq!(version_parts("..7..8"), vec![7, 8]);
    assert_eq!(version_parts("99999999999999999999.1"), vec![1]);
    assert_eq!(version_parts("beta"), Vec::<u64>::new());
}

#[test]
fn version_order_is_antisymmetric_on_examples() {
    let versions = ["1.0", "1.0.0", "0.9.9", "2", "1.10", "v1.2"];
    for a in versions {
        assert_eq!(compare_versions(a, a), Ordering::Equal);
        for b in versions {
            assert_eq!(compare_versions(a, b), compare_versions(b, a).reverse());
        }
    }
}

#[test]
fn newer_release_is_reported() {
    let status = release_update(Some("v0.3.0"), Some("https://example.org/r"), "0.2.9")
        .unwrap()
        .unwrap();
    assert_eq!(status.latest_version, "0.3.0");
    assert_eq!(status.current_version, "0.2.9");
    assert_eq!(status.release_url, "https://example.org/r");
    assert_eq!(
        status.message(),
        "Update available: WorldPumpkin 0.2.9 is loaded, 0.3.0 is latest. Download: https://example.org/r"
    );
}

#[test]
fn release_without_page_points_to_releases() {
    let status = release_update(Some("1.0.0"), None, "0.1.0").unwrap().unwrap();
    assert_eq!(status.release_url, RELEASES_URL);
}

#[test]
fn same_or_older_release_is_no_update() {
    assert!(release_update(Some("v0.1.0"), None, "0.1.0").unwrap().is_none());
    assert!(release_update(Some("0.0.9"), None, "0.1.0").unwrap().is_none());
}

#[test]
fn missing_or_blank_tag_is_an_error() {
    let expected = "GitHub latest release response did not include tag_name";
    assert_eq!(release_update(None, None, "0.1.0").unwrap_err(), expected);
    assert_eq!(release_update(Some(" v "), None, "0.1.0").unwrap_err(), expected);
}

#[test]
fn release_json_is_read() {
    let body = r#"{"tag_name":"v9.9.9","html_url":"https://example.org/v9"}"#;
    let status = release_update_from_json(body, "0.1.0").unwrap().unwrap();
    assert_eq!(status.latest_version, "9.9.9");
    assert_eq!(status.release_url, "https://example.org/v9");

    let body = r#"{"tag_name": 5}"#;
    assert_eq!(
        release_update_from_json(body, "0.1.0").unwrap_err(),
        "GitHub latest release response did not include tag_name"
    );
    assert!(release_update_from_json("not json", "0.1.0").is_err());
}

#[test]
fn startup_reports_each_outcome() {
    let (m, s) = startup_report(Ok(None), "0.1.0");
    assert_eq!(m, "WorldPumpkin 0.1.0 is up to date.");
    assert!(s.is_none());
    let (m, s) = startup_report(Err("offline".to_owned()), "0.1.0");
    assert_eq!(m, "WorldPumpkin update check failed: offline");
    assert!(s.is_none());
    let status = UpdateStatus {
        latest_version: "2.0".to_owned(),
        current_version: "1.0".to_owned(),
        release_url: "u".to_owned(),
    };
    let (m, s) = startup_report(Ok(Some(status)), "1.0");
    assert_eq!(m, "Update available: WorldPumpkin 1.0 is loaded, 2.0 is latest. Download: u");
    assert_eq!(s.unwrap().latest_version, "2.0");
}

#[test]
fn joining_players_hear_of_known_updates_only_when_allowed() {
    let handler = UpdateJoinHandler;
    let mut state = UpdateState::new();
    let config = Config::default();
    assert!(handler.notice(&config, &state, true).is_none());
    state.replace_status(Some(UpdateStatus {
        latest_version: "2.0".to_owned(),
        current_version: "1.0".to_owned(),
        release_url: "u".to_owned(),
    }));
    assert_eq!(state.status().unwrap().latest_version, "2.0");
    assert_eq!(
        handler.notice(&config, &state, true).unwrap(),
        "Update available: WorldPumpkin 1.0 is loaded, 2.0 is latest. Download: u"
    );
    assert!(handler.notice(&config, &state, false).is_none());
    let quiet = Config {
        update_notify_on_join: false,
        ..Config::default()
    };
    assert!(handler.notice(&quiet, &state, true).is_none());
    let off = Config {
        update_check_enabled: false,
        ..Config::default()
    };
    assert!(handler.notice(&off, &state, true).is_none());
}
