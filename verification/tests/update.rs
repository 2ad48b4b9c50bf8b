use fretwire::update::{
    is_newer, parse_version, prefs_path, read_redirect, record_probe, release_url,
    set_enabled, should_probe, status, version_from_location, InstallKind, Prefs, Status,
    UpdateError, CHECK_INTERVAL_SECS, CURRENT,
};

#[test]
fn versions_parse_and_compare() {
    assert_eq!(parse_version("0.4.0"), Some((0, 4, 0)));
    assert_eq!(parse_version("1.2.3-rc1"), Some((1, 2, 3)));
    assert_eq!(parse_version("1.2"), None);
    assert_eq!(parse_version("1.2.3.4"), None);
    assert_eq!(parse_version("v1.2.3"), None);
    assert!(is_newer("0.5.0", "0.4.0"));
    assert!(is_newer("0.4.1", "0.4.0"));
    assert!(is_newer("1.0.0", "0.9.9"));
    assert!(!is_newer("0.4.0", "0.4.0"), "equal is not newer");
    assert!(
        !is_newer("0.4.0", "0.5.0"),
        "a checkout ahead of the release stays quiet"
    );
    assert!(!is_newer("nonsense", "0.4.0"));
    assert!(!is_newer("0.5.0", "nonsense"));
}

#[test]
fn location_yields_the_tag() {
    let base = "https://github.com/john-baxter-dev/fretwire/releases/tag/";
    assert_eq!(
        version_from_location(&format!("{base}v0.5.0")).as_deref(),
        Some("0.5.0")
    );
    assert_eq!(
        version_from_location(&format!("{base}0.5.0")).as_deref(),
        Some("0.5.0")
    );
    assert_eq!(
        version_from_location(&format!("{base}v0.5.0/")).as_deref(),
        Some("0.5.0")
    );
    assert_eq!(
        version_from_location(&format!("{base}v0.5.0?x=1#y")).as_deref(),
        Some("0.5.0")
    );
    assert_eq!(version_from_location("https://github.com/login"), None);
    assert_eq!(version_from_location(""), None);
}

#[test]
fn install_kind_from_path() {
    assert_eq!(classify_exe("/usr/bin/fretwire-gui"), InstallKind::Package);
    assert_eq!(classify_exe("/opt/fretwire/bin/fretwire"), InstallKind::Package);
    assert_eq!(classify_exe("/home/me/.cargo/bin/fretwire"), InstallKind::Cargo);
    assert_eq!(
        classify_exe("/home/me/src/fretwire/target/release/fretwire"),
        InstallKind::Source
    );
    assert_eq!(
        classify_exe("/home/me/src/fretwire/target/debug/fretwire-gui"),
        InstallKind::Source
    );
    assert_eq!(classify_exe("/usr/local/bin/fretwire"), InstallKind::Unknown);
    assert_eq!(
        classify_exe("/tmp/.mount_fretwiXYZ/usr/bin/fretwire-gui"),
        InstallKind::Unknown
    );
}

fn classify_exe(p: &str) -> InstallKind {
    InstallKind::classify(p)
}

fn from_prefs(p: &Prefs) -> Status {
    Status::from_prefs(p, CURRENT, false, InstallKind::Unknown)
}

#[test]
fn status_only_flags_a_strictly_newer_release() {
    let mut p = Prefs {
        latest: Some("0.0.1".into()),
        ..Prefs::default()
    };
    let s = from_prefs(&p);
    assert!(!s.available && s.url.is_none());
    p.latest = Some("999.0.0".into());
    let s = from_prefs(&p);
    assert!(s.available);
    assert_eq!(s.url.as_deref(), Some(release_url("999.0.0").as_str()));
    assert_eq!(s.current, CURRENT);
}

#[test]
fn a_locked_environment_reads_as_switched_off() {
    let p = Prefs {
        enabled: Some(true),
        ..Prefs::default()
    };
    let s = status(&p, "0.5.0", true, InstallKind::Cargo);
    assert_eq!(s.enabled, Some(false));
    assert!(s.locked);
    assert_eq!(s.install, InstallKind::Cargo);
    assert_eq!(status(&p, "0.5.0", false, InstallKind::Cargo).enabled, Some(true));
}

#[test]
fn the_install_kind_names_itself() {
    assert_eq!(InstallKind::AppImage.as_str(), "appimage");
    assert_eq!(InstallKind::Package.label(), "system package");
    assert_eq!(
        InstallKind::Source.instruction(),
        "Pull the repository and rebuild."
    );
}

#[test]
fn the_release_page_is_tagged_with_a_v() {
    assert_eq!(
        release_url("0.5.0"),
        "https://github.com/john-baxter-dev/fretwire/releases/tag/v0.5.0"
    );
}

#[test]
fn answering_changes_only_the_answer() {
    let p = Prefs {
        enabled: None,
        checked_at: Some(7),
        latest: Some("0.6.0".into()),
    };
    let q = set_enabled(p.clone(), true);
    assert_eq!(q.enabled, Some(true));
    assert_eq!(q.checked_at, Some(7));
    assert_eq!(q.latest.as_deref(), Some("0.6.0"));
}

#[test]
fn an_automatic_check_waits_a_day() {
    let p = Prefs {
        enabled: Some(true),
        checked_at: Some(1_000),
        latest: None,
    };
    assert!(!should_probe(&p, false, false, 1_000 + CHECK_INTERVAL_SECS - 1));
    assert!(should_probe(&p, false, false, 1_000 + CHECK_INTERVAL_SECS));
    assert!(!should_probe(&p, false, true, 1_000 + CHECK_INTERVAL_SECS));
    // A clock that went backwards counts as no time at all.
    assert!(!should_probe(&p, false, false, 10));
    assert!(should_probe(&p, true, true, 10), "asked for by hand");
    let never = Prefs::default();
    assert!(!should_probe(&never, false, false, 10), "nobody said yes");
    let r = record_probe(p, "0.6.0".into(), 99);
    assert_eq!(r.checked_at, Some(99));
    assert_eq!(r.latest.as_deref(), Some("0.6.0"));
}

#[test]
fn a_redirect_names_the_version() {
    let loc = "https://github.com/john-baxter-dev/fretwire/releases/tag/v0.6.1";
    match read_redirect(302, loc) {
        Ok(v) => assert_eq!(v, "0.6.1"),
        Err(_) => panic!("a redirect to a tag is a version"),
    }
    assert!(matches!(read_redirect(200, loc), Err(UpdateError::NotRedirected(200))));
    match read_redirect(301, "https://github.com/login") {
        Err(UpdateError::BadLocation(l)) => assert_eq!(l, "https://github.com/login"),
        _ => panic!("a redirect elsewhere carries no version"),
    }
}

#[test]
fn the_preference_file_sits_beside_the_data_dir() {
    assert_eq!(
        prefs_path("/home/me/.local/share/fretwire/data"),
        "/home/me/.local/share/fretwire/update-check.json"
    );
    assert_eq!(prefs_path("data"), "update-check.json");
    assert_eq!(prefs_path("/"), "/update-check.json");
}

use fretwire::update::{env_pins_off, load_prefs, prefs_text};

fn never_asked() -> Prefs {
    Prefs { enabled: None, checked_at: None, latest: None }
}

#[test]
fn prefs_round_trip_and_absence() {
    assert_eq!(load_prefs(None), never_asked(), "no file = never asked");
    let prefs = Prefs { enabled: Some(true), checked_at: Some(1_700_000_000), latest: Some("0.5.0".into()) };
    let text = format!("{}\n", prefs_text(&prefs));
    assert_eq!(load_prefs(Some(&text)), prefs);
    assert_eq!(load_prefs(Some("{ not json")), never_asked(), "garbage reads as never asked");
}

#[test]
fn unset_preferences_are_written_as_null_and_read_back_unset() {
    let text = prefs_text(&never_asked());
    assert!(text.contains("\"enabled\": null"), "{text}");
    assert_eq!(load_prefs(Some(&text)), never_asked());
    let off = Prefs { enabled: Some(false), checked_at: None, latest: None };
    assert_eq!(load_prefs(Some(&prefs_text(&off))), off);
}

#[test]
fn a_member_of_the_wrong_type_reads_as_unset() {
    let p = load_prefs(Some(r#"{"enabled": "yes", "checked_at": -5, "latest": 3}"#));
    assert_eq!(p, never_asked());
    let p = load_prefs(Some(r#"{"enabled": false, "checked_at": 18446744073709551615}"#));
    assert_eq!(p.enabled, Some(false));
    assert_eq!(p.checked_at, Some(u64::MAX));
}

#[test]
fn the_environment_pins_the_check_off_unless_empty_or_zero() {
    assert!(!env_pins_off(None));
    assert!(!env_pins_off(Some("")));
    assert!(!env_pins_off(Some("0")));
    assert!(env_pins_off(Some("1")));
    assert!(env_pins_off(Some("yes")));
}

#[test]
fn a_release_page_reads_back_as_its_version() {
    for v in ["0.5.0", "1.2.3-rc1", "10.0.7+build"] {
        assert_eq!(version_from_location(&release_url(v)).as_deref(), Some(v));
    }
}
