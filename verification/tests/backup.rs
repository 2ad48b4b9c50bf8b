use fretwire::backup::{
    Backup, BackupFavorite, BackupPreset, BackupSetting, RestoreOutcome, RestoreParts,
    RestoreReport, SettingValue,
};
use fretwire::hex::{hex_decode, hex_encode};

#[test]
fn restore_report_counts_and_failures() {
    let r = RestoreReport {
        presets: vec![
            ((0, 1), RestoreOutcome::Written),
            ((0, 2), RestoreOutcome::Unchanged),
            ((0, 3), RestoreOutcome::Failed("stalled".into())),
        ],
        irs: vec![(4, RestoreOutcome::Written)],
        settings: vec![
            (16, RestoreOutcome::Written),
            (210, RestoreOutcome::Skipped("unidentified".into())),
        ],
    };
    assert_eq!(RestoreReport::written(&r.presets), 1);
    assert_eq!(RestoreReport::written(&r.irs), 1);
    assert_eq!(RestoreReport::written(&r.settings), 1);
    assert_eq!(
        r.failures(),
        vec![("preset 0:3".to_string(), "stalled".to_string())]
    );
}

#[test]
fn hex_helpers() {
    assert_eq!(hex_encode(&[0x00, 0x0f, 0xf0, 0xff]), "000ff0ff");
    assert_eq!(
        hex_decode("000ff0ff").unwrap(),
        vec![0x00, 0x0f, 0xf0, 0xff]
    );
    assert!(hex_decode("abc").is_err());
}

#[test]
fn failures_name_every_section() {
    let r = RestoreReport {
        presets: vec![((2, -1), RestoreOutcome::Failed("a".into()))],
        irs: vec![(7, RestoreOutcome::Failed("b".into())), (8, RestoreOutcome::Unchanged)],
        settings: vec![(134, RestoreOutcome::Failed("c".into()))],
    };
    assert_eq!(
        r.failures(),
        vec![
            ("preset 2:-1".to_string(), "a".to_string()),
            ("IR slot 7".to_string(), "b".to_string()),
            ("setting 134".to_string(), "c".to_string()),
        ]
    );
    assert_eq!(RestoreReport::unchanged(&r.irs), 1);
    assert_eq!(RestoreReport::written(&r.irs), 0);
    let all = RestoreParts::all();
    assert!(all.presets && all.irs && all.settings);
}

fn preset(bank: i64, index: i64, name: &str) -> BackupPreset {
    BackupPreset { bank, index, name: name.into(), raw: vec![] }
}

#[test]
fn a_file_claims_the_oldest_version_that_carries_it() {
    let mut b = Backup {
        device: "HX Stomp".into(),
        presets: vec![preset(0, 3, "A")],
        ..Default::default()
    };
    assert_eq!(b.version(), 2);
    assert!(b.is_presets_only());
    b.settings.push(BackupSetting { id: 27, value: SettingValue::Bool(true) });
    assert_eq!(b.version(), 3);
    b.favorites.push(BackupFavorite {
        index: 0,
        name: "US Princess".into(),
        model: 591,
        paired_cab: Some(709),
        record: vec![0x81],
    });
    assert_eq!(b.version(), 4);
    assert!(!b.is_presets_only());
}

#[test]
fn lookups_go_by_setlist_and_slot() {
    let b = Backup {
        device: "Helix Floor".into(),
        setlists: vec![(0, "FACTORY 1".into()), (2, "USER 1".into())],
        presets: vec![preset(2, 0, ""), preset(0, 0, "Lead"), preset(2, 125, "Rhythm"), preset(0, 4, "x")],
        ..Default::default()
    };
    assert_eq!(b.preset(0, 0).unwrap().name, "Lead");
    assert_eq!(b.preset(2, 0).unwrap().name, "");
    assert!(b.preset(1, 0).is_none());
    assert_eq!(b.banks(), vec![0, 2]);
    assert_eq!(b.setlist_name(2), Some("USER 1"));
    assert_eq!(b.setlist_name(1), None);
}

#[test]
fn a_setting_keeps_its_type() {
    let f = SettingValue::F32(121.5f32.to_bits());
    assert_eq!(f.type_tag(), "f32");
    assert_eq!(SettingValue::Int(2).type_tag(), "int");
    assert!(SettingValue::Bool(true).same_type(SettingValue::Bool(false)));
    assert!(!SettingValue::Bool(true).same_type(SettingValue::Int(0)));
    assert!(f.same_type(SettingValue::F32(0)));
}

use fretwire::backup::sweep_name;

#[test]
fn a_sweep_stores_the_device_name_and_stops_when_it_loses_its_place() {
    assert_eq!(sweep_name(3, "Listed", Some((3, "On Device"))).unwrap(), "On Device");
    assert_eq!(sweep_name(3, "Listed", Some((3, ""))).unwrap(), "Listed");
    assert_eq!(sweep_name(3, "Listed", None).unwrap(), "Listed");
    assert_eq!(
        sweep_name(3, "Listed", Some((4, "Other"))).err().unwrap(),
        "device reports preset 4 while backing up slot 3 \u{2014} sweep desynced, aborting"
    );
}

#[test]
fn hex_payloads_are_validated() {
    assert_eq!(hex_decode("+f").err().unwrap(), "bad hex at byte 0");
    assert_eq!(hex_decode("00-1").err().unwrap(), "bad hex at byte 1");
    assert_eq!(hex_decode("zz").err().unwrap(), "bad hex at byte 0");
    // A character that is not ASCII is refused, wherever the byte pairs fall.
    assert_eq!(hex_decode("0é").err().unwrap(), "odd-length hex");
    assert_eq!(hex_decode("é0").err().unwrap(), "odd-length hex");
    assert_eq!(hex_decode("0é0").err().unwrap(), "bad hex at byte 0");
    assert_eq!(hex_decode("00é").err().unwrap(), "bad hex at byte 1");
    assert_eq!(hex_decode("AbCd").unwrap(), vec![0xab, 0xcd]);
}
