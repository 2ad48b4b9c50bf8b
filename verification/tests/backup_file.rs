use fretwire::backup::{
    Backup, BackupFavorite, BackupIr, BackupPreset, BackupSetting, BackupUserDefault, SettingValue,
};
use fretwire::backup_json::BackupError;
use fretwire::json::{JsonNumber, JsonValue};

/// A parsed document as the library reads it.
fn to_value(v: &serde_json::Value) -> JsonValue {
    match v {
        serde_json::Value::Null => JsonValue::Null,
        serde_json::Value::Bool(b) => JsonValue::Bool(*b),
        serde_json::Value::Number(n) => JsonValue::Number(JsonNumber {
            int: n.as_i64(),
            uint: n.as_u64(),
            float: n.as_f64().map(|f| (f as f32).to_bits()),
        }),
        serde_json::Value::String(s) => JsonValue::Str(s.clone()),
        serde_json::Value::Array(a) => JsonValue::Array(a.iter().map(to_value).collect()),
        serde_json::Value::Object(m) => JsonValue::Object(
            m.iter().map(|(k, v)| (k.clone(), to_value(v))).collect(),
        ),
    }
}

/// The library's document as JSON to print.
fn from_value(v: &JsonValue) -> serde_json::Value {
    match v {
        JsonValue::Null => serde_json::Value::Null,
        JsonValue::Bool(b) => serde_json::Value::Bool(*b),
        JsonValue::Number(n) => match (n.int, n.float) {
            (Some(i), _) => serde_json::Value::from(i),
            (None, Some(f)) => serde_json::Value::from(f32::from_bits(f)),
            (None, None) => serde_json::Value::Null,
        },
        JsonValue::Str(s) => serde_json::Value::String(s.clone()),
        JsonValue::Array(a) => serde_json::Value::Array(a.iter().map(from_value).collect()),
        JsonValue::Object(m) => serde_json::Value::Object(
            m.iter().map(|(k, v)| (k.clone(), from_value(v))).collect(),
        ),
    }
}

fn names() -> Vec<(i64, String)> {
    vec![(16, "BPM".to_string()), (10, "Global EQ".to_string())]
}

fn to_json(b: &Backup) -> String {
    serde_json::to_string_pretty(&from_value(&b.to_json(&names()))).unwrap()
}

fn from_json(s: &str) -> Result<Backup, String> {
    let v: serde_json::Value = serde_json::from_str(s).map_err(|e| format!("not JSON: {e}"))?;
    Backup::from_json(&to_value(&v)).map_err(|e| match e {
        BackupError::Bad(m) => m,
        BackupError::Mistyped { id, ty, entry } => format!("setting {id}: type {ty:?} (entry {entry})"),
    })
}

#[test]
fn json_round_trip() {
    let b = Backup {
        device: "Helix Floor".into(),
        setlists: vec![(0, "FACTORY 1".into()), (2, "USER 1".into())],
        presets: vec![
            BackupPreset { bank: 0, index: 0, name: "Lead".into(), raw: vec![0x83, 0xa6, 0x00, 0xff] },
            BackupPreset { bank: 2, index: 0, name: "".into(), raw: vec![] },
            BackupPreset { bank: 2, index: 125, name: "Rhythm".into(), raw: vec![0x01] },
        ],
        ..Default::default()
    };
    let json = to_json(&b);
    let back = from_json(&json).unwrap();
    assert_eq!(b, back);
    assert_eq!(back.preset(0, 0).unwrap().name, "Lead");
    assert_eq!(back.preset(2, 0).unwrap().name, "");
    assert!(back.preset(1, 0).is_none());
    assert_eq!(back.banks(), vec![0, 2]);
    assert_eq!(back.setlist_name(2), Some("USER 1"));
    assert_eq!(back.setlist_name(1), None);
}

#[test]
fn version_1_files_still_read_as_bank_zero() {
    let v1 = r#"{"format":"fretwire-backup","version":1,"device":"HX Stomp",
        "presets":[{"index":7,"name":"Old","raw_hex":"0a0b"}]}"#;
    let b = from_json(v1).unwrap();
    assert_eq!(b.device, "HX Stomp");
    assert!(b.setlists.is_empty(), "v1 recorded no setlist names");
    assert_eq!(b.banks(), vec![0]);
    let e = b.preset(0, 7).unwrap();
    assert_eq!((e.bank, e.index, e.name.as_str()), (0, 7, "Old"));
    assert_eq!(e.raw, vec![0x0a, 0x0b]);
}

#[test]
fn rejects_foreign_files() {
    assert!(from_json("{}").is_err());
    assert!(from_json("not json").is_err());
    let too_new = r#"{"format":"fretwire-backup","version":5,"device":"x","presets":[]}"#;
    assert_eq!(
        from_json(too_new).unwrap_err(),
        "unsupported backup version 5 (this build reads 1..=4)"
    );
    let bad_hex = r#"{"format":"fretwire-backup","version":2,"device":"x",
        "presets":[{"bank":0,"index":0,"name":"a","raw_hex":"zz"}]}"#;
    assert_eq!(from_json(bad_hex).unwrap_err(), "preset #0 (\"a\"): bad hex at byte 0");
    assert_eq!(
        from_json("{}").unwrap_err(),
        "missing/wrong \"format\" tag — not a fretwire-backup file"
    );
    let no_presets = r#"{"format":"fretwire-backup","version":2}"#;
    assert_eq!(from_json(no_presets).unwrap_err(), "missing \"presets\" array");
    let no_index = r#"{"format":"fretwire-backup","version":2,"presets":[{"raw_hex":""}]}"#;
    assert_eq!(from_json(no_index).unwrap_err(), "preset #0: missing \"index\"");
}

#[test]
fn version_4_carries_favorites_and_user_defaults() {
    let mut b = Backup {
        device: "HX Stomp".into(),
        settings: vec![BackupSetting { id: 27, value: SettingValue::Bool(true) }],
        ..Default::default()
    };
    assert_eq!(b.version(), 3);
    b.favorites.push(BackupFavorite {
        index: 0,
        name: "US Princess".into(),
        model: 591,
        paired_cab: Some(709),
        record: vec![0x81, 0x13, 0x06],
    });
    b.favorites.push(BackupFavorite {
        index: 1,
        name: "Dynamic Plate".into(),
        model: 636,
        paired_cab: None,
        record: vec![0x81, 0x13, 0x07],
    });
    b.user_defaults.push(BackupUserDefault {
        model: 591,
        cab_kind: Some(687),
        record: vec![0x81, 0x13, 0x08],
    });
    assert_eq!(b.version(), 4);
    let json = to_json(&b);
    assert!(json.contains("\"favorites\"") && json.contains("\"user_defaults\""));
    let back = from_json(&json).unwrap();
    assert_eq!(back, b);
    assert_eq!(back.favorites[1].paired_cab, None);
    let only = Backup {
        device: "HX Stomp".into(),
        favorites: b.favorites.clone(),
        ..Default::default()
    };
    assert_eq!(only.version(), 4);
    assert!(!only.is_presets_only());
    assert_eq!(from_json(&to_json(&only)).unwrap(), only);
}

#[test]
fn version_3_carries_settings_and_irs_and_round_trips() {
    let mut b = Backup {
        device: "HX Stomp".into(),
        presets: vec![BackupPreset { bank: 0, index: 3, name: "A".into(), raw: vec![1, 2] }],
        ..Default::default()
    };
    assert_eq!(b.version(), 2);
    assert!(to_json(&b).contains("\"version\": 2"));
    assert!(!to_json(&b).contains("\"settings\""));

    b.settings = vec![
        BackupSetting { id: 10, value: SettingValue::Bool(true) },
        BackupSetting { id: 16, value: SettingValue::F32(121.5f32.to_bits()) },
        BackupSetting { id: 134, value: SettingValue::Int(2) },
        BackupSetting { id: 210, value: SettingValue::Int(7) },
    ];
    b.irs = vec![BackupIr { slot: 5, name: "412 V30".into(), blob: vec![0, 0, 128, 63] }];
    assert_eq!(b.version(), 3);
    let json = to_json(&b);
    assert!(json.contains("\"version\": 3"));
    assert!(json.contains("\"name\": \"BPM\""));
    let back = from_json(&json).unwrap();
    assert_eq!(b, back);
    assert_eq!(back.settings[1].value, SettingValue::F32(121.5f32.to_bits()));
    assert!(back.settings[0].value.same_type(SettingValue::Bool(false)));
    assert!(!back.settings[0].value.same_type(SettingValue::Int(0)));
}

#[test]
fn mistyped_setting_is_refused() {
    let bad = r#"{"format":"fretwire-backup","version":3,"device":"x","presets":[],
        "settings":[{"id":16,"type":"f32","value":true}],"irs":[]}"#;
    assert!(from_json(bad).is_err());
    let v: serde_json::Value = serde_json::from_str(bad).unwrap();
    match Backup::from_json(&to_value(&v)) {
        Err(BackupError::Mistyped { id, ty, entry }) => {
            assert_eq!((id, ty.as_str(), entry), (16, "f32", 0));
        }
        _ => panic!("a bool under an f32 tag is refused"),
    }
    let unknown = r#"{"format":"fretwire-backup","version":3,"device":"x","presets":[],
        "settings":[{"id":16,"type":"string","value":"x"}],"irs":[]}"#;
    assert!(from_json(unknown).is_err());
}

#[test]
fn presets_are_written_as_lowercase_hex_in_a_fixed_member_order() {
    let b = Backup {
        device: "HX Stomp".into(),
        presets: vec![BackupPreset { bank: 0, index: 3, name: "Clean".into(), raw: vec![0xAB, 0x01, 0xff] }],
        ..Default::default()
    };
    let v: serde_json::Value = serde_json::from_str(&to_json(&b)).unwrap();
    assert_eq!(v["presets"][0]["raw_hex"], "ab01ff");
    let text = to_json(&b);
    let order: Vec<usize> = ["\"bank\"", "\"index\"", "\"name\"", "\"raw_hex\""]
        .iter()
        .map(|k| text.find(k).unwrap())
        .collect();
    assert!(order.windows(2).all(|w| w[0] < w[1]));
}
