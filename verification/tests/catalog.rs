use fretwire::catalog::{category_color, category_colors_from, discrete_control_labels, sync_groups_from};
use fretwire::json::{JsonNumber, JsonValue};
use fretwire::picker::{categories, models_in_category, ModelPick, SymbolEntry};

fn s(t: &str) -> JsonValue {
    JsonValue::Str(t.to_string())
}

fn obj(members: Vec<(&str, JsonValue)>) -> JsonValue {
    JsonValue::Object(members.into_iter().map(|(k, v)| (k.to_string(), v)).collect())
}

fn arr(items: Vec<JsonValue>) -> JsonValue {
    JsonValue::Array(items)
}

fn named(name: &str, color: &str) -> JsonValue {
    obj(vec![("color", s(color)), ("name", s(name))])
}

#[test]
fn category_colours_are_read_from_anywhere_in_the_tree() {
    let root = obj(vec![
        ("categories", arr(vec![named("Amp", "0xFF0000"), named("Cab", "0Xff0001"), named("Bad", "red")])),
        ("more", obj(vec![("sub", arr(vec![named("Amp", "0x00FF00"), named("Delay", "0x+1F")]))])),
        ("skipped", named("Wah", "0x1FFFFFFFF")),
    ]);
    let colors = category_colors_from(&root);
    assert_eq!(
        colors,
        vec![
            ("Amp".to_string(), 0xFF0000),
            ("Cab".to_string(), 0xFF0001),
            ("Amp".to_string(), 0x00FF00),
            ("Delay".to_string(), 0x1F),
        ]
    );
    // The first colour a name is given is the one it keeps.
    assert_eq!(category_color(&colors, 1), Some(0xFF0000));
    // Amp+Cab and Cab (Mic+IR) take the colours of what they are made of.
    assert_eq!(category_color(&colors, 100), Some(0xFF0000));
    assert_eq!(category_color(&colors, 19), Some(0xFF0001));
    assert_eq!(category_color(&colors, 9), Some(0x1F));
    assert_eq!(category_color(&colors, 10), None);
    assert_eq!(category_color(&colors, 99), None);
}

#[test]
fn a_tree_without_colours_gives_none() {
    assert!(category_colors_from(&JsonValue::Null).is_empty());
    assert!(category_colors_from(&named("Amp", "0x")).is_empty());
}

fn keyed(k: &str) -> JsonValue {
    obj(vec![(k, JsonValue::Null)])
}

#[test]
fn sync_groups_are_the_three_row_tempo_entries() {
    let delay = obj(vec![
        ("id", s("HD2_DelaySimple")),
        (
            "params",
            arr(vec![
                arr(vec![keyed("TempoSync1"), keyed("SyncSelect1"), keyed("Time")]),
                arr(vec![keyed("Mix")]),
                arr(vec![keyed("SyncSelect1"), keyed("TempoSync1"), keyed("Time")]),
            ]),
        ),
    ]);
    let plain = obj(vec![("id", s("HD2_Comp")), ("params", arr(vec![arr(vec![keyed("Threshold")])]))]);
    let root = obj(vec![("models", arr(vec![plain, delay]))]);
    let groups = sync_groups_from(&root);
    assert_eq!(groups.len(), 1);
    assert_eq!(groups[0].0, "HD2_DelaySimple");
    assert_eq!(
        groups[0].1,
        vec![("TempoSync1".to_string(), "SyncSelect1".to_string(), "Time".to_string())]
    );
}

#[test]
fn discrete_controls_carry_their_label_lists() {
    let number = JsonValue::Number(JsonNumber { int: Some(3), uint: Some(3), float: None });
    let root = obj(vec![
        ("Angle", obj(vec![("format", arr(vec![s("0 deg")])), ("isDiscrete", JsonValue::Bool(false))])),
        ("Mic", obj(vec![("format", arr(vec![s("57 Dynamic"), s("409 Dynamic")])), ("isDiscrete", JsonValue::Bool(true))])),
        ("Mixed", obj(vec![("format", arr(vec![s("a"), number])), ("isDiscrete", JsonValue::Bool(true))])),
        ("Empty", obj(vec![("format", arr(vec![])), ("isDiscrete", JsonValue::Bool(true))])),
    ]);
    let labels = discrete_control_labels(&root);
    assert_eq!(labels, vec![("Mic".to_string(), vec!["57 Dynamic".to_string(), "409 Dynamic".to_string()])]);
    assert!(discrete_control_labels(&arr(vec![])).is_empty());
}

fn entry(index: usize, symbol: &str, category: Option<i64>, name: Option<&str>) -> SymbolEntry {
    SymbolEntry { index, symbol: symbol.to_string(), category, name: name.map(str::to_string) }
}

fn table() -> Vec<SymbolEntry> {
    vec![
        entry(0, "HD2_PreampEVPanamaRed", Some(1), Some("EV Panama Red")),
        entry(1, "HD2_AmpEVPanamaRed", Some(1), Some("EV Panama Red")),
        entry(2, "HD2_DelaySimpleMono", Some(9), Some("Simple Delay")),
        entry(3, "HD2_DelaySimpleStereo", Some(9), Some("Simple Delay")),
        entry(4, "HD2_DelayAnalogMono", Some(9), Some("Analog Delay")),
        entry(5, "HD2_CabMicIr_4x12GreenbackWithPan", Some(19), Some("4x12 Greenback")),
        entry(6, "HD2_CabMicIr_4x12Greenback", Some(19), Some("4x12 Greenback")),
        entry(7, "HD2_PitchSimple", Some(5), Some("Simple Pitch")),
        entry(8, "HD2_Mystery", None, None),
    ]
}

fn shown(picks: &[ModelPick]) -> Vec<(usize, String, Option<&'static str>, Option<usize>)> {
    picks.iter().map(|p| (p.index, p.name.clone(), p.variant, p.paired_index)).collect()
}

#[test]
fn same_named_amp_and_preamp_are_told_apart() {
    let picks = models_in_category(&table(), &vec![], 1, None);
    assert_eq!(
        shown(&picks),
        vec![
            (1, "EV Panama Red (Amp)".to_string(), None, None),
            (0, "EV Panama Red (Preamp)".to_string(), None, None),
        ]
    );
    assert_eq!(picks[0].symbolic_id, "HD2_AmpEVPanamaRed");
}

#[test]
fn the_block_s_own_variant_is_offered_where_a_model_has_it() {
    let stereo = models_in_category(&table(), &vec![], 9, Some("Stereo"));
    assert_eq!(
        shown(&stereo),
        vec![
            (4, "Analog Delay".to_string(), Some("Mono"), None),
            (3, "Simple Delay".to_string(), Some("Stereo"), None),
        ]
    );
    let mono = models_in_category(&table(), &vec![], 9, Some("Mono"));
    assert_eq!(mono[1].index, 2);
}

#[test]
fn dual_cabs_are_not_offered() {
    let cabs = models_in_category(&table(), &vec![], 19, None);
    assert_eq!(shown(&cabs), vec![(6, "4x12 Greenback".to_string(), None, None)]);
}

#[test]
fn the_amp_cab_list_pairs_each_amp_with_its_linked_cab() {
    let links = vec![("HD2_AmpEVPanamaRed".to_string(), "HD2_CabMicIr_4x12Greenback".to_string())];
    let picks = models_in_category(&table(), &links, 100, None);
    assert_eq!(shown(&picks), vec![(1, "EV Panama Red (Amp)".to_string(), None, Some(6))]);
}

#[test]
fn categories_are_listed_by_name() {
    let names: Vec<(i64, &str)> = categories(&table());
    assert_eq!(
        names,
        vec![(1, "Amp"), (100, "Amp+Cab"), (19, "Cab (Mic+IR)"), (9, "Delay"), (7, "Pitch/Synth")]
    );
    assert!(categories(&vec![]).is_empty());
}
