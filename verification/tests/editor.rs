use fretwire::editor::{
    canonical_category, category_name, default_snapshot_name, is_dual_cab, link_sync_groups,
    name_params, split_types, split_variant, trailing_extra_name, type_token, SyncLink, SyncRole,
};

#[test]
fn cab_categories_name_the_trailing_extra_mic_not_trails() {
    assert_eq!(trailing_extra_name(Some(2)), "Mic"); // Cab
    assert_eq!(trailing_extra_name(Some(19)), "Mic"); // Cab (Mic+IR)
    assert_eq!(trailing_extra_name(Some(10)), "Trails"); // Reverb
    assert_eq!(trailing_extra_name(Some(9)), "Trails"); // Delay
    assert_eq!(trailing_extra_name(None), "Trails");
}

#[test]
fn default_snapshot_names_are_one_based() {
    let names: Vec<String> = (0..3).map(default_snapshot_name).collect();
    assert_eq!(names, ["SNAPSHOT 1", "SNAPSHOT 2", "SNAPSHOT 3"]);
}

fn order(v: &[&str]) -> Vec<String> {
    v.iter().map(|s| s.to_string()).collect()
}

#[test]
fn legacy_cab_trailing_value_is_named_mic() {
    let order = order(&["Distance", "LowCut", "HighCut", "EarlyReflections", "Level"]);
    let params = name_params(6, Some(&order), Some(2));
    assert_eq!(params.last().unwrap().name, "Mic");
    let params = name_params(6, Some(&order), Some(10));
    assert_eq!(params.last().unwrap().name, "Trails");
}

#[test]
fn the_trailing_extra_is_addressed_as_an_extra() {
    let order = order(&["Time", "Feedback", "Mix"]);
    let params = name_params(4, Some(&order), Some(9));
    assert!(
        params[..3]
            .iter()
            .all(|p| p.settable && p.extra_index.is_none()),
        "listed params keep the ordinary param-index path"
    );
    assert_eq!(params[3].name, "Trails");
    assert_eq!(params[3].extra_index, Some(0));
    assert!(params[3].settable);
}

#[test]
fn several_values_past_the_list_stay_unsettable() {
    let order = order(&["Time", "Mix"]);
    let params = name_params(4, Some(&order), Some(9));
    assert!(
        params[2..]
            .iter()
            .all(|p| !p.settable && p.extra_index.is_none())
    );
    assert_eq!(params[2].name, "#2");
    assert_eq!(params[3].name, "#3");
}

#[test]
fn without_a_name_list_every_param_stays_settable() {
    let params = name_params(4, None, Some(9));
    assert!(params.iter().all(|p| p.settable));
    assert_eq!(params[0].name, "#0");
    assert_eq!(params[0].index, 0);
}

#[test]
fn link_marks_all_three_members_from_any_side() {
    let names = order(&["TempoSync1", "SyncSelect1", "Speed", "Intensity", "Level"]);
    let mut sync: Vec<Option<SyncLink>> = vec![None; names.len()];
    let groups = vec![
        ("TempoSync1".to_string(), "SyncSelect1".to_string(), "Speed".to_string()),
        ("TempoSync2".to_string(), "SyncSelect2".to_string(), "Rate".to_string()),
    ];
    link_sync_groups(&names, &mut sync, &groups);
    let link = |role| Some(SyncLink { role, tempo: 0, note: 1, governed: 2 });
    assert_eq!(sync[0], link(SyncRole::Tempo));
    assert_eq!(sync[1], link(SyncRole::Note));
    assert_eq!(sync[2], link(SyncRole::Governed));
    assert_eq!(sync[3], None);
    assert_eq!(sync[4], None);
}

#[test]
fn categories_fold_and_name() {
    assert_eq!(canonical_category(5), 7);
    assert_eq!(canonical_category(9), 9);
    assert_eq!(category_name(5), Some("Pitch/Synth"));
    assert_eq!(category_name(1), Some("Amp"));
    assert_eq!(category_name(100), Some("Amp+Cab"));
    assert_eq!(category_name(18), None);
    assert_eq!(category_name(0), None);
}

#[test]
fn symbols_split_into_type_base_and_variant() {
    assert_eq!(type_token("HD2_PreampEVPanamaRed"), "Preamp");
    assert_eq!(type_token("HD2_AmpEVPanamaRed"), "Amp");
    assert_eq!(type_token("HD2_AMP"), "AMP");
    assert_eq!(type_token("Plain"), "Plain");
    assert_eq!(split_variant("HD2_ChorusMono"), ("HD2_Chorus".to_string(), Some("Mono")));
    assert_eq!(split_variant("HD2_ChorusStereo"), ("HD2_Chorus".to_string(), Some("Stereo")));
    assert_eq!(split_variant("HD2_AmpBrit"), ("HD2_AmpBrit".to_string(), None));
    assert!(is_dual_cab("HD2_CabMicIr_4x12GreenbackWithPan"));
    assert!(!is_dual_cab("HD2_CabMicIr_4x12Greenback"));
    let types = split_types();
    assert_eq!(types[0], (257, "HD2_AppDSPFlowSplitY", "Y"));
    assert_eq!(types.len(), 4);
}
