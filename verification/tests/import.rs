use fretwire::import::{
    data_status, hx, import_from, is_reference_file, pod_go, DataFamily, FamilyListing,
};

#[test]
fn reference_files_are_recognised_by_name() {
    assert!(is_reference_file("Helix.sym"));
    assert!(is_reference_file("amp.models"));
    assert!(is_reference_file("empty_preset.hlx"));
    // Factory presets ride along in an installer; we don't want the hundreds of them.
    assert!(!is_reference_file("US Double Nrm.hlx"));
    assert!(!is_reference_file("readme.txt"));
}

#[test]
fn families_are_told_apart_by_their_symbol_table() {
    assert_eq!(DataFamily::for_model_code("P34"), pod_go());
    assert_eq!(DataFamily::for_model_code("P33"), hx());
    // An unknown code is not a POD Go, and the HX family is the right default for the rest.
    assert_eq!(DataFamily::for_model_code("P99"), hx());
}

fn names(v: &[&str]) -> Vec<String> {
    v.iter().map(|s| s.to_string()).collect()
}

fn found(v: &[(&str, &str)]) -> Vec<(String, String)> {
    v.iter().map(|(n, p)| (n.to_string(), p.to_string())).collect()
}

#[test]
fn a_directory_is_told_apart_by_its_symbol_table() {
    assert_eq!(DataFamily::detect(&names(&["amp.models", "Helix.sym"])), Some(hx()));
    assert_eq!(
        DataFamily::detect(&names(&["Helix.sym", "PodGo.sym"])),
        Some(pod_go()),
        "the POD Go is tried first"
    );
    assert_eq!(DataFamily::detect(&names(&["amp.models"])), None);
}

#[test]
fn a_family_names_its_own_directory_and_files() {
    assert_eq!(hx().dir_under("/data"), "/data");
    assert_eq!(pod_go().dir_under("/data"), "/data/pod-go");
    assert_eq!(pod_go().dir_under("/data/"), "/data/pod-go");
    assert_eq!(pod_go().essential(), ["PodGo.sym", "PodGoModelDefs.bin"]);
    assert!(hx().owns("HX_ModelCatalog.json"));
    assert!(!hx().owns("PGControls.json"));
    assert!(is_reference_file("PGModelCatalog.bin"));
    assert!(is_reference_file("default_preset_p34.hlx"));
}

#[test]
fn the_import_keeps_one_copy_per_name_preferring_res() {
    let plan = import_from(
        "/src",
        true,
        &found(&[
            ("amp.models", "/src/res/amp.models"),
            ("Helix.sym", "/src/a/Helix.sym"),
            ("amp.models", "/src/other/amp.models"),
            ("Helix.sym", "/src/b/Helix.sym"),
        ]),
        "/data",
    )
    .unwrap();
    assert_eq!(plan.family, hx());
    assert_eq!(plan.dest, "/data");
    assert_eq!(
        plan.files,
        found(&[
            ("Helix.sym", "/src/b/Helix.sym"),
            ("amp.models", "/src/res/amp.models"),
        ])
    );
    let summary = plan.summary([true, false]);
    assert_eq!(summary.family, "HX Edit");
    assert_eq!(summary.copied, 2);
    assert_eq!(summary.missing, vec!["HelixModelDefs.bin".to_string()]);
}

#[test]
fn pod_go_data_is_planned_into_its_own_subdir() {
    let plan = import_from(
        "/src/res",
        true,
        &found(&[
            ("PodGo.sym", "/src/res/PodGo.sym"),
            ("PodGoModelDefs.bin", "/src/res/PodGoModelDefs.bin"),
            ("amp.models", "/src/res/amp.models"),
        ]),
        "/data",
    )
    .unwrap();
    assert_eq!(plan.family, pod_go());
    assert_eq!(plan.dest, "/data/pod-go");
    assert_eq!(plan.files.len(), 3);
    assert!(plan.summary([true, true]).missing.is_empty());
}

#[test]
fn nothing_found_is_an_error_that_says_where() {
    match import_from("/x", true, &Vec::new(), "/data") {
        Err(e) => assert_eq!(
            e,
            "no reference data (Helix.sym, *.models, …) found under /x — point at an HX Edit \
             install's `res/` folder or an unpacked installer"
        ),
        Ok(_) => panic!("an empty source imports nothing"),
    }
    match import_from("setup.exe", false, &Vec::new(), "/data") {
        Err(e) => assert_eq!(
            e,
            "no reference data found in setup.exe — is this an HX Edit installer?"
        ),
        Ok(_) => panic!("an empty installer imports nothing"),
    }
}

#[test]
fn a_status_sums_over_both_families() {
    let listings = vec![
        FamilyListing {
            entries: names(&["PodGo.sym", "amp.models", "notes.txt"]),
            has_symbols: true,
        },
        FamilyListing {
            entries: names(&["Helix.sym", "amp.models", "pod-go"]),
            has_symbols: true,
        },
    ];
    let st = data_status("/data".into(), &listings);
    assert!(st.present);
    assert_eq!(st.files, 4);
    assert_eq!(st.families, vec!["POD Go Edit", "HX Edit"]);
    let empty = vec![
        FamilyListing { entries: vec![], has_symbols: false },
        FamilyListing { entries: vec![], has_symbols: false },
    ];
    let st = data_status("/data".into(), &empty);
    assert!(!st.present);
    assert!(st.families.is_empty());
}
