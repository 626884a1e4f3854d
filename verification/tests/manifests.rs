use worldsong::manifest::{
    cargo_toml_text, check_and_merge_manifests, conflict_message, copy_dependency,
    find_conflicts, get_version, merge_dependencies, order_conflicts, Conflict,
    DetailedTomlDependency, NamedDependency, NamedManifest, TomlDependency, TomlManifest,
};

fn simple(v: &str) -> TomlDependency {
    TomlDependency::Simple(v.to_string())
}

fn detailed(version: Option<&str>) -> TomlDependency {
    TomlDependency::Detailed(DetailedTomlDependency {
        version: version.map(|v| v.to_string()),
        git: Some("https://example.org/x.git".to_string()),
        features: Some(vec!["a".to_string(), "b".to_string()]),
        optional: Some(true),
        ..Default::default()
    })
}

fn manifest(name: &str, deps: Option<Vec<(&str, TomlDependency)>>) -> NamedManifest {
    NamedManifest {
        name: name.to_string(),
        manifest: TomlManifest {
            dependencies: deps.map(|ds| {
                ds.into_iter()
                    .map(|(n, d)| NamedDependency { name: n.to_string(), dependency: d })
                    .collect()
            }),
        },
    }
}

fn conflict(name: &str, ma: &str, mb: &str, va: &str, vb: &str) -> Conflict {
    Conflict {
        name: name.to_string(),
        manifest_a: ma.to_string(),
        manifest_b: mb.to_string(),
        version_a: va.to_string(),
        version_b: vb.to_string(),
    }
}

fn fields(c: &Conflict) -> (String, String, String, String, String) {
    (
        c.name.clone(),
        c.manifest_a.clone(),
        c.manifest_b.clone(),
        c.version_a.clone(),
        c.version_b.clone(),
    )
}

fn owned(t: (&str, &str, &str, &str, &str)) -> (String, String, String, String, String) {
    (t.0.to_string(), t.1.to_string(), t.2.to_string(), t.3.to_string(), t.4.to_string())
}

#[test]
fn version_of_each_form() {
    assert_eq!(get_version(&simple("0.2.1")), "0.2.1");
    assert_eq!(get_version(&detailed(Some("1.0"))), "1.0");
    assert_eq!(get_version(&detailed(None)), "");
}

#[test]
fn copy_keeps_every_field() {
    match copy_dependency(&detailed(Some("3"))) {
        TomlDependency::Detailed(d) => {
            assert_eq!(d.version.as_deref(), Some("3"));
            assert_eq!(d.git.as_deref(), Some("https://example.org/x.git"));
            assert_eq!(d.features, Some(vec!["a".to_string(), "b".to_string()]));
            assert_eq!(d.optional, Some(true));
            assert_eq!(d.path, None);
            assert_eq!(d.default_features, None);
        }
        TomlDependency::Simple(_) => panic!("form changed"),
    }
}

#[test]
fn conflict_between_two_manifests() {
    let ms = vec![
        manifest("core", Some(vec![("sdl2", simple("0.1"))])),
        manifest("graphics", Some(vec![("sdl2", simple("0.2"))])),
    ];
    let cs = find_conflicts(&ms);
    assert_eq!(cs.len(), 1);
    assert_eq!(fields(&cs[0]), owned(("sdl2", "graphics", "core", "0.2", "0.1")));
}

#[test]
fn equal_versions_are_no_conflict() {
    let ms = vec![
        manifest("core", Some(vec![("sdl2", simple("0.1"))])),
        manifest("graphics", Some(vec![("sdl2", detailed(Some("0.1")))])),
    ];
    assert_eq!(find_conflicts(&ms).len(), 0);
}

#[test]
fn only_the_first_entry_of_a_manifest_is_compared() {
    // The second entries differ, but the walk only ever checks the first
    // entry of each manifest.
    let ms = vec![
        manifest("a", Some(vec![("x", simple("1")), ("y", simple("1"))])),
        manifest("b", Some(vec![("x", simple("1")), ("y", simple("2"))])),
    ];
    assert_eq!(find_conflicts(&ms).len(), 0);
}

#[test]
fn manifests_without_entries_are_skipped() {
    let ms = vec![
        manifest("empty", Some(vec![])),
        manifest("none", None),
        manifest("a", Some(vec![("x", simple("1"))])),
        manifest("b", Some(vec![("z", simple("1")), ("x", detailed(None))])),
        manifest("c", Some(vec![("x", simple("2"))])),
    ];
    let cs = find_conflicts(&ms);
    let got: Vec<_> = cs.iter().map(fields).collect();
    assert_eq!(
        got,
        vec![
            owned(("x", "c", "a", "2", "1")),
            owned(("x", "c", "b", "2", "")),
        ]
    );
}

#[test]
fn ordering_orients_and_sorts_stably() {
    let cs = vec![
        conflict("x", "zeta", "alpha", "1", "2"),
        conflict("y", "beta", "gamma", "3", "4"),
        conflict("z", "alpha", "delta", "5", "6"),
        conflict("w", "beta", "alpha", "7", "8"),
    ];
    let got: Vec<_> = order_conflicts(cs).iter().map(fields).collect();
    assert_eq!(
        got,
        vec![
            owned(("x", "alpha", "zeta", "2", "1")),
            owned(("z", "alpha", "delta", "5", "6")),
            owned(("w", "alpha", "beta", "8", "7")),
            owned(("y", "beta", "gamma", "3", "4")),
        ]
    );
}

#[test]
fn messages_name_both_manifests() {
    assert_eq!(
        conflict_message(&conflict("sdl2", "core", "graphics", "0.1", "")),
        "ERROR: Version mismatch: \"core\" requires 0.1 of sdl2, while \"graphics\" uses the latest available version of sdl2."
    );
    assert_eq!(
        conflict_message(&conflict("rand", "a", "b", "", "0.3")),
        "ERROR: Version mismatch: \"a\" uses the latest available version of rand, while \"b\" requires 0.3 of rand."
    );
}

#[test]
fn merging_keeps_the_last_entry_of_each_name() {
    let ms = vec![
        manifest("a", Some(vec![("x", simple("1")), ("y", simple("1"))])),
        manifest("b", None),
        manifest("c", Some(vec![("y", detailed(Some("2"))), ("z", simple("3"))])),
    ];
    let merged = merge_dependencies(&ms);
    let names: Vec<_> = merged.iter().map(|d| d.name.clone()).collect();
    assert_eq!(names, vec!["x", "y", "z"]);
    assert_eq!(get_version(&merged[0].dependency), "1");
    assert_eq!(get_version(&merged[1].dependency), "2");
    assert!(matches!(merged[1].dependency, TomlDependency::Detailed(_)));
    assert_eq!(get_version(&merged[2].dependency), "3");
}

#[test]
fn check_merges_when_no_conflict() {
    let ms = vec![
        manifest("kernel", Some(vec![("sdl2", simple("0.2"))])),
        manifest("scheduler", Some(vec![("sdl2", simple("0.2")), ("time", simple("0.1"))])),
    ];
    match check_and_merge_manifests(&ms) {
        Ok(deps) => {
            let names: Vec<_> = deps.iter().map(|d| d.name.clone()).collect();
            assert_eq!(names, vec!["sdl2", "time"]);
        }
        Err(lines) => panic!("unexpected conflicts: {:?}", lines),
    }
}

#[test]
fn check_reports_conflicts_then_advice() {
    let ms = vec![
        manifest("kernel", Some(vec![("sdl2", simple("0.2"))])),
        manifest("core", Some(vec![("sdl2", simple("0.1"))])),
    ];
    match check_and_merge_manifests(&ms) {
        Ok(_) => panic!("the conflict went unnoticed"),
        Err(lines) => assert_eq!(
            lines,
            vec![
                "ERROR: Version mismatch: \"core\" requires 0.1 of sdl2, while \"kernel\" requires 0.2 of sdl2.".to_string(),
                "You may be able to resolve these conflicts by modifying their respective \"Dependencies.toml\" files.".to_string(),
            ]
        ),
    }
}

#[test]
fn cargo_toml_names_common_dir_and_dependencies() {
    let text = cargo_toml_text("/ws/common", "[dependencies]\nsdl2 = \"0.2\"\n");
    let want = "#ATTENTION: This file is automatically generated. Don't modify it unless your life is terrible, or you wish it to be so.\n[package]\nname = \"state\"\nversion = \"0.0.1\"\nauthors = [ \"the ghost in the machine\" ]\n\n[lib]\nname = \"state\"\npath = \"state.rs\"\ncrate_type = [\"dylib\"]\nplugin = true\n\n[dependencies.worldsong-common]\npath = \"/ws/common\"\n\n[dependencies]\nsdl2 = \"0.2\"\n\n";
    assert_eq!(text, want);
}
