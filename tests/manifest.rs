use cargo_stale::manifest::{
    extract_dependencies, member_source_label, package_name, parse_cargo_toml, parse_manifest,
    workspace_members, ManifestError, TomlValue,
};
use cargo_stale::types::{Dependency, DependencyType};

fn summary(deps: &[Dependency]) -> Vec<(String, String, DependencyType, String)> {
    deps.iter()
        .map(|d| (d.name.clone(), d.current_version.clone(), d.dep_type, d.source.clone()))
        .collect()
}

fn rec(name: &str, req: &str, kind: DependencyType, source: &str) -> (String, String, DependencyType, String) {
    (name.to_string(), req.to_string(), kind, source.to_string())
}

#[test]
fn workspace_inherited_version_is_resolved() {
    let text = "[workspace.dependencies]\nfoo = \"2.1\"\n\n[dependencies]\nfoo = { workspace = true }\n";
    let deps = parse_cargo_toml(text, false, "root").unwrap();
    assert_eq!(
        summary(&deps),
        vec![
            rec("foo", "2.1", DependencyType::Workspace, "root"),
            rec("foo", "2.1", DependencyType::Normal, "root"),
        ]
    );
    assert!(deps.iter().all(|d| d.latest_version.is_none()));
}

#[test]
fn path_dependency_is_excluded() {
    let text = "[dependencies]\nlocal = { path = \"../local\" }\nserde = \"1\"\n";
    let deps = parse_cargo_toml(text, false, "root").unwrap();
    assert_eq!(summary(&deps), vec![rec("serde", "1", DependencyType::Normal, "root")]);
}

#[test]
fn git_and_unresolved_workspace_entries_are_dropped() {
    let text = "[dependencies]\na = { git = \"https://example.com/a\" }\nb = { workspace = true }\nc = { version = \"0.3\", features = [\"x\"] }\n";
    let deps = parse_cargo_toml(text, false, "m").unwrap();
    assert_eq!(summary(&deps), vec![rec("c", "0.3", DependencyType::Normal, "m")]);
}

#[test]
fn tables_in_order_and_build_only_when_asked() {
    let text = "[dependencies]\nx = \"1\"\n[dev-dependencies]\ny = \"2\"\n[build-dependencies]\nz = \"3\"\n";
    let without = parse_cargo_toml(text, false, "root").unwrap();
    assert_eq!(
        summary(&without),
        vec![rec("x", "1", DependencyType::Normal, "root"), rec("y", "2", DependencyType::Dev, "root")]
    );
    let with = parse_cargo_toml(text, true, "root").unwrap();
    assert_eq!(
        summary(&with),
        vec![
            rec("x", "1", DependencyType::Normal, "root"),
            rec("y", "2", DependencyType::Dev, "root"),
            rec("z", "3", DependencyType::Build, "root"),
        ]
    );
}

#[test]
fn workspace_table_entry_with_version_field() {
    let text = "[workspace.dependencies]\nbar = { version = \"0.9\", default-features = false }\n[dev-dependencies]\nbar = { workspace = true }\n";
    let deps = parse_cargo_toml(text, false, "root").unwrap();
    assert_eq!(
        summary(&deps),
        vec![
            rec("bar", "0.9", DependencyType::Workspace, "root"),
            rec("bar", "0.9", DependencyType::Dev, "root"),
        ]
    );
}

#[test]
fn invalid_manifest_is_a_parse_error() {
    match parse_cargo_toml("[dependencies\nfoo = ", false, "root") {
        Err(ManifestError::Parse(_)) => {}
        _ => panic!("expected a parse error"),
    }
}

#[test]
fn empty_manifest_has_no_records() {
    assert!(parse_cargo_toml("", true, "root").unwrap().is_empty());
}

#[test]
fn members_and_package_name() {
    let text = "[package]\nname = \"top\"\n[workspace]\nmembers = [\"crates/a\", 3, \"crates/b\"]\n";
    let doc = parse_manifest(text).unwrap();
    assert_eq!(workspace_members(&doc), vec!["crates/a".to_string(), "crates/b".to_string()]);
    assert_eq!(package_name(&doc), Some("top".to_string()));
    assert_eq!(member_source_label(text, "dir"), "top");
    assert_eq!(member_source_label("[workspace]\n", "dir"), "dir");
    assert_eq!(member_source_label("not toml [", "dir"), "dir");
}

#[test]
fn extraction_from_a_built_document() {
    let doc = TomlValue::Table(vec![(
        "dependencies".to_string(),
        TomlValue::Table(vec![
            ("a".to_string(), TomlValue::Str("^1".to_string())),
            ("b".to_string(), TomlValue::Other),
        ]),
    )]);
    let deps = extract_dependencies(&doc, false, "root");
    assert_eq!(summary(&deps), vec![rec("a", "^1", DependencyType::Normal, "root")]);
}
