use cargo_stale::lookup::{latest_from_response, merge_latest, query_name, registry_url, unique_names};
use cargo_stale::types::{CrateDetails, CrateInfo, Dependency, DependencyType};

fn dep(name: &str, source: &str) -> Dependency {
    Dependency {
        name: name.to_string(),
        current_version: "1.0".to_string(),
        latest_version: None,
        dep_type: DependencyType::Normal,
        source: source.to_string(),
    }
}

#[test]
fn shared_name_is_queried_once_and_merged_alike() {
    let deps = vec![dep("serde", "root"), dep("toml", "root"), dep("serde", "member")];
    let names = unique_names(&deps);
    assert_eq!(names, vec!["serde".to_string(), "toml".to_string()]);
    let answers = vec![
        ("serde".to_string(), Some("1.0.200".to_string())),
        ("toml".to_string(), None),
    ];
    let merged = merge_latest(deps, &answers);
    assert_eq!(merged.len(), 3);
    assert_eq!(merged[0].latest_version.as_deref(), Some("1.0.200"));
    assert_eq!(merged[2].latest_version.as_deref(), Some("1.0.200"));
    assert_eq!(merged[2].source, "member");
    assert_eq!(merged[1].latest_version, None);
}

#[test]
fn missing_answer_stays_unknown() {
    let merged = merge_latest(vec![dep("rand", "root")], &vec![]);
    assert_eq!(merged[0].latest_version, None);
    assert_eq!(merged[0].name, "rand");
}

#[test]
fn response_decides_latest() {
    let info = || CrateInfo { crate_info: CrateDetails { max_version: "0.8.5".to_string() } };
    assert_eq!(latest_from_response(true, Some(info())), Some("0.8.5".to_string()));
    assert_eq!(latest_from_response(false, Some(info())), None);
    assert_eq!(latest_from_response(true, None), None);
}

#[test]
fn query_uses_first_word() {
    assert_eq!(query_name("serde"), "serde");
    assert_eq!(query_name("  serde extra"), "serde");
    assert_eq!(query_name("   "), "   ");
    assert_eq!(registry_url("tokio"), "https://crates.io/api/v1/crates/tokio");
}
