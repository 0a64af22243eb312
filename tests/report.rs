use cargo_stale::cli::{Cli, DependencyScope, OutputFilter, OutputVerbosity, WorkspaceMode};
use cargo_stale::report::{
    calculate_column_widths, check_multiple_sources, count_outdated, empty_results_message,
    filter_results, get_status, is_prerelease_version, prepare_display_data, summarize, Status, Summary,
};
use cargo_stale::types::{Dependency, DependencyType};

fn dep(name: &str, req: &str, latest: Option<&str>, kind: DependencyType, source: &str) -> Dependency {
    Dependency {
        name: name.to_string(),
        current_version: req.to_string(),
        latest_version: latest.map(|s| s.to_string()),
        dep_type: kind,
        source: source.to_string(),
    }
}

fn cli(outdated_only: bool, verbose: bool) -> Cli {
    Cli {
        manifest: "Cargo.toml".to_string(),
        outdated_only,
        build_deps: false,
        workspace: true,
        verbose,
    }
}

#[test]
fn prerelease_detection() {
    assert!(is_prerelease_version("1.0.0-alpha.1"));
    assert!(is_prerelease_version("1.0.0-rc.2"));
    assert!(is_prerelease_version("1.0.0-1"));
    assert!(!is_prerelease_version("1.0.0"));
    assert!(!is_prerelease_version("1.0.0-x"));
    assert!(!is_prerelease_version("0.1.0+dev"));
}

#[test]
fn statuses() {
    assert_eq!(get_status(&dep("a", "1.0", Some("2.0.0"), DependencyType::Normal, "root")), Status::Outdated);
    assert_eq!(get_status(&dep("a", "1.0", Some("2.0.0-beta.1"), DependencyType::Normal, "root")), Status::OutdatedPre);
    assert_eq!(get_status(&dep("a", "2.0", Some("2.0.0"), DependencyType::Normal, "root")), Status::Latest);
    assert_eq!(get_status(&dep("a", "3.0", Some("2.0.0-rc.1"), DependencyType::Normal, "root")), Status::LatestPre);
    assert_eq!(get_status(&dep("a", "1.0", None, DependencyType::Normal, "root")), Status::Unknown);
    assert_eq!(Status::Outdated.text(), "🔴 Outdated");
    assert_eq!(Status::Unknown.text(), "❓ Unknown");
}

#[test]
fn filtering_and_rows() {
    let deps = vec![
        dep("old", "1.0", Some("2.0.0"), DependencyType::Dev, "root"),
        dep("new", "2.0", Some("2.0.0"), DependencyType::Normal, "member"),
        dep("gone", "1.0", None, DependencyType::Build, "root"),
    ];
    let all = filter_results(&deps, &cli(false, false));
    assert_eq!(all.len(), 3);
    let only = filter_results(&deps, &cli(true, false));
    assert_eq!(only.len(), 1);
    assert_eq!(only[0].name, "old");
    assert!(check_multiple_sources(&all));
    assert!(!check_multiple_sources(&only));
    let rows = prepare_display_data(&all);
    assert_eq!(rows[0].name, "old (dev)");
    assert_eq!(rows[1].name, "new");
    assert_eq!(rows[2].name, "gone (build)");
    assert_eq!(rows[2].latest, "N/A");
    assert_eq!(count_outdated(&rows), 1);
    let w = calculate_column_widths(&rows, true);
    assert_eq!((w.name, w.current, w.latest, w.source), (14, 17, 16, 8));
    let w = calculate_column_widths(&rows, false);
    assert_eq!(w.source, 0);
}

#[test]
fn messages_and_summary() {
    assert_eq!(empty_results_message(&cli(true, false)), "🎉 No outdated dependencies found!");
    assert_eq!(empty_results_message(&cli(false, false)), "❌ No dependencies found");
    assert_eq!(summarize(2, &cli(false, true)), Summary::Outdated { count: 2, show_hint: true });
    assert_eq!(summarize(0, &cli(false, false)), Summary::AllUpToDate);
    assert_eq!(summarize(0, &cli(true, false)), Summary::Nothing);
}

#[test]
fn options() {
    let c = Cli { manifest: "x".to_string(), outdated_only: true, build_deps: true, workspace: false, verbose: true };
    assert_eq!(c.output_filter(), OutputFilter::OutdatedOnly);
    assert!(c.output_filter().is_outdated_only());
    assert_eq!(c.dependency_scope(), DependencyScope::IncludeBuildDeps);
    assert!(c.dependency_scope().includes_build_deps());
    assert_eq!(c.workspace_mode(), WorkspaceMode::RootOnly);
    assert!(!c.workspace_mode().includes_members());
    assert_eq!(c.output_verbosity(), OutputVerbosity::Verbose);
    assert!(c.output_verbosity().is_verbose());
    assert_eq!(DependencyType::Workspace.label(), " (workspace)");
    assert_eq!(DependencyType::Normal.label(), "");
}
