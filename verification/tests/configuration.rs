use codeindex::config::discovery::{
    anchor, collect_overrides, walk_continues, walk_step, FoundFile, WalkStep,
};
use codeindex::config::registry::{no_match_message, Registry};
use codeindex::config::settings::{
    data_root, default_db_path, default_label, effective_excludes, registry_path, starter_config,
    validate_root_config, ConfigFault, FolderOverride, IndexOverride, OverrideFile,
    ProjectConfig, ProjectContext, SearchOverride, SpaceConfig, CONFIG_FILE,
};

fn found(dir: &str, is_root: bool) -> FoundFile {
    FoundFile { dir: dir.into(), is_root }
}

fn folder(relative_dir: &str, index: Option<IndexOverride>, tests: Option<&str>) -> OverrideFile {
    OverrideFile {
        relative_dir: relative_dir.into(),
        settings: FolderOverride {
            root: false,
            index,
            search: tests.map(|policy| SearchOverride { tests: Some(policy.into()) }),
        },
    }
}

fn context(root: &str, config: ProjectConfig, overrides: Vec<OverrideFile>) -> ProjectContext {
    ProjectContext { root: root.into(), config, overrides }
}

#[test]
fn discovery_anchors_at_the_topmost_file_not_the_nearest() {
    // The walk from repo/vendor finds its own file first, then the root's.
    let files = vec![found("/t/repo/vendor", false), found("/t/repo", false)];
    let from_vendor = anchor(&files).unwrap();
    assert_eq!(files[from_vendor.root].dir, "/t/repo");
    let mut config = ProjectConfig::default();
    config.label = Some("repo".into());
    assert_eq!(context("/t/repo", config, Vec::new()).label(), "repo");
    assert_eq!(from_vendor.overrides.len(), 1);
    assert_eq!(from_vendor.overrides[0].1, "vendor");
}

#[test]
fn root_marker_stops_the_upward_walk() {
    let files = vec![found("/t/outer/libs/inner", true)];
    assert!(!walk_continues(&files));
    let stopped = anchor(&files).unwrap();
    assert_eq!(files[stopped.root].dir, "/t/outer/libs/inner");
    let mut config = ProjectConfig::default();
    config.label = Some("inner".into());
    assert_eq!(context("/t/outer/libs/inner", config, Vec::new()).label(), "inner");
    assert!(stopped.overrides.is_empty());
}

#[test]
fn override_chain_orders_root_first_and_tests_policy_is_nearest_wins() {
    let with_tests = || {
        let mut config = ProjectConfig::default();
        config.search.tests = Some("exclude".into());
        config
    };
    let deep = context(
        "/t/repo",
        with_tests(),
        vec![folder("suite", None, Some("include"))],
    );
    assert_eq!(deep.tests_policy(), Some("include"));
    let at_root = context("/t/repo", with_tests(), Vec::new());
    assert_eq!(at_root.tests_policy(), Some("exclude"));
    // Files that lie deeper come later.
    let files = vec![
        found("/t/repo/a/b", false),
        found("/t/repo/a", false),
        found("/t/repo", false),
    ];
    let order: Vec<String> =
        anchor(&files).unwrap().overrides.iter().map(|entry| entry.1.clone()).collect();
    assert_eq!(order, vec!["a".to_string(), "a/b".to_string()]);
}

#[test]
fn collected_overrides_translate_into_root_relative_excludes() {
    let mut config = ProjectConfig::default();
    config.index.exclude = vec!["target/**".into()];
    let files = vec![
        folder("vendor", Some(IndexOverride::Enabled(false)), None),
        folder(
            "docs",
            Some(IndexOverride::Tune { exclude: vec!["fixtures/**".into()], languages: None }),
            None,
        ),
    ];
    // A nested independent project excludes itself from the outer index.
    let overrides = collect_overrides(&files, &vec!["embedded".to_string()]);
    let excludes = effective_excludes(&config, &overrides);
    assert_eq!(
        excludes,
        vec![
            "target/**".to_string(),
            "docs/fixtures/**".to_string(),
            "embedded/**".to_string(),
            "vendor/**".to_string(),
        ]
    );
}

#[test]
fn nested_projects_are_skipped_entirely() {
    let tune = IndexOverride::Tune { exclude: vec!["fixtures/**".into()], languages: None };
    let files = vec![
        folder("embedded/sub", Some(IndexOverride::Enabled(false)), None),
        folder("docs", Some(tune), None),
    ];
    let nested = vec!["embedded/inner".to_string(), "embedded".to_string()];
    let overrides = collect_overrides(&files, &nested);
    let dirs: Vec<&str> = overrides.iter().map(|file| file.relative_dir.as_str()).collect();
    assert_eq!(dirs, vec!["docs", "embedded"]);
    assert!(matches!(
        &overrides[0].settings.index,
        Some(IndexOverride::Tune { exclude, languages: None }) if exclude[0] == "fixtures/**"
    ));
    assert!(matches!(overrides[1].settings.index, Some(IndexOverride::Enabled(false))));
    // A directory whose name only begins alike lies elsewhere.
    let beside = vec![folder("embedded-docs", Some(IndexOverride::Enabled(false)), None)];
    assert_eq!(collect_overrides(&beside, &nested).len(), 2);
}

#[test]
fn registry_round_trips_and_dedupes_labels() {
    let mut registry = Registry::default();
    let first = registry.register("/t/a/app", "app", "/tmp/a.db".into());
    let second = registry.register("/t/b/app", "app", "/tmp/b.db".into());
    assert_eq!(first.label, "app");
    assert_eq!(second.label, "app-2");
    // Idempotent by root.
    let again = registry.register("/t/a/app", "app", "/ignored".into());
    assert_eq!(again.label, "app");
    assert_eq!(registry.projects.len(), 2);
    // Containment lookup picks the deepest root.
    assert_eq!(registry.find("/t/a/app/src/lib.rs").unwrap().label, "app");
    assert_eq!(registry.find("app-2").unwrap().label, "app-2");
    assert!(registry.find("missing").is_none());
}

#[test]
fn removed_projects_are_gone() {
    let mut registry = Registry::default();
    registry.register("/t/a", "a", "/a.db".into());
    registry.register("/t/a/deep", "deep", "/d.db".into());
    assert_eq!(registry.find("/t/a/deep/x").unwrap().label, "deep");
    assert_eq!(registry.remove("deep").unwrap().db, "/d.db");
    assert!(!registry.has_root("/t/a/deep"));
    assert_eq!(registry.find("/t/a/deep/x").unwrap().label, "a");
    assert!(registry.remove("deep").is_none());
    assert!(no_match_message("deep").contains("deep"));
}

#[test]
fn removing_what_was_registered_restores_the_registry() {
    let mut registry = Registry::default();
    registry.register("/t/a", "app", "/a.db".into());
    let entry = registry.register("/t/b", "app", "/b.db".into());
    assert_eq!(registry.remove(&entry.label).unwrap().root, "/t/b");
    assert_eq!(registry.projects.len(), 1);
    assert_eq!(registry.projects[0].root, "/t/a");
    assert_eq!(registry.projects[0].label, "app");
    assert_eq!(registry.projects[0].db, "/a.db");
}

#[test]
fn walks_read_configuration_files_below_the_root() {
    assert_eq!(walk_step(Some(CONFIG_FILE), false, false, false), WalkStep::Read);
    assert_eq!(walk_step(Some(CONFIG_FILE), false, true, false), WalkStep::Skip);
    assert_eq!(walk_step(Some("src"), true, true, false), WalkStep::Descend);
    assert_eq!(walk_step(Some("lib.rs"), false, false, false), WalkStep::Skip);
    // A nested project is not walked through.
    assert_eq!(walk_step(Some("src"), true, false, true), WalkStep::Skip);
    assert_eq!(walk_step(Some(CONFIG_FILE), false, false, true), WalkStep::Skip);
    assert!(anchor(&Vec::new()).is_none());
    assert!(walk_continues(&vec![found("/t", false)]));
}

#[test]
fn places_follow_the_environment() {
    assert_eq!(data_root(Some("/own"), Some("/xdg"), Some("/home/u")), "/own");
    assert_eq!(data_root(None, Some("/xdg"), Some("/home/u")), "/xdg/codeindex");
    assert_eq!(data_root(None, None, Some("/home/u")), "/home/u/.local/share/codeindex");
    assert_eq!(registry_path("/own"), "/own/registry.json");
    let db = default_db_path("/own", "/t/repo");
    assert!(db.starts_with("/own/projects/"), "{db}");
    assert_ne!(db, default_db_path("/own", "/t/other"));
    assert_eq!(default_label("/t/repo"), "repo");
    let unnamed = context("/t/repo", ProjectConfig::default(), Vec::new());
    assert_eq!(unnamed.label(), "repo");
    assert_eq!(unnamed.db_path("/own"), db);
    let mut placed = ProjectConfig::default();
    placed.storage.path = Some("x.db".into());
    assert_eq!(context("/t/repo", placed, Vec::new()).db_path("/own"), "/t/repo/x.db");
}

#[test]
fn root_configurations_are_validated() {
    let space = |channel: &str, model: &str| SpaceConfig {
        channel: channel.into(),
        model: model.into(),
        document_prompt: None,
        output_dimensions: None,
    };
    let mut config = ProjectConfig::default();
    assert!(validate_root_config(&config).is_ok());
    config.search.default_space = Some("code".into());
    let fault = validate_root_config(&config).unwrap_err();
    assert!(matches!(&fault, ConfigFault::UnknownDefaultSpace(id) if id == "code"));
    assert_eq!(fault.message(), "[search] default_space \"code\" is not a defined space");
    config.spaces.insert("code".into(), space("implementation", "hf:a/b"));
    assert!(validate_root_config(&config).is_ok());
    config.spaces.insert("code".into(), space("implementation", ""));
    assert!(matches!(validate_root_config(&config), Err(ConfigFault::EmptyModel(_))));
    config.spaces.insert("code".into(), space("", "hf:a/b"));
    assert!(matches!(validate_root_config(&config), Err(ConfigFault::EmptyChannel(_))));
}

#[test]
fn a_starter_configuration_names_the_project() {
    assert!(starter_config("demo").contains("label = \"demo\""));
}
