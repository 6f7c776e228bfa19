use codeindex::cli::{direct_options, judging_instruction, DirectSearch};
use codeindex::config::settings::{ProjectConfig, TaskConfig};
use codeindex::daemon::options::{
    missing_space, read_compress, read_filter, read_retrieval, request_options,
};
use codeindex::daemon::pipeline::{Compress, Retrieval};
use codeindex::daemon::protocol::SearchParams;
use codeindex::embedding::contract::EmbeddingTask;
use codeindex::hashing::sha256_hex;
use codeindex::indexer::builder::{IndexRunBuilder, ProviderIdentity};
use codeindex::indexer::policy::RevisionTrust;
use codeindex::indexer::provider::{LanguageRegistry, MemorySource, SourceProject};
use codeindex::indexer::settings::{EnricherIdentity, IndexSettings, RetentionMode};
use codeindex::model::EmbeddingSpaceId;
use codeindex::query::filter::TestsPolicy;
use codeindex::query::tasks::{preset_ids, task_preset};

fn request() -> SearchParams {
    SearchParams { query: "find it".into(), limit: 7, ..SearchParams::default() }
}

fn project() -> ProjectConfig {
    let mut config = ProjectConfig::default();
    config.search.default_space = Some("code".into());
    config.search.retrieval = Some("dense".into());
    config.search.tests = Some("only".into());
    config.tasks.insert("own".into(), TaskConfig { instruction: "Find the thing".into() });
    config
}

#[test]
fn settings_fill_up_a_request() {
    let stored = vec!["a".to_string(), "b".to_string()];
    let options = request_options(&request(), &project(), &stored).unwrap();
    assert_eq!(options.query, "find it");
    assert_eq!(options.limit, 7);
    assert_eq!(options.retrieval, Retrieval::Dense);
    assert_eq!(options.compress, Compress::Auto);
    assert_eq!(options.space.unwrap().as_str(), "code");
    assert_eq!(options.filter.tests_policy(), Some(TestsPolicy::Only));
    assert!(options.graph);
    assert!(options.task.is_none());
}

#[test]
fn a_request_wins_over_the_settings() {
    let mut params = request();
    params.space = Some("docs".into());
    params.retrieval = Some("hybrid".into());
    params.compress = Some("always".into());
    params.tests = Some("exclude".into());
    params.task = Some("own".into());
    params.filter = Some("language=rust".into());
    params.no_graph = true;
    let options = request_options(&params, &project(), &Vec::new()).unwrap();
    assert_eq!(options.retrieval, Retrieval::Hybrid);
    assert_eq!(options.compress, Compress::Always);
    assert_eq!(options.space.unwrap().as_str(), "docs");
    assert_eq!(options.filter.language, ["rust"]);
    assert_eq!(options.filter.tests_policy(), Some(TestsPolicy::Exclude));
    let task = options.task.unwrap();
    assert_eq!((task.id.as_str(), task.instruction.as_str()), ("own", "Find the thing"));
    assert!(!options.graph);
}

#[test]
fn a_lexical_request_uses_no_space() {
    let mut params = request();
    params.retrieval = Some("lexical".into());
    assert!(request_options(&params, &project(), &Vec::new()).unwrap().space.is_none());
    // Without a default, a single stored space is taken, and none of several.
    params.retrieval = None;
    let open = ProjectConfig::default();
    let one = request_options(&params, &open, &vec!["a".to_string()]).unwrap();
    assert_eq!(one.space.unwrap().as_str(), "a");
    let two = vec!["a".to_string(), "b".to_string()];
    assert!(request_options(&params, &open, &two).unwrap().space.is_none());
}

#[test]
fn faulty_requests_are_refused() {
    let refused = |change: &dyn Fn(&mut SearchParams)| {
        let mut params = request();
        change(&mut params);
        request_options(&params, &project(), &Vec::new()).unwrap_err()
    };
    assert_eq!(
        refused(&|params| params.task = Some("none".into())),
        "unknown task preset \"none\"; available: code-search, locate-edit-targets, \
         explain-behavior, find-analogues, diagnose-failure"
    );
    assert_eq!(
        refused(&|params| params.filter = Some("oops".into())),
        "malformed --where clause \"oops\": expected key=value"
    );
    assert_eq!(
        refused(&|params| params.tests = Some("some".into())),
        "unknown tests policy \"some\" (include|exclude|only)"
    );
    assert_eq!(
        refused(&|params| params.retrieval = Some("x".into())),
        "unknown retrieval mode \"x\" (hybrid|dense|lexical)"
    );
    assert_eq!(
        refused(&|params| params.compress = Some("x".into())),
        "unknown compression mode \"x\" (auto|off|always)"
    );
    // The task is looked at first.
    assert!(refused(&|params| {
        params.task = Some("none".into());
        params.compress = Some("x".into());
    })
    .starts_with("unknown task preset"));
}

#[test]
fn modes_and_filters_are_read() {
    assert_eq!(read_retrieval("dense").unwrap(), Retrieval::Dense);
    assert_eq!(read_compress("off").unwrap(), Compress::Off);
    assert!(read_compress("dense").is_err());
    let filter = read_filter(Some("tests=include kind=function"), Some("only")).unwrap();
    assert_eq!(filter.tests_policy(), Some(TestsPolicy::Include));
    assert_eq!(filter.kind, ["function"]);
    assert_eq!(
        read_filter(Some("min_nodes=many"), None).unwrap_err(),
        "min_nodes wants an integer, got \"many\""
    );
    assert_eq!(
        missing_space(&EmbeddingSpaceId::new("code"), "main"),
        "embedding space code is not stored for \"main\""
    );
}

fn direct() -> DirectSearch {
    DirectSearch {
        query: "q".into(),
        space: None,
        task: None,
        instruction: None,
        filter: None,
        limit: 3,
        retrieval: Retrieval::Hybrid,
        compress: Compress::Off,
        include_tests: false,
        no_graph: false,
    }
}

#[test]
fn a_direct_search_is_shaped_by_its_arguments() {
    let none = ProjectConfig::default();
    let options = direct_options(&direct(), &none, None, &vec!["a".to_string()]).unwrap();
    assert_eq!(options.space.unwrap().as_str(), "a");
    assert_eq!(options.filter.tests_policy(), Some(TestsPolicy::Exclude));
    assert_eq!((options.limit, options.compress), (3, Compress::Off));

    let mut search = direct();
    search.include_tests = true;
    search.task = Some("code-search".into());
    search.instruction = Some("unused".into());
    let options = direct_options(&search, &none, Some("only"), &Vec::new()).unwrap();
    assert_eq!(options.filter.tests_policy(), None);
    let task = options.task.unwrap();
    assert_eq!(task.id, "code-search");
    assert_eq!(task.instruction, task_preset("code-search").unwrap());

    let mut search = direct();
    search.retrieval = Retrieval::Dense;
    assert_eq!(
        direct_options(&search, &none, None, &Vec::new()).unwrap_err(),
        "--retrieval dense needs an embedding space (pass --space or define one in \
         .codeindex.toml)"
    );
    let mut search = direct();
    search.filter = Some("path=[".into());
    assert_eq!(
        direct_options(&search, &none, None, &Vec::new()).unwrap_err(),
        "invalid glob \"[\""
    );
}

#[test]
fn judging_follows_the_task() {
    let task = Some(EmbeddingTask::new("custom", "Find bugs"));
    assert_eq!(judging_instruction(&task), "Find bugs");
    assert_eq!(
        judging_instruction(&None),
        "Given a code search query, retrieve relevant code implementations"
    );
}

#[test]
fn presets_are_listed() {
    let ids = preset_ids();
    assert_eq!(ids.len(), 5);
    assert_eq!(ids[0], "code-search");
    assert!(ids.iter().all(|id| task_preset(id).is_some()));
    assert!(task_preset("other").is_none());
}

#[test]
fn a_run_is_known_by_its_configuration() {
    let settings = IndexSettings {
        enabled_languages: vec!["rust".into()],
        body_node_count_threshold: 10,
        max_body_chars: 10_000,
        retention: RetentionMode::Full,
    };
    let source = MemorySource::new("memory://a", LanguageRegistry { extensions: Vec::new() });
    let projects = vec![SourceProject { label: "main".to_string(), provider: &source }];
    let builder = IndexRunBuilder::new(&settings, &projects).with_enrichers(vec![
        EnricherIdentity {
            producer: "p".into(),
            version: "1".into(),
            config_fingerprint: "f".into(),
        },
    ]);
    let providers = vec![ProviderIdentity {
        label: "main".into(),
        locator: "memory://a".into(),
        fingerprint: "x\"y".into(),
    }];
    let text = builder.config_json(&providers, 3, "0.2");
    assert_eq!(
        text,
        [
            r#"{"settings":{"enabled_languages":["rust"],"body_node_count_threshold":10,"#,
            r#""max_body_chars":10000,"retention":"full"},"#,
            r#""providers":[["main","memory://a","x\"y"]],"#,
            r#""enrichers":[{"producer":"p","version":"1","config_fingerprint":"f"}],"#,
            r#""revision_trust":"verify_content","refresh_mode":"automatic","#,
            r#""settle_delay_millis":20,"retry_backoff":{"initial_millis":25,"#,
            r#""maximum_millis":1000},"payload_schema_version":3,"frontend_version":"0.2"}"#,
        ]
        .concat()
    );
    assert_eq!(builder.config_fingerprint(&providers, 3, "0.2"), sha256_hex(text.as_str()));
    let trusting = IndexRunBuilder::new(&settings, &projects)
        .revision_trust(RevisionTrust::TrustAdvisory);
    assert!(trusting
        .config_json(&providers, 3, "0.2")
        .contains(r#""revision_trust":"trust_advisory""#));
    assert_ne!(
        trusting.config_fingerprint(&providers, 3, "0.2"),
        builder.config_fingerprint(&providers, 3, "0.2")
    );
}
