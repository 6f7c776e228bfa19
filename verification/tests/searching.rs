use codeindex::embedding::contract::{EmbeddingTask, PromptContract};
use codeindex::embedding::hash::HashEmbedder;
use codeindex::embedding::messages::render_message;
use codeindex::embedding::render::{render_inputs, EmbedRequest};
use codeindex::model::{EmbeddingSpaceId, EntityId, EntityVersionId};
use codeindex::query::filter::WhereFilter;
use codeindex::query::fusion::RankedList;
use codeindex::query::rank::Score;
use codeindex::query::unit::unit_id;
use codeindex::search::{
    check_model, resolve_selector, search_vectors_fused, select_labels, selector_message,
    CodeUnitRef, ProjectFault, RelationRecord, SearchIndex, SelectorFault, SpaceRows,
    NO_THRESHOLD,
};

const DIMS: usize = 64;
const BODIES: &[(&str, &str, &str)] = &[
    (
        "parse_flags",
        "parse command line flags into typed options",
        "Parses command line flags.",
    ),
    (
        "render_table",
        "render html table rows from records",
        "Renders a tabular HTML view.",
    ),
    (
        "checksum",
        "compute a rolling checksum over file bytes",
        "Computes a file checksum.",
    ),
];

fn unit(name: &str, body: &str, start: usize) -> CodeUnitRef {
    CodeUnitRef {
        id: start as i64,
        entity_id: EntityId::new(&format!("ent-{name}")),
        entity_version_id: EntityVersionId::new(&format!("ver-{name}")),
        project_label: "main".into(),
        relative_path: "lib.rs".into(),
        language_id: "rust".into(),
        kind: "function".into(),
        name: name.into(),
        scope: None,
        start_byte: start,
        end_byte: start + body.len(),
        start_line: start,
        end_line: start + 1,
        body_node_count: 10,
        normalized_body_hash: format!("body-{name}"),
        display_source: Some(body.into()),
        implementation: Some(body.into()),
    }
}

fn vectors(embedder: &HashEmbedder, texts: &Vec<&str>) -> Vec<Vec<f32>> {
    let counts = embedder.count_inputs(&EmbedRequest::documents(texts, None)).unwrap();
    counts
        .iter()
        .map(|row| {
            let norm = row.iter().map(|n| (*n as f64) * (*n as f64)).sum::<f64>().sqrt();
            row.iter().map(|n| (*n as f64 / norm) as f32).collect()
        })
        .collect()
}

fn dot(left: &[f32], right: &[f32]) -> Score {
    Score { bits: left.iter().zip(right).map(|(a, b)| a * b).sum::<f32>().to_bits() }
}

fn rrf(terms: &Vec<(Score, usize)>) -> Score {
    let sum: f32 = terms.iter().map(|(w, place)| f32::from_bits(w.bits) / *place as f32).sum();
    Score { bits: sum.to_bits() }
}

fn contract(dims: usize) -> Vec<(String, String)> {
    vec![("native_dimensions".to_string(), dims.to_string())]
}

fn build_index() -> SearchIndex {
    let units = BODIES
        .iter()
        .enumerate()
        .map(|(index, (name, body, _))| unit(name, body, index + 1))
        .collect();
    let rows = |id: &str, dims: usize| SpaceRows {
        id: EmbeddingSpaceId::new(id),
        contract: contract(dims),
        hashes: BODIES.iter().map(|(name, _, _)| Some(format!("{id}-{name}"))).collect(),
        stored: ["checksum", "parse_flags", "render_table"]
            .iter()
            .map(|name| format!("{id}-{name}"))
            .collect(),
    };
    SearchIndex::load(units, Vec::new(), vec![rows("code", DIMS), rows("docs", DIMS * 2)])
}

#[test]
fn units_without_vectors_are_not_embedded() {
    let rows = SpaceRows {
        id: EmbeddingSpaceId::new("code"),
        contract: contract(DIMS),
        hashes: vec![None, Some("b".into()), Some("c".into()), Some("z".into())],
        stored: vec!["a".into(), "b".into(), "d".into(), "z".into()],
    };
    let index = SearchIndex::load(Vec::new(), Vec::new(), vec![rows]);
    assert_eq!(index.spaces[0].embedded, vec![false, true, false, true]);
}

fn bodies() -> Vec<&'static str> {
    BODIES.iter().map(|(_, body, _)| *body).collect()
}

fn docs() -> Vec<&'static str> {
    BODIES.iter().map(|(_, _, docs)| *docs).collect()
}

fn call(from: &str, to: &str) -> RelationRecord {
    RelationRecord {
        from_entity_id: EntityId::new(&format!("ent-{from}")),
        to_entity_id: Some(EntityId::new(&format!("ent-{to}"))),
        to_symbol: to.into(),
        kind: "calls".into(),
        resolution: "exact".into(),
        provenance: "lsp:test".into(),
    }
}

#[test]
fn relations_expand_seeds_one_hop_in_both_directions() {
    let mut index = build_index();
    // parse_flags -> render_table, checksum -> parse_flags. Unit order in the
    // fixture: 0=parse_flags, 1=render_table, 2=checksum.
    index.relations = vec![
        call("parse_flags", "render_table"),
        call("checksum", "parse_flags"),
    ];

    // Seeding with parse_flags reaches its callee AND its caller.
    assert_eq!(index.expand_by_relations(&vec![0], 10), vec![1, 2]);
    // Seeds themselves are never re-emitted, and the cap is honored.
    assert_eq!(index.expand_by_relations(&vec![0, 1], 10), vec![2]);
    assert_eq!(index.expand_by_relations(&vec![0], 1), vec![1]);
    // Seeding the callee side walks the edge backwards to the caller.
    assert_eq!(index.expand_by_relations(&vec![1], 10), vec![0]);
    assert!(index.expand_by_relations(&vec![], 10).is_empty());

    // Unresolved targets are ignored gracefully.
    index.relations.push(RelationRecord {
        from_entity_id: EntityId::new("ent-render_table"),
        to_entity_id: None,
        to_symbol: "std::fmt::Display".into(),
        kind: "calls".into(),
        resolution: "heuristic".into(),
        provenance: "lsp:test".into(),
    });
    assert_eq!(index.expand_by_relations(&vec![1], 10), vec![0]);

    // Corroboration outranks discovery order: two call sites reaching
    // `checksum` beat the single caller edge that was discovered first.
    index.relations.push(call("render_table", "checksum"));
    index.relations.push(call("render_table", "checksum"));
    assert_eq!(index.expand_by_relations(&vec![1], 10), vec![2, 0]);
}

#[test]
fn load_populates_independent_spaces() {
    let index = build_index();
    assert_eq!(index.units.len(), 3);
    assert_eq!(index.spaces.len(), 2);
    let code = index.space(&EmbeddingSpaceId::new("code")).unwrap();
    assert_eq!((0..3).filter(|i| code.holds(*i)).count(), 3);
    let docs = index.space(&EmbeddingSpaceId::new("docs")).unwrap();
    assert_eq!(docs.contract, contract(DIMS * 2));
    assert!(index.space(&EmbeddingSpaceId::new("other")).is_none());
}

#[test]
fn search_text_uses_the_selected_space_model() {
    let index = build_index();
    let filter = WhereFilter::default();
    let code_embedder = HashEmbedder::new(DIMS);
    let docs_embedder = HashEmbedder::new(DIMS * 2);

    let stored = vectors(&code_embedder, &bodies());
    let query = vectors(&code_embedder, &vec!["parse command line flags"]).remove(0);
    let space = index.space(&EmbeddingSpaceId::new("code")).unwrap();
    assert!(check_model(space, &contract(DIMS)).is_ok());
    let code = index.search_vector(space, |i: usize| dot(&query, &stored[i]), &filter, 10);
    assert_eq!(index.units[code.hits[0].index].name, "parse_flags");
    assert_eq!(code.matched, 3);

    let stored = vectors(&docs_embedder, &docs());
    let query = vectors(&docs_embedder, &vec!["file checksum"]).remove(0);
    let space = index.space(&EmbeddingSpaceId::new("docs")).unwrap();
    let docs = index.search_vector(space, |i: usize| dot(&query, &stored[i]), &filter, 10);
    assert_eq!(index.units[docs.hits[0].index].name, "checksum");

    let error = check_model(space, &contract(DIMS)).unwrap_err();
    assert!(error.contains("model contract"), "{error}");
}

#[test]
fn weighted_rrf_fuses_incompatible_vector_spaces() {
    let index = build_index();
    let filter = WhereFilter::default();
    let mut lists = Vec::new();
    for (id, dims, texts, text) in [
        ("code", DIMS, bodies(), "rolling checksum bytes"),
        ("docs", DIMS * 2, docs(), "file checksum"),
    ] {
        let embedder = HashEmbedder::new(dims);
        let stored = vectors(&embedder, &texts);
        let query = vectors(&embedder, &vec![text]).remove(0);
        let space = index.space(&EmbeddingSpaceId::new(id)).unwrap();
        let found = index.search_vector(space, |i: usize| dot(&query, &stored[i]), &filter, 10);
        lists.push(RankedList {
            source: id.into(),
            weight: Score { bits: 1.0_f32.to_bits() },
            indices: found.hits.iter().map(|hit| hit.index).collect(),
        });
    }
    let fused = search_vectors_fused(&lists, 10, 60, &rrf);
    assert_eq!(index.units[fused.hits[0].index].name, "checksum");
    assert_eq!(fused.hits[0].contributions.len(), 2);
}

#[test]
fn selector_round_trips() {
    let index = build_index();
    let id = unit_id(&index.units[0]);
    assert_eq!(resolve_selector(&index.units, &id).unwrap(), 0);
}

#[test]
fn selectors_that_lead_nowhere() {
    let index = build_index();
    assert_eq!(resolve_selector(&index.units, "parse"), Err(SelectorFault::NotASelector));
    assert_eq!(resolve_selector(&index.units, "unit:0000"), Err(SelectorFault::NotFound));
    let message = selector_message(SelectorFault::NotFound, "unit:0000");
    assert!(message.contains("unit:0000"), "{message}");
}

#[test]
fn a_unit_is_not_similar_to_itself() {
    let index = build_index();
    let space = index.space(&EmbeddingSpaceId::new("code")).unwrap();
    let one = Score { bits: 1.0_f32.to_bits() };
    let found = index
        .similar_to_unit(
            1,
            space,
            |_: usize| one,
            &WhereFilter::default(),
            10,
            Score { bits: NO_THRESHOLD },
        )
        .unwrap();
    let order: Vec<usize> = found.hits.iter().map(|hit| hit.index).collect();
    assert_eq!(order, vec![0, 2]);
    assert_eq!(f32::from_bits(NO_THRESHOLD), -1.0);
    let mut partial = build_index();
    partial.spaces[0].embedded[1] = false;
    let space = &partial.spaces[0];
    assert!(partial
        .similar_to_unit(1, space, |_: usize| one, &WhereFilter::default(), 10, one)
        .is_none());
}

#[test]
fn labels_are_selected() {
    let indexed = vec!["a".to_string(), "b".to_string()];
    assert_eq!(select_labels(&indexed, &Vec::new()).unwrap(), vec![0, 1]);
    assert_eq!(select_labels(&indexed, &vec!["b".to_string()]).unwrap(), vec![1]);
    let missing = select_labels(&indexed, &vec!["c".to_string()]).unwrap_err();
    assert!(matches!(&missing, ProjectFault::NotIndexed(label) if label == "c"));
    assert!(missing.message().contains("c"));
    assert!(matches!(
        select_labels(&Vec::new(), &Vec::new()),
        Err(ProjectFault::NoProjects)
    ));
}

#[test]
fn units_know_where_they_stand() {
    let index = build_index();
    assert_eq!(index.units[0].location(), "main:lib.rs");
    assert_eq!(index.unit_indices_for_project("main"), vec![0, 1, 2]);
    assert!(index.unit_indices_for_project("other").is_empty());
}

#[test]
fn instruction_tasked_queries_hit_an_uninstructed_document_index() {
    let index = build_index();
    let inner = HashEmbedder::new(DIMS);
    let mut instructed = HashEmbedder::new(DIMS).contract;
    instructed.prompts = PromptContract::QueryInstruction {
        query_template: "Instruct: {instruction}\nQuery:{query}".into(),
        default_instruction: None,
    };
    let stored = vectors(&inner, &bodies());
    let space = index.space(&EmbeddingSpaceId::new("code")).unwrap();

    // Without a task the model has no default instruction: must error loudly.
    let error =
        render_inputs(&instructed, &EmbedRequest::queries(&vec!["parse flags"], None)).unwrap_err();
    let error = render_message(error, &instructed, "");
    assert!(error.contains("task instruction"), "got: {error}");

    // With a task instruction the query renders differently from documents
    // yet still searches the unchanged document index.
    let task = EmbeddingTask::new("code-search", "retrieve relevant code");
    let texts = vec!["parse command line flags"];
    let rendered =
        render_inputs(&instructed, &EmbedRequest::queries(&texts, Some(&task))).unwrap();
    let query = vectors(&inner, &vec![rendered[0].as_str()]).remove(0);
    let results =
        index.search_vector(space, |i: usize| dot(&query, &stored[i]), &WhereFilter::default(), 10);
    assert_eq!(index.units[results.hits[0].index].name, "parse_flags");
}
