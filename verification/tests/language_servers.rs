use codeindex::json::Json;
use codeindex::lsp::enrich::{
    definition_relation, outgoing_relations, plan_requests, retry_step, typed_signature, visits,
    AskKind, FirstAnswer, LspServer, RetryStep, TYPED_SIGNATURE_CHANNEL,
};
use codeindex::lsp::hover::{hover_text, marked_string, MAX_HOVER_CHARS};
use codeindex::lsp::position::{
    declared_name_byte, find_column, last_segment_of, position_of_byte,
};
use codeindex::lsp::target::{first_location, resolve_target, RawCall, ServedFile, ServedUnit};
use codeindex::lsp::wire::{
    classify, file_uri, frame, read_body, read_header_line, supports, uri_to_path, HeaderStep, Incoming,
};
use codeindex::model::EntityId;

fn text(value: &str) -> Json {
    Json::Text(value.to_string())
}

fn object(members: Vec<(&str, Json)>) -> Json {
    Json::Object(members.into_iter().map(|(name, value)| (name.to_string(), value)).collect())
}

#[test]
fn positions_are_utf16_aware() {
    let source = "let π = 1;\nfn beta() {}\n";
    let byte = source.find("beta").unwrap();
    assert_eq!(position_of_byte(source, byte), (1, 3));
    // π is one UTF-16 unit but two UTF-8 bytes.
    let byte = source.find('=').unwrap();
    assert_eq!(position_of_byte(source, byte), (0, 6));
}

#[test]
fn hover_text_prefers_the_code_block() {
    let hover = object(vec![(
        "contents",
        object(vec![
            ("kind", text("markdown")),
            ("value", text("intro\n```rust\nfn beta() -> u32\n```\nmore")),
        ]),
    )]);
    assert_eq!(hover_text(&hover).as_deref(), Some("fn beta() -> u32"));
    let plain = object(vec![("contents", text("just text"))]);
    assert_eq!(hover_text(&plain).as_deref(), Some("just text"));
}

#[test]
fn declared_names_respect_word_boundaries() {
    let source = "fn better() {}\nfn beta() {}\n";
    let at = declared_name_byte(source, 0, source.len(), "beta").unwrap();
    assert_eq!(&source[at..at + 4], "beta");
    assert_eq!(position_of_byte(source, at).0, 1);
}

#[test]
fn hovers_are_bounded() {
    let long = object(vec![("contents", text(&"x".repeat(MAX_HOVER_CHARS + 10)))]);
    assert!(hover_text(&long).map_or(true, |kept| kept.chars().count() <= MAX_HOVER_CHARS));
    assert_eq!(hover_text(&object(vec![("contents", text("   "))])), None);
    assert_eq!(hover_text(&Json::Null), None);
    assert_eq!(marked_string(&text("a")).as_deref(), Some("a"));
    assert_eq!(
        marked_string(&object(vec![("language", text("c")), ("value", text("int x"))])).as_deref(),
        Some("int x")
    );
}

#[test]
fn astral_characters_take_two_units() {
    let source = "a😀b";
    assert_eq!(position_of_byte(source, 5), (0, 3));
    assert_eq!(last_segment_of("std::fmt::Display"), "Display");
    assert_eq!(find_column("  call(x)", "call"), Some(2));
    assert_eq!(find_column("none", "call"), None);
}

#[test]
fn paths_survive_their_uris() {
    let uri = file_uri("/a dir/b.rs");
    assert_eq!(uri, "file:///a%20dir/b.rs");
    assert_eq!(uri_to_path(&uri).as_deref(), Some("/a dir/b.rs"));
    assert_eq!(uri_to_path("http://x"), None);
}

#[test]
fn messages_are_framed() {
    assert_eq!(frame("{}"), "Content-Length: 2\r\n\r\n{}");
    assert_eq!(frame("π"), "Content-Length: 2\r\n\r\nπ");
    assert_eq!(read_header_line("Content-Length: 12\r\n", None), HeaderStep::More(Some(12)));
    assert_eq!(read_header_line("\r\n", Some(12)), HeaderStep::Done(12));
    assert_eq!(read_header_line("\r\n", None), HeaderStep::NoLength);
    assert_eq!(read_header_line("Content-Length: x\r\n", None), HeaderStep::BadLength);
    assert_eq!(read_header_line("Other: 1\r\n", Some(3)), HeaderStep::More(Some(3)));
}

#[test]
fn bodies_are_read_as_data() {
    let message = read_body(br#"{"id":4,"result":null}"#).unwrap();
    assert_eq!(classify(&message, 4), Incoming::Answer);
    assert!(read_body(b"{").is_none());
}

#[test]
fn incoming_messages_are_told_apart() {
    let answer = object(vec![("id", Json::Whole(4)), ("result", Json::Null)]);
    assert_eq!(classify(&answer, 4), Incoming::Answer);
    assert_eq!(classify(&answer, 5), Incoming::Other);
    let failure = object(vec![("error", object(vec![])), ("id", Json::Whole(4))]);
    assert_eq!(classify(&failure, 4), Incoming::Failure);
    let request = object(vec![("id", Json::Whole(4)), ("method", text("workspace/configuration"))]);
    assert_eq!(classify(&request, 4), Incoming::Request);
    let notice = object(vec![("method", text("log"))]);
    assert_eq!(classify(&notice, 4), Incoming::Other);
}

#[test]
fn capabilities_may_be_flags_or_objects() {
    let capabilities = object(vec![
        ("callHierarchyProvider", Json::Bool(true)),
        ("definitionProvider", object(vec![])),
        ("hoverProvider", Json::Bool(false)),
    ]);
    assert!(supports(&capabilities, "callHierarchyProvider"));
    assert!(supports(&capabilities, "definitionProvider"));
    assert!(!supports(&capabilities, "hoverProvider"));
    assert!(!supports(&capabilities, "renameProvider"));
}

fn served() -> Vec<ServedFile> {
    vec![ServedFile {
        relative_path: "src/a.rs".into(),
        source: "fn one() {\n    two()\n}\nfn two() {}\n".into(),
        units: vec![
            ServedUnit {
                id: 1,
                entity_id: EntityId::new("e1"),
                name: "one".into(),
                start_byte: 0,
                end_byte: 22,
                start_line: 1,
                end_line: 3,
            },
            ServedUnit {
                id: 2,
                entity_id: EntityId::new("e2"),
                name: "two".into(),
                start_byte: 23,
                end_byte: 34,
                start_line: 4,
                end_line: 4,
            },
        ],
        calls: vec![RawCall { caller_unit: 1, symbol: "two".into(), start_line: 2 }],
    }]
}

fn range(line: u64) -> Json {
    object(vec![("start", object(vec![("line", Json::Whole(line))]))])
}

#[test]
fn requests_are_planned_per_unit() {
    let files = served();
    let report = visits(&files);
    assert_eq!((report.files_visited, report.units_visited), (1, 2));
    let with = plan_requests(&files, true);
    assert_eq!(with.iter().filter(|ask| ask.kind == AskKind::Hover).count(), 2);
    assert_eq!(with.iter().filter(|ask| ask.kind == AskKind::PrepareCalls).count(), 2);
    let without = plan_requests(&files, false);
    let definition = without.iter().find(|ask| ask.kind == AskKind::Definition).unwrap();
    assert_eq!((definition.line, definition.character), (1, 4));
    assert_eq!(without.iter().filter(|ask| ask.kind == AskKind::PrepareCalls).count(), 0);
}

#[test]
fn targets_are_found_by_file_and_line() {
    let files = served();
    let found = resolve_target("/r", "file:///r/src/a.rs", 3, &files).unwrap();
    assert_eq!(found.as_str(), "e2");
    assert!(resolve_target("/r", "file:///elsewhere/a.rs", 3, &files).is_none());
    let location = object(vec![("range", range(3)), ("uri", text("file:///r/src/a.rs"))]);
    assert_eq!(first_location(&location), Some(("file:///r/src/a.rs".to_string(), 3)));
    assert_eq!(first_location(&Json::List(vec![])), None);
}

#[test]
fn relations_come_out_of_answers() {
    let files = served();
    let outgoing = Json::List(vec![object(vec![(
        "to",
        object(vec![
            ("name", text("two")),
            ("selectionRange", range(3)),
            ("uri", text("file:///r/src/a.rs")),
        ]),
    )])]);
    let relations = outgoing_relations(&outgoing, &EntityId::new("e1"), "/r", &files, "lsp:x");
    assert_eq!(relations.len(), 1);
    assert_eq!(relations[0].to_entity_id.as_ref().unwrap().as_str(), "e2");
    assert_eq!(relations[0].kind, "calls");
    let definition = object(vec![("range", range(3)), ("uri", text("file:///r/src/a.rs"))]);
    let relation =
        definition_relation(&definition, &files[0], &files[0].calls[0], "/r", &files, "lsp:x")
            .unwrap();
    assert_eq!(relation.from_entity_id.as_str(), "e1");
    assert_eq!(relation.to_entity_id.unwrap().as_str(), "e2");
}

#[test]
fn servers_sign_what_they_say() {
    let server = LspServer {
        language_id: "rust".into(),
        command: "rust-analyzer".into(),
        args: Vec::new(),
    };
    let provenance = server.provenance();
    assert_eq!(provenance, "lsp:rust-analyzer");
    let signature = typed_signature("fn f()".into(), &provenance, "1");
    assert_eq!(signature.kind.as_str(), TYPED_SIGNATURE_CHANNEL);
    assert_eq!(signature.content.as_deref(), Some("fn f()"));
    assert_eq!(signature.content_hash.len(), 64);
}

#[test]
fn early_questions_are_asked_again() {
    assert_eq!(retry_step(0, 3, FirstAnswer::Value), RetryStep::Return);
    assert_eq!(retry_step(0, 3, FirstAnswer::Empty), RetryStep::Again);
    assert_eq!(retry_step(2, 3, FirstAnswer::Empty), RetryStep::GiveUp);
    assert_eq!(retry_step(1, 3, FirstAnswer::Failed), RetryStep::Again);
    assert_eq!(retry_step(2, 3, FirstAnswer::Failed), RetryStep::Fail);
}
