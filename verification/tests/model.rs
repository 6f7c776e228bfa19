use codeindex::model::{
    EmbeddingSpaceId, EntityKind, ExtractedEntity, LanguageId, Representation, RepresentationKind,
    RepresentationOrigin, SourceSpan,
};

fn entity(representations: Vec<Representation>) -> ExtractedEntity {
    ExtractedEntity {
        language: LanguageId::from("rust"),
        kind: EntityKind::Function,
        name: "parse".into(),
        scope: None,
        span: SourceSpan::new(0, 10, 1, 1),
        body_span: None,
        body_node_count: 2,
        source_hash: "source".into(),
        normalized_body_hash: "body".into(),
        representations,
    }
}

#[test]
fn unknown_entity_kinds_round_trip() {
    let kind = EntityKind::from("receiver-function");
    assert_eq!(kind.as_str(), "receiver-function");
}

#[test]
fn representation_lookup_is_channel_specific() {
    let entity = entity(vec![Representation::new(
        RepresentationKind::Implementation,
        "fn parse() {}",
        "hash",
    )]);

    assert_eq!(
        entity.representation_text(&RepresentationKind::Implementation),
        Some("fn parse() {}")
    );
    assert_eq!(
        entity.representation_text(&RepresentationKind::Documentation),
        None
    );
}

#[test]
fn known_kinds_round_trip() {
    for name in [
        "module", "namespace", "type", "trait", "interface", "function", "method", "constructor",
        "closure", "constant", "static", "macro", "field", "test", "example",
    ] {
        let kind = EntityKind::from(name);
        assert_eq!(kind.as_str(), name);
        assert!(!matches!(kind, EntityKind::Other(_)), "{name}");
    }
    for name in [
        "full_source", "implementation", "body", "body_without_declared_name", "signature",
        "symbol", "documentation", "usage", "generated_description",
    ] {
        let kind = RepresentationKind::from(name);
        assert_eq!(kind.as_str(), name);
        assert!(!matches!(kind, RepresentationKind::Custom(_)), "{name}");
    }
    assert_eq!(RepresentationKind::from("typed_signature").as_str(), "typed_signature");
}

#[test]
fn the_first_representation_of_a_channel_is_found() {
    let entity = entity(vec![
        Representation::new(RepresentationKind::Body, "first", "1"),
        Representation::new(RepresentationKind::Body, "second", "2"),
        Representation::new(RepresentationKind::from("custom"), "own", "3"),
    ]);
    assert_eq!(entity.representation(&RepresentationKind::Body).unwrap().content_hash, "1");
    assert_eq!(
        entity.representation_text(&RepresentationKind::Custom("custom".into())),
        Some("own")
    );
}

#[test]
fn identifiers_keep_their_text() {
    let id = EmbeddingSpaceId::new("docs");
    assert_eq!(id.as_str(), "docs");
    assert_eq!(EmbeddingSpaceId::from("docs".to_string()), id);
    assert_eq!(id.into_inner(), "docs");
}

#[test]
fn origins_are_replaced() {
    let plain = Representation::new(RepresentationKind::Usage, "text", "hash");
    let enriched = plain.with_origin(RepresentationOrigin::Extracted { frontend: "tree".into() });
    assert_eq!(enriched.content, "text");
    assert_eq!(
        enriched.origin,
        RepresentationOrigin::Extracted { frontend: "tree".into() }
    );
}
