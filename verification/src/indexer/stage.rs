//! Preparation of one document for durable checkpointing.
use crate::indexer::entities::{
    apply_enrichers, complete_representations, completed, enriched, enriching_fails, spans_fit,
    RepresentationEnricher,
};
use crate::indexer::identity::{
    apply_retention, assign_identity, entity_id, keeps, stores, version_id, CodeUnit, NewCodeUnit,
};
use crate::indexer::provider::SourceDocument;
use crate::indexer::settings::IndexSettings;
use crate::model::ExtractedEntity;
use vstd::prelude::*;
use vstd::string::*;

verus! {

/// A call site as the frontend found it.
#[derive(Debug)]
pub struct RawReference {
    pub callee_symbol: String,
    pub call_snippet: String,
    pub start_byte: usize,
    pub start_line: usize,
}

/// A call site with the unit that it stands in.
#[derive(Debug)]
pub struct StagedReference {
    pub caller_unit_ordinal: usize,
    pub callee_symbol: String,
    pub call_snippet: String,
    pub start_line: i64,
}

/// A document that is to be stored.
#[derive(Debug)]
pub struct NewFile {
    /// Zero until publication assigns the project its id.
    pub project_id: i64,
    pub source_document_id: String,
    pub source_revision: String,
    pub relative_path: String,
    pub language_id: String,
    pub mtime_ns: i64,
    pub size: i64,
    pub source_hash: String,
}

/// Everything that publication needs of one document.
#[derive(Debug)]
pub struct StagedDocumentPayload {
    pub payload_schema_version: i64,
    pub file: NewFile,
    pub units: Vec<NewCodeUnit>,
    pub references: Vec<StagedReference>,
    pub input_fingerprint: String,
    pub source_hash: String,
}

/// The byte lies in the unit.
pub open spec fn covers(unit: NewCodeUnit, byte: usize) -> bool {
    unit.start_byte <= byte < unit.end_byte
}

/// Unit `k` is the caller at `byte`: of the units around it, the one that
/// starts last, and of those that start together, the first.
pub open spec fn is_caller(units: Seq<NewCodeUnit>, byte: usize, k: int) -> bool {
    &&& 0 <= k < units.len()
    &&& covers(units[k], byte)
    &&& forall|j: int|
        0 <= j < units.len() && covers(#[trigger] units[j], byte) ==> units[j].start_byte
            < units[k].start_byte || (units[j].start_byte == units[k].start_byte && k <= j)
}

/// No unit lies around `byte`.
pub open spec fn no_caller(units: Seq<NewCodeUnit>, byte: usize) -> bool {
    forall|j: int| 0 <= j < units.len() ==> !covers(#[trigger] units[j], byte)
}

/// The innermost unit around `byte`.
pub fn innermost_unit(units: &Vec<NewCodeUnit>, byte: usize) -> (r: Option<usize>)
    ensures
        match r {
            Some(k) => is_caller(units@, byte, k as int),
            None => no_caller(units@, byte),
        },
{
    let mut best: Option<usize> = None;
    let mut i: usize = 0;
    while i < units.len()
        invariant
            i <= units@.len(),
            match best {
                Some(k) => k < i && is_caller(units@.take(i as int), byte, k as int),
                None => no_caller(units@.take(i as int), byte),
            },
        decreases units@.len() - i,
    {
        let ghost before = units@.take(i as int);
        let ghost after = units@.take(i + 1);
        assert(forall|j: int| 0 <= j < i ==> #[trigger] after[j] == before[j]);
        assert(after[i as int] == units@[i as int]);
        if units[i].start_byte <= byte && byte < units[i].end_byte {
            match best {
                Some(k) if units[k].start_byte >= units[i].start_byte => {
                    assert(is_caller(after, byte, k as int));
                },
                _ => {
                    best = Some(i);
                    assert(is_caller(after, byte, i as int));
                },
            }
        } else {
            assert(best matches Some(k) ==> is_caller(after, byte, k as int));
        }
        i += 1;
    }
    assert(units@.take(i as int) =~= units@);
    best
}

/// `staged` holds, in order, those of the first `n` call sites that stand in a
/// unit, each with its caller.
pub open spec fn attributed(
    staged: Seq<StagedReference>,
    raw: Seq<RawReference>,
    units: Seq<NewCodeUnit>,
    n: int,
) -> bool
    decreases n,
{
    if n <= 0 {
        staged.len() == 0
    } else {
        let site = raw[n - 1];
        if no_caller(units, site.start_byte) {
            attributed(staged, raw, units, n - 1)
        } else {
            &&& staged.len() > 0
            &&& is_caller(units, site.start_byte, staged.last().caller_unit_ordinal as int)
            &&& staged.last().callee_symbol@ == site.callee_symbol@
            &&& staged.last().call_snippet@ == site.call_snippet@
            &&& staged.last().start_line == site.start_line as i64
            &&& attributed(staged.drop_last(), raw, units, n - 1)
        }
    }
}

/// Attributes every call site to the innermost unit around it; call sites
/// outside all units are dropped.
pub fn attribute_references(raw: &Vec<RawReference>, units: &Vec<NewCodeUnit>) -> (r: Vec<
    StagedReference,
>)
    ensures
        attributed(r@, raw@, units@, raw@.len() as int),
{
    let mut out: Vec<StagedReference> = Vec::new();
    let mut i: usize = 0;
    while i < raw.len()
        invariant
            i <= raw@.len(),
            attributed(out@, raw@, units@, i as int),
        decreases raw@.len() - i,
    {
        let site = &raw[i];
        let ghost before = out@;
        match innermost_unit(units, site.start_byte) {
            Some(k) => {
                assert(covers(units@[k as int], site.start_byte));
                out.push(
                    StagedReference {
                        caller_unit_ordinal: k,
                        callee_symbol: site.callee_symbol.clone(),
                        call_snippet: site.call_snippet.clone(),
                        start_line: site.start_line as i64,
                    },
                );
                assert(out@.drop_last() =~= before);
            },
            None => {},
        }
        i += 1;
    }
    out
}

/// What one document is prepared from.
pub struct PrepareDocument<'a> {
    pub settings: &'a IndexSettings,
    pub project_label: &'a str,
    pub document: &'a SourceDocument,
    pub source: &'a str,
    pub source_hash: &'a str,
    pub generation: i64,
    pub input_fingerprint: &'a str,
    pub payload_schema_version: i64,
    /// The units of the document's last published version.
    pub prior: &'a Vec<CodeUnit>,
    /// The call sites that the frontend found.
    pub references: &'a Vec<RawReference>,
}

/// The file row of a document.
pub open spec fn describes_file(
    file: NewFile,
    document: SourceDocument,
    source_hash: Seq<char>,
) -> bool {
    &&& file.project_id == 0
    &&& file.source_document_id@ == document.id@
    &&& file.source_revision@ == document.revision.opaque@
    &&& file.relative_path@ == document.relative_path@
    &&& file.language_id@ == document.language_id@
    &&& file.mtime_ns == document.revision.modified_ns.unwrap_or(0)
    &&& file.size == document.revision.size.unwrap_or(0) as i64
    &&& file.source_hash@ == source_hash
}

/// `unit` is the unit of entity `i`: with its identity and version, and with the
/// texts that the retention mode keeps.
pub open spec fn stages(
    unit: NewCodeUnit,
    input: PrepareDocument<'_>,
    entities: Seq<ExtractedEntity>,
    i: int,
) -> bool {
    exists|full: NewCodeUnit|
        #![trigger stores(full, entities[i], input.generation)]
        {
            &&& stores(full, entities[i], input.generation)
            &&& full.entity_id@ == entity_id(
                input.project_label@,
                input.document.id@,
                input.prior@,
                entities,
                i,
            )
            &&& full.entity_version_id@ == version_id(full.entity_id@, entities[i])
            &&& keeps(full, unit, input.settings.retention)
        }
}

/// Entity `after` is `before` with its derived channels and with what producers
/// added to it.
pub open spec fn prepared_entity<F: Fn(&str) -> String, E: RepresentationEnricher + ?Sized>(
    input: PrepareDocument<'_>,
    before: ExtractedEntity,
    after: ExtractedEntity,
    normalize: F,
    enrichers: Seq<&E>,
) -> bool {
    exists|mid: ExtractedEntity|
        #![trigger completed(before, input.source@, normalize, mid)]
        completed(before, input.source@, normalize, mid) && enriched(
            input.document,
            input.source,
            enrichers,
            mid,
            after,
        )
}

/// No producer fails on the entity.
pub open spec fn can_be_prepared<F: Fn(&str) -> String, E: RepresentationEnricher + ?Sized>(
    input: PrepareDocument<'_>,
    before: ExtractedEntity,
    normalize: F,
    enrichers: Seq<&E>,
) -> bool {
    exists|after: ExtractedEntity| #[trigger]
        prepared_entity(input, before, after, normalize, enrichers)
}

/// A producer fails with the message on an entity with its derived channels.
pub open spec fn refused_entity<F: Fn(&str) -> String, E: RepresentationEnricher + ?Sized>(
    input: PrepareDocument<'_>,
    before: ExtractedEntity,
    message: String,
    normalize: F,
    enrichers: Seq<&E>,
) -> bool {
    exists|mid: ExtractedEntity|
        #![trigger completed(before, input.source@, normalize, mid)]
        completed(before, input.source@, normalize, mid) && enriching_fails(
            input.document,
            input.source,
            enrichers,
            mid,
            message,
        )
}

/// Prepares one document: completes and enriches its entities, gives them their
/// identities, drops the texts that are not kept, and attributes call sites. It fails
/// only where a producer does, with what is said of the first entity that one fails on.
pub fn prepare_document<F: Fn(&str) -> String, E: RepresentationEnricher + ?Sized>(
    input: PrepareDocument<'_>,
    extracted: Vec<ExtractedEntity>,
    normalize: &F,
    enrichers: &Vec<&E>,
) -> (r: Result<StagedDocumentPayload, String>)
    requires
        forall|t: &str| normalize.requires((t,)),
        forall|i: int|
            0 <= i < extracted@.len() ==> spans_fit(#[trigger] extracted@[i], input.source@),
    ensures
        match r {
            Err(message) => exists|i: int|
                0 <= i < extracted@.len() && refused_entity(
                    input,
                    #[trigger] extracted@[i],
                    message,
                    *normalize,
                    enrichers@,
                ) && forall|j: int|
                    0 <= j < i ==> can_be_prepared(
                        input,
                        #[trigger] extracted@[j],
                        *normalize,
                        enrichers@,
                    ),
            Ok(payload) => {
                &&& payload.payload_schema_version == input.payload_schema_version
                &&& describes_file(payload.file, *input.document, input.source_hash@)
                &&& payload.input_fingerprint@ == input.input_fingerprint@
                &&& payload.source_hash@ == input.source_hash@
                &&& attributed(
                    payload.references@,
                    input.references@,
                    payload.units@,
                    input.references@.len() as int,
                )
                &&& exists|entities: Seq<ExtractedEntity>|
                    #![trigger entities.len()]
                    {
                        &&& entities.len() == extracted@.len()
                        &&& payload.units@.len() == extracted@.len()
                        &&& forall|i: int|
                            0 <= i < entities.len() ==> prepared_entity(
                                input,
                                extracted@[i],
                                #[trigger] entities[i],
                                *normalize,
                                enrichers@,
                            )
                        &&& forall|i: int|
                            0 <= i < entities.len() ==> stages(
                                #[trigger] payload.units@[i],
                                input,
                                entities,
                                i,
                            )
                    }
            },
        },
        enrichers@.len() == 0 ==> r is Ok,
{
    let mut entities = extracted;
    let ghost start = extracted@;
    let mut i: usize = 0;
    while i < entities.len()
        invariant
            i <= entities@.len() == start.len(),
            start == extracted@,
            forall|t: &str| normalize.requires((t,)),
            forall|j: int|
                0 <= j < start.len() ==> spans_fit(#[trigger] start[j], input.source@),
            forall|j: int|
                0 <= j < i ==> prepared_entity(
                    input,
                    start[j],
                    #[trigger] entities@[j],
                    *normalize,
                    enrichers@,
                ),
            forall|j: int| i <= j < start.len() ==> (#[trigger] entities@[j]) == start[j],
        decreases entities@.len() - i,
    {
        let ghost before = entities@[i as int];
        let ghost done = entities@;
        assert(spans_fit(start[i as int], input.source@));
        complete_representations(input.source, &mut entities[i], normalize);
        let ghost mid = entities@[i as int];
        assert(completed(before, input.source@, *normalize, mid));
        match apply_enrichers(input.document, input.source, &mut entities[i], enrichers) {
            Ok(()) => {},
            Err(message) => {
                assert(refused_entity(
                    input,
                    extracted@[i as int],
                    message,
                    *normalize,
                    enrichers@,
                ));
                assert forall|j: int| 0 <= j < i implies can_be_prepared(
                    input,
                    #[trigger] extracted@[j],
                    *normalize,
                    enrichers@,
                ) by {
                    assert(prepared_entity(input, start[j], done[j], *normalize, enrichers@));
                }
                return Err(message);
            },
        }
        assert(prepared_entity(
            input,
            start[i as int],
            entities@[i as int],
            *normalize,
            enrichers@,
        ));
        i += 1;
    }
    let mut units = assign_identity(
        input.project_label,
        input.document.id.as_str(),
        input.prior,
        &entities,
        input.generation,
    );
    let ghost full = units@;
    apply_retention(&mut units, input.settings.retention);
    assert forall|k: int| 0 <= k < entities@.len() implies stages(
        #[trigger] units@[k],
        input,
        entities@,
        k,
    ) by {
        assert(stores(full[k], entities@[k], input.generation));
        assert(keeps(full[k], units@[k], input.settings.retention));
    }
    let references = attribute_references(input.references, &units);
    let document = input.document;
    let file = NewFile {
        project_id: 0,
        source_document_id: document.id.clone(),
        source_revision: document.revision.opaque.clone(),
        relative_path: document.relative_path.clone(),
        language_id: document.language_id.clone(),
        mtime_ns: document.revision.modified_ns.unwrap_or(0),
        size: document.revision.size.unwrap_or(0) as i64,
        source_hash: input.source_hash.to_owned(),
    };
    Ok(
        StagedDocumentPayload {
            payload_schema_version: input.payload_schema_version,
            file,
            units,
            references,
            input_fingerprint: input.input_fingerprint.to_owned(),
            source_hash: input.source_hash.to_owned(),
        },
    )
}

/// A call site inside a unit is staged once, for a unit that covers it and than which none
/// that covers it begins later; one outside every unit is not staged.
pub proof fn every_call_site_is_attributed(
    staged: Seq<StagedReference>,
    raw: Seq<RawReference>,
    units: Seq<NewCodeUnit>,
    n: int,
    k: int,
)
    requires
        0 <= k < n <= raw.len(),
        attributed(staged, raw, units, n),
    ensures
        staged.len() <= n,
        (exists|j: int| 0 <= j < units.len() && covers(#[trigger] units[j], raw[k].start_byte))
            ==> exists|i: int|
            {
                &&& 0 <= i < staged.len()
                &&& (#[trigger] staged[i]).callee_symbol@ == raw[k].callee_symbol@
                &&& staged[i].call_snippet@ == raw[k].call_snippet@
                &&& staged[i].start_line == raw[k].start_line as i64
                &&& is_caller(units, raw[k].start_byte, staged[i].caller_unit_ordinal as int)
            },
        (forall|j: int, m: int|
            0 <= j < units.len() && 0 <= m < n ==> !covers(
                #[trigger] units[j],
                (#[trigger] raw[m]).start_byte,
            )) ==> staged.len() == 0,
    decreases n,
{
    let site = raw[n - 1];
    let rest = if no_caller(units, site.start_byte) {
        staged
    } else {
        staged.drop_last()
    };
    if n > 1 {
        every_call_site_is_attributed(
            rest,
            raw,
            units,
            n - 1,
            if k < n - 1 {
                k
            } else {
                0
            },
        );
    } else {
        assert(attributed(rest, raw, units, 0));
        assert(rest.len() == 0);
    }
    if exists|j: int| 0 <= j < units.len() && covers(#[trigger] units[j], raw[k].start_byte) {
        if k < n - 1 {
            let i = choose|i: int|
                {
                    &&& 0 <= i < rest.len()
                    &&& (#[trigger] rest[i]).callee_symbol@ == raw[k].callee_symbol@
                    &&& rest[i].call_snippet@ == raw[k].call_snippet@
                    &&& rest[i].start_line == raw[k].start_line as i64
                    &&& is_caller(units, raw[k].start_byte, rest[i].caller_unit_ordinal as int)
                };
            assert(staged[i] == rest[i]);
        } else {
            assert(staged[staged.len() - 1] == staged.last());
        }
    }
}

/// The caller of a site covers it, and a unit that covers the site as well does not begin
/// after the caller.
pub proof fn a_caller_is_the_innermost(units: Seq<NewCodeUnit>, byte: usize, k: int, j: int)
    requires
        is_caller(units, byte, k),
        0 <= j < units.len(),
        units[j].start_byte <= byte && byte < units[j].end_byte,
    ensures
        units[k].start_byte <= byte && byte < units[k].end_byte,
        units[j].start_byte <= units[k].start_byte,
        units[j].start_byte == units[k].start_byte ==> k <= j,
{
    assert(covers(units[j], byte));
}

/// A staged file tells of its document what the document tells of itself.
pub proof fn a_staged_file_tells_of_its_document(
    file: NewFile,
    document: SourceDocument,
    source_hash: Seq<char>,
)
    requires
        describes_file(file, document, source_hash),
    ensures
        file.source_document_id@ == document.id@,
        file.relative_path@ == document.relative_path@,
        file.language_id@ == document.language_id@,
        file.source_revision@ == document.revision.opaque@,
        document.revision.modified_ns matches Some(time) ==> file.mtime_ns == time,
        document.revision.size matches Some(size) ==> (size <= i64::MAX ==> file.size == size),
        file.source_hash@ == source_hash,
{
}

/// A staged unit stands where its entity stands in the source, under the entity's name, kind
/// and scope, and keeps its body's hash whatever of its text is kept.
pub proof fn a_staged_unit_stands_where_its_entity_does(
    unit: NewCodeUnit,
    input: PrepareDocument<'_>,
    entities: Seq<ExtractedEntity>,
    i: int,
)
    requires
        stages(unit, input, entities, i),
    ensures
        unit.name@ == entities[i].name@ && unit.kind@ == entities[i].kind@,
        unit.scope == entities[i].scope,
        unit.language_id@ == entities[i].language@,
        unit.start_byte == entities[i].span.start_byte && unit.end_byte
            == entities[i].span.end_byte,
        unit.start_line == entities[i].span.start_line && unit.end_line
            == entities[i].span.end_line,
        unit.normalized_body_hash@ == entities[i].normalized_body_hash@,
        unit.source_hash@ == entities[i].source_hash@,
        unit.body_node_count == entities[i].body_node_count,
        unit.generation == input.generation,
        unit.entity_id@ == entity_id(
            input.project_label@,
            input.document.id@,
            input.prior@,
            entities,
            i,
        ),
        unit.entity_version_id@ == version_id(unit.entity_id@, entities[i]),
        unit.representations@.len() == entities[i].representations@.len(),
        forall|k: int|
            0 <= k < unit.representations@.len() ==> {
                let (kept, channel) = (
                    #[trigger] unit.representations@[k],
                    entities[i].representations@[k],
                );
                &&& kept.kind == channel.kind && kept.content_hash == channel.content_hash
                &&& kept.content is None || kept.content == Some(channel.content)
                &&& input.settings.retention is Full ==> kept.content == Some(channel.content)
            },
{
    let full = choose|full: NewCodeUnit|
        #![trigger stores(full, entities[i], input.generation)]
        {
            &&& stores(full, entities[i], input.generation)
            &&& full.entity_id@ == entity_id(
                input.project_label@,
                input.document.id@,
                input.prior@,
                entities,
                i,
            )
            &&& full.entity_version_id@ == version_id(full.entity_id@, entities[i])
            &&& keeps(full, unit, input.settings.retention)
        };
    assert forall|k: int| 0 <= k < unit.representations@.len() implies {
        let (kept, channel) = (#[trigger] unit.representations@[k], entities[i].representations@[k]);
        &&& kept.kind == channel.kind && kept.content_hash == channel.content_hash
        &&& kept.content is None || kept.content == Some(channel.content)
        &&& input.settings.retention is Full ==> kept.content == Some(channel.content)
    } by {
        assert(crate::indexer::identity::stores_channel(
            full.representations@[k],
            entities[i].representations@[k],
        ));
    }
}

} // verus!
