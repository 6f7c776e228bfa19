//! Logical identity of entities across generations.
use crate::hashing::{short_hash, tagged_hash};
use crate::model::{
    EntityId, EntityVersionId, ExtractedEntity, Representation, RepresentationKind,
    RepresentationOrigin,
};
use crate::indexer::settings::RetentionMode;
use crate::text::{
    clone_opt, decimal, decimal_text, every_part_is_in_a_joined_text, has, join, joined, opt_view,
    same, same_opt, views,
};
use vstd::prelude::*;
use vstd::string::*;

verus! {

/// A unit of the previous generation, as far as identity goes.
#[derive(Debug)]
pub struct CodeUnit {
    pub kind: String,
    pub scope: Option<String>,
    pub name: String,
    pub normalized_body_hash: String,
    pub entity_id: EntityId,
}

/// One channel of a unit that is to be stored.
#[derive(Debug)]
pub struct NewRepresentation {
    pub kind: RepresentationKind,
    pub content_hash: String,
    pub content: Option<String>,
    pub origin: RepresentationOrigin,
}

/// A unit that is to be stored.
#[derive(Debug)]
pub struct NewCodeUnit {
    pub entity_id: EntityId,
    pub entity_version_id: EntityVersionId,
    pub generation: i64,
    pub language_id: String,
    pub kind: String,
    pub name: String,
    pub scope: Option<String>,
    pub start_byte: usize,
    pub end_byte: usize,
    pub start_line: usize,
    pub end_line: usize,
    pub body_node_count: usize,
    pub source_hash: String,
    pub normalized_body_hash: String,
    pub representations: Vec<NewRepresentation>,
}

/// The id of the last unit with the symbol: kind, scope and name.
pub open spec fn id_of_symbol(
    prior: Seq<CodeUnit>,
    kind: Seq<char>,
    scope: Option<Seq<char>>,
    name: Seq<char>,
) -> Option<Seq<char>>
    decreases prior.len(),
{
    if prior.len() == 0 {
        None
    } else {
        let unit = prior.last();
        if unit.kind@ == kind && opt_view(unit.scope) == scope && unit.name@ == name {
            Some(unit.entity_id@)
        } else {
            id_of_symbol(prior.drop_last(), kind, scope, name)
        }
    }
}

/// The ids, in order, of the units with the kind and the body that are not yet
/// taken.
pub open spec fn free_ids_of_body(
    prior: Seq<CodeUnit>,
    taken: Set<Seq<char>>,
    kind: Seq<char>,
    body: Seq<char>,
) -> Seq<Seq<char>>
    decreases prior.len(),
{
    if prior.len() == 0 {
        Seq::empty()
    } else {
        let unit = prior.last();
        let rest = free_ids_of_body(prior.drop_last(), taken, kind, body);
        if unit.kind@ == kind && unit.normalized_body_hash@ == body && !taken.contains(
            unit.entity_id@,
        ) {
            rest.push(unit.entity_id@)
        } else {
            rest
        }
    }
}

/// The identity that an entity inherits: that of its symbol where it is free,
/// else that of the one free unit with the same body. An ambiguous body gives
/// no identity.
pub open spec fn inherited_id(
    prior: Seq<CodeUnit>,
    taken: Set<Seq<char>>,
    entity: ExtractedEntity,
) -> Option<Seq<char>> {
    let symbol = id_of_symbol(prior, entity.kind@, opt_view(entity.scope), entity.name@);
    let bodies = free_ids_of_body(prior, taken, entity.kind@, entity.normalized_body_hash@);
    if symbol is Some && !taken.contains(symbol->0) {
        symbol
    } else if bodies.len() == 1 {
        Some(bodies[0])
    } else {
        None
    }
}

/// The ids that the first `n` entities have taken.
pub open spec fn taken_ids(
    prior: Seq<CodeUnit>,
    entities: Seq<ExtractedEntity>,
    n: int,
) -> Set<Seq<char>>
    decreases n,
{
    if n <= 0 {
        Set::empty()
    } else {
        let before = taken_ids(prior, entities, n - 1);
        match inherited_id(prior, before, entities[n - 1]) {
            Some(id) => before.insert(id),
            None => before,
        }
    }
}

/// The identity that entity `n` inherits, given the entities before it.
pub open spec fn inherits(
    prior: Seq<CodeUnit>,
    entities: Seq<ExtractedEntity>,
    n: int,
) -> Option<Seq<char>> {
    inherited_id(prior, taken_ids(prior, entities, n), entities[n])
}

/// A new identity, made of where the entity stands and what it is called.
pub open spec fn minted_id(
    project: Seq<char>,
    document: Seq<char>,
    entity: ExtractedEntity,
) -> Seq<char> {
    short_hash(
        "ent:"@,
        joined(
            seq![
                project,
                document,
                entity.kind@,
                match entity.scope {
                    Some(scope) => scope@,
                    None => Seq::empty(),
                },
                entity.name@,
                decimal(entity.span.start_byte as nat),
            ],
            "\0"@,
        ),
    )
}

/// The identity of entity `n`.
pub open spec fn entity_id(
    project: Seq<char>,
    document: Seq<char>,
    prior: Seq<CodeUnit>,
    entities: Seq<ExtractedEntity>,
    n: int,
) -> Seq<char> {
    match inherits(prior, entities, n) {
        Some(id) => id,
        None => minted_id(project, document, entities[n]),
    }
}

/// The identity of one version of an entity: its identity, its text and its
/// place.
pub open spec fn version_id(id: Seq<char>, entity: ExtractedEntity) -> Seq<char> {
    short_hash(
        "ver:"@,
        joined(
            seq![
                id,
                entity.source_hash@,
                decimal(entity.span.start_byte as nat),
                decimal(entity.span.end_byte as nat),
            ],
            "\0"@,
        ),
    )
}

fn mint_entity_id(project_label: &str, source_document_id: &str, entity: &ExtractedEntity) -> (r:
    EntityId)
    ensures
        r@ == minted_id(project_label@, source_document_id@, *entity),
{
    let scope = match &entity.scope {
        Some(scope) => scope.clone(),
        None => String::new(),
    };
    let parts: Vec<String> = vec![
        project_label.to_owned(),
        source_document_id.to_owned(),
        entity.kind.as_str().to_owned(),
        scope,
        entity.name.clone(),
        decimal_text(entity.span.start_byte as u64),
    ];
    assert(views(parts@) =~= seq![
        project_label@,
        source_document_id@,
        entity.kind@,
        match entity.scope {
            Some(scope) => scope@,
            None => Seq::empty(),
        },
        entity.name@,
        decimal(entity.span.start_byte as nat),
    ]);
    EntityId::from(tagged_hash("ent:", join(&parts, "\0").as_str()))
}

fn version_of(id: &EntityId, entity: &ExtractedEntity) -> (r: EntityVersionId)
    ensures
        r@ == version_id(id@, *entity),
{
    let parts: Vec<String> = vec![
        id.as_str().to_owned(),
        entity.source_hash.clone(),
        decimal_text(entity.span.start_byte as u64),
        decimal_text(entity.span.end_byte as u64),
    ];
    assert(views(parts@) =~= seq![
        id@,
        entity.source_hash@,
        decimal(entity.span.start_byte as nat),
        decimal(entity.span.end_byte as nat),
    ]);
    EntityVersionId::from(tagged_hash("ver:", join(&parts, "\0").as_str()))
}

/// The texts that the vector holds are the members of the set.
pub open spec fn holds_set(list: Seq<EntityId>, set: Set<Seq<char>>) -> bool {
    forall|id: Seq<char>| #[trigger]
        set.contains(id) <==> exists|i: int| 0 <= i < list.len() && (#[trigger] list[i])@ == id
}

fn is_taken(list: &Vec<EntityId>, id: &EntityId) -> (r: bool)
    ensures
        r == exists|i: int| 0 <= i < list@.len() && (#[trigger] list@[i])@ == id@,
{
    let mut i: usize = 0;
    while i < list.len()
        invariant
            i <= list@.len(),
            forall|j: int| 0 <= j < i ==> (#[trigger] list@[j])@ != id@,
        decreases list@.len() - i,
    {
        if same(list[i].as_str(), id.as_str()) {
            return true;
        }
        i += 1;
    }
    false
}

fn find_symbol<'a>(prior: &'a Vec<CodeUnit>, entity: &ExtractedEntity) -> (r: Option<
    &'a EntityId,
>)
    ensures
        match r {
            Some(id) => id_of_symbol(
                prior@,
                entity.kind@,
                opt_view(entity.scope),
                entity.name@,
            ) == Some(id@),
            None => id_of_symbol(
                prior@,
                entity.kind@,
                opt_view(entity.scope),
                entity.name@,
            ) is None,
        },
{
    let mut n: usize = prior.len();
    assert(prior@.take(n as int) =~= prior@);
    while n > 0
        invariant
            n <= prior@.len(),
            id_of_symbol(prior@, entity.kind@, opt_view(entity.scope), entity.name@)
                == id_of_symbol(
                prior@.take(n as int),
                entity.kind@,
                opt_view(entity.scope),
                entity.name@,
            ),
        decreases n,
    {
        let unit = &prior[n - 1];
        if same(unit.kind.as_str(), entity.kind.as_str()) && same_opt(&unit.scope, &entity.scope)
            && same(unit.name.as_str(), entity.name.as_str()) {
            return Some(&unit.entity_id);
        }
        assert(prior@.take(n as int).drop_last() =~= prior@.take(n - 1));
        n -= 1;
    }
    None
}

fn find_body<'a>(
    prior: &'a Vec<CodeUnit>,
    taken: &Vec<EntityId>,
    entity: &ExtractedEntity,
    Ghost(set): Ghost<Set<Seq<char>>>,
) -> (r: Option<&'a EntityId>)
    requires
        holds_set(taken@, set),
    ensures
        ({
            let free = free_ids_of_body(
                prior@,
                set,
                entity.kind@,
                entity.normalized_body_hash@,
            );
            match r {
                Some(id) => free.len() == 1 && free[0] == id@,
                None => free.len() != 1,
            }
        }),
{
    let mut found: Option<&EntityId> = None;
    let mut count: usize = 0;
    let mut i: usize = 0;
    while i < prior.len()
        invariant
            i <= prior@.len(),
            count <= i,
            holds_set(taken@, set),
            ({
                let free = free_ids_of_body(
                    prior@.take(i as int),
                    set,
                    entity.kind@,
                    entity.normalized_body_hash@,
                );
                &&& free.len() == count
                &&& count >= 1 ==> found is Some && found->0@ == free[0]
            }),
        decreases prior@.len() - i,
    {
        let unit = &prior[i];
        assert(prior@.take(i + 1).drop_last() =~= prior@.take(i as int));
        if same(unit.kind.as_str(), entity.kind.as_str()) && same(
            unit.normalized_body_hash.as_str(),
            entity.normalized_body_hash.as_str(),
        ) && !is_taken(taken, &unit.entity_id) {
            if count == 0 {
                found = Some(&unit.entity_id);
            }
            count += 1;
        }
        i += 1;
    }
    assert(prior@.take(i as int) =~= prior@);
    if count == 1 {
        found
    } else {
        None
    }
}

/// The stored unit holds what was extracted, under the given identity.
pub open spec fn stores(unit: NewCodeUnit, entity: ExtractedEntity, generation: i64) -> bool {
    &&& unit.generation == generation
    &&& unit.language_id@ == entity.language@
    &&& unit.kind@ == entity.kind@
    &&& unit.name == entity.name
    &&& unit.scope == entity.scope
    &&& unit.start_byte == entity.span.start_byte
    &&& unit.end_byte == entity.span.end_byte
    &&& unit.start_line == entity.span.start_line
    &&& unit.end_line == entity.span.end_line
    &&& unit.body_node_count == entity.body_node_count
    &&& unit.source_hash == entity.source_hash
    &&& unit.normalized_body_hash == entity.normalized_body_hash
    &&& unit.representations@.len() == entity.representations@.len()
    &&& forall|i: int|
        0 <= i < entity.representations@.len() ==> stores_channel(
            #[trigger] unit.representations@[i],
            entity.representations@[i],
        )
}

/// The stored channel holds the extracted one with its text.
pub open spec fn stores_channel(stored: NewRepresentation, channel: Representation) -> bool {
    &&& stored.kind == channel.kind
    &&& stored.content_hash == channel.content_hash
    &&& stored.content == Some(channel.content)
    &&& stored.origin == channel.origin
}

impl NewCodeUnit {
    pub fn from_entity(
        entity: &ExtractedEntity,
        entity_id: EntityId,
        entity_version_id: EntityVersionId,
        generation: i64,
    ) -> (r: Self)
        ensures
            r.entity_id == entity_id,
            r.entity_version_id == entity_version_id,
            stores(r, *entity, generation),
    {
        let mut representations: Vec<NewRepresentation> = Vec::new();
        let mut i: usize = 0;
        while i < entity.representations.len()
            invariant
                i <= entity.representations@.len(),
                representations@.len() == i,
                forall|j: int|
                    0 <= j < i ==> stores_channel(
                        #[trigger] representations@[j],
                        entity.representations@[j],
                    ),
            decreases entity.representations@.len() - i,
        {
            let channel = &entity.representations[i];
            representations.push(
                NewRepresentation {
                    kind: channel.kind.clone(),
                    content_hash: channel.content_hash.clone(),
                    content: Some(channel.content.clone()),
                    origin: channel.origin.clone(),
                },
            );
            i += 1;
        }
        NewCodeUnit {
            entity_id,
            entity_version_id,
            generation,
            language_id: entity.language.as_str().to_owned(),
            kind: entity.kind.as_str().to_owned(),
            name: entity.name.clone(),
            scope: clone_opt(&entity.scope),
            start_byte: entity.span.start_byte,
            end_byte: entity.span.end_byte,
            start_line: entity.span.start_line,
            end_line: entity.span.end_line,
            body_node_count: entity.body_node_count,
            source_hash: entity.source_hash.clone(),
            normalized_body_hash: entity.normalized_body_hash.clone(),
            representations,
        }
    }
}

/// Assign logical identity by exact symbol first, then by a unique identical
/// body. Ambiguous duplicate bodies deliberately mint new ids rather than
/// guessing which historical entity survived.
pub fn assign_identity(
    project_label: &str,
    source_document_id: &str,
    prior: &Vec<CodeUnit>,
    entities: &Vec<ExtractedEntity>,
    generation: i64,
) -> (r: Vec<NewCodeUnit>)
    ensures
        r@.len() == entities@.len(),
        forall|i: int|
            0 <= i < r@.len() ==> {
                &&& (#[trigger] r@[i]).entity_id@ == entity_id(
                    project_label@,
                    source_document_id@,
                    prior@,
                    entities@,
                    i,
                )
                &&& r@[i].entity_version_id@ == version_id(r@[i].entity_id@, entities@[i])
                &&& stores(r@[i], entities@[i], generation)
            },
{
    let mut taken: Vec<EntityId> = Vec::new();
    let mut out: Vec<NewCodeUnit> = Vec::new();
    let mut i: usize = 0;
    while i < entities.len()
        invariant
            i <= entities@.len(),
            out@.len() == i,
            holds_set(taken@, taken_ids(prior@, entities@, i as int)),
            forall|j: int|
                0 <= j < i ==> {
                    &&& (#[trigger] out@[j]).entity_id@ == entity_id(
                        project_label@,
                        source_document_id@,
                        prior@,
                        entities@,
                        j,
                    )
                    &&& out@[j].entity_version_id@ == version_id(out@[j].entity_id@, entities@[j])
                    &&& stores(out@[j], entities@[j], generation)
                },
        decreases entities@.len() - i,
    {
        let entity = &entities[i];
        let ghost set = taken_ids(prior@, entities@, i as int);
        let symbol = match find_symbol(prior, entity) {
            Some(id) => if is_taken(&taken, id) {
                None
            } else {
                Some(id)
            },
            None => None,
        };
        let matched = match symbol {
            Some(id) => Some(id),
            None => find_body(prior, &taken, entity, Ghost(set)),
        };
        let id = match matched {
            Some(id) => {
                let ghost before = taken@;
                taken.push(id.clone());
                proof {
                    let after = set.insert(id@);
                    assert forall|t: Seq<char>| #[trigger] after.contains(t) <==> exists|k: int|
                        0 <= k < taken@.len() && (#[trigger] taken@[k])@ == t by {
                        if t == id@ {
                            assert(taken@[before.len() as int]@ == t);
                        } else if set.contains(t) {
                            let k = choose|k: int|
                                0 <= k < before.len() && (#[trigger] before[k])@ == t;
                            assert(taken@[k]@ == t);
                        } else if exists|k: int|
                            0 <= k < taken@.len() && (#[trigger] taken@[k])@ == t {
                            let k = choose|k: int|
                                0 <= k < taken@.len() && (#[trigger] taken@[k])@ == t;
                            assert(before[k]@ == t);
                        }
                    }
                }
                id.clone()
            },
            None => mint_entity_id(project_label, source_document_id, entity),
        };
        let version = version_of(&id, entity);
        out.push(NewCodeUnit::from_entity(entity, id, version, generation));
        i += 1;
    }
    out
}

proof fn free_ids_are_free(
    prior: Seq<CodeUnit>,
    taken: Set<Seq<char>>,
    kind: Seq<char>,
    body: Seq<char>,
)
    ensures
        forall|i: int|
            0 <= i < free_ids_of_body(prior, taken, kind, body).len() ==> !taken.contains(
                #[trigger] free_ids_of_body(prior, taken, kind, body)[i],
            ),
    decreases prior.len(),
{
    if prior.len() > 0 {
        let rest = free_ids_of_body(prior.drop_last(), taken, kind, body);
        let all = free_ids_of_body(prior, taken, kind, body);
        free_ids_are_free(prior.drop_last(), taken, kind, body);
        assert forall|i: int| 0 <= i < all.len() implies !taken.contains(#[trigger] all[i]) by {
            if i < rest.len() {
                assert(all[i] == rest[i]);
            }
        }
    }
}

proof fn taken_ids_grow(prior: Seq<CodeUnit>, entities: Seq<ExtractedEntity>, m: int, n: int)
    requires
        0 <= m <= n,
    ensures
        taken_ids(prior, entities, m).subset_of(taken_ids(prior, entities, n)),
    decreases n - m,
{
    if m < n {
        taken_ids_grow(prior, entities, m, n - 1);
    }
}

/// No two entities of a document inherit the same identity.
pub proof fn inherited_identities_are_distinct(
    prior: Seq<CodeUnit>,
    entities: Seq<ExtractedEntity>,
    i: int,
    j: int,
)
    requires
        0 <= i < j < entities.len(),
        inherits(prior, entities, i) is Some,
        inherits(prior, entities, j) is Some,
    ensures
        inherits(prior, entities, i) != inherits(prior, entities, j),
{
    let id = inherits(prior, entities, i)->0;
    assert(taken_ids(prior, entities, i + 1).contains(id));
    taken_ids_grow(prior, entities, i + 1, j);
    free_ids_are_free(
        prior,
        taken_ids(prior, entities, j),
        entities[j].kind@,
        entities[j].normalized_body_hash@,
    );
}

/// An entity whose symbol is indexed already keeps its identity, unless an
/// earlier entity of the document has inherited it.
pub proof fn a_symbol_keeps_its_identity(
    project: Seq<char>,
    document: Seq<char>,
    prior: Seq<CodeUnit>,
    entities: Seq<ExtractedEntity>,
    n: int,
    id: Seq<char>,
)
    requires
        0 <= n < entities.len(),
        id_of_symbol(prior, entities[n].kind@, opt_view(entities[n].scope), entities[n].name@)
            == Some(id),
        forall|m: int| 0 <= m < n ==> #[trigger] inherits(prior, entities, m) != Some(id),
    ensures
        entity_id(project, document, prior, entities, n) == id,
{
    not_taken(prior, entities, n, id);
}

proof fn not_taken(prior: Seq<CodeUnit>, entities: Seq<ExtractedEntity>, n: int, id: Seq<char>)
    requires
        forall|m: int| 0 <= m < n ==> #[trigger] inherits(prior, entities, m) != Some(id),
    ensures
        !taken_ids(prior, entities, n).contains(id),
    decreases n,
{
    if n > 0 {
        not_taken(prior, entities, n - 1, id);
        assert(inherits(prior, entities, n - 1) != Some(id));
    }
}

/// A renamed entity keeps its identity: where its symbol is new and exactly one
/// indexed unit of its kind has its body, it inherits that unit's identity,
/// unless an earlier entity of the document has.
pub proof fn a_renamed_entity_keeps_its_identity(
    project: Seq<char>,
    document: Seq<char>,
    prior: Seq<CodeUnit>,
    entities: Seq<ExtractedEntity>,
    n: int,
    k: int,
)
    requires
        0 <= n < entities.len(),
        0 <= k < prior.len(),
        id_of_symbol(prior, entities[n].kind@, opt_view(entities[n].scope), entities[n].name@)
            is None,
        prior[k].kind@ == entities[n].kind@,
        prior[k].normalized_body_hash@ == entities[n].normalized_body_hash@,
        forall|j: int|
            0 <= j < prior.len() && j != k ==> !((#[trigger] prior[j]).kind@ == entities[n].kind@
                && prior[j].normalized_body_hash@ == entities[n].normalized_body_hash@),
        forall|m: int|
            0 <= m < n ==> #[trigger] inherits(prior, entities, m) != Some(prior[k].entity_id@),
    ensures
        entity_id(project, document, prior, entities, n) == prior[k].entity_id@,
{
    let taken = taken_ids(prior, entities, n);
    not_taken(prior, entities, n, prior[k].entity_id@);
    one_free_id(prior, taken, entities[n].kind@, entities[n].normalized_body_hash@, k);
}

proof fn one_free_id(
    prior: Seq<CodeUnit>,
    taken: Set<Seq<char>>,
    kind: Seq<char>,
    body: Seq<char>,
    k: int,
)
    requires
        k < prior.len(),
        0 <= k ==> prior[k].kind@ == kind && prior[k].normalized_body_hash@ == body
            && !taken.contains(prior[k].entity_id@),
        forall|j: int|
            0 <= j < prior.len() && j != k ==> !((#[trigger] prior[j]).kind@ == kind
                && prior[j].normalized_body_hash@ == body),
    ensures
        free_ids_of_body(prior, taken, kind, body) == if k >= 0 {
            seq![prior[k].entity_id@]
        } else {
            Seq::empty()
        },
    decreases prior.len(),
{
    if prior.len() > 0 {
        let rest = prior.drop_last();
        if k == prior.len() - 1 {
            one_free_id(rest, taken, kind, body, -1);
            assert(free_ids_of_body(prior, taken, kind, body) =~= seq![prior[k].entity_id@]);
        } else {
            one_free_id(rest, taken, kind, body, k);
        }
    }
}

/// The text of a stored channel under a retention mode. Text that a frontend
/// extracted can be recovered from the source and is dropped, except that a
/// report keeps the full source; text from elsewhere is always kept.
pub open spec fn retained(channel: NewRepresentation, mode: RetentionMode) -> Option<String> {
    let extracted = channel.origin is Extracted;
    match mode {
        RetentionMode::Full => channel.content,
        RetentionMode::Report => if extracted && !channel.kind.same_as(
            &RepresentationKind::FullSource,
        ) {
            None
        } else {
            channel.content
        },
        RetentionMode::Minimal => if extracted {
            None
        } else {
            channel.content
        },
    }
}

/// The unit with only what the mode keeps.
pub open spec fn keeps(before: NewCodeUnit, after: NewCodeUnit, mode: RetentionMode) -> bool {
    &&& after == (NewCodeUnit { representations: after.representations, ..before })
    &&& after.representations@.len() == before.representations@.len()
    &&& forall|i: int|
        0 <= i < before.representations@.len() ==> (#[trigger] after.representations@[i]) == (
        NewRepresentation {
            content: retained(before.representations@[i], mode),
            ..before.representations@[i]
        })
}

fn retain_channels(channels: &mut Vec<NewRepresentation>, retention: RetentionMode)
    ensures
        final(channels)@.len() == old(channels)@.len(),
        forall|i: int|
            0 <= i < old(channels)@.len() ==> (#[trigger] final(channels)@[i]) == (
            NewRepresentation {
                content: retained(old(channels)@[i], retention),
                ..old(channels)@[i]
            }),
{
    let ghost start = channels@;
    let mut i: usize = 0;
    while i < channels.len()
        invariant
            i <= channels@.len() == start.len(),
            forall|j: int|
                0 <= j < i ==> (#[trigger] channels@[j]) == (NewRepresentation {
                    content: retained(start[j], retention),
                    ..start[j]
                }),
            forall|j: int| i <= j < start.len() ==> (#[trigger] channels@[j]) == start[j],
        decreases channels@.len() - i,
    {
        let extracted = match channels[i].origin {
            RepresentationOrigin::Extracted { .. } => true,
            _ => false,
        };
        let drops = match retention {
            RetentionMode::Full => false,
            RetentionMode::Report => extracted && !channels[i].kind.is_same(
                &RepresentationKind::FullSource,
            ),
            RetentionMode::Minimal => extracted,
        };
        if drops {
            channels[i].content = None;
        }
        i += 1;
    }
}

/// Drops the texts that the mode does not keep.
pub fn apply_retention(units: &mut Vec<NewCodeUnit>, retention: RetentionMode)
    ensures
        final(units)@.len() == old(units)@.len(),
        forall|i: int|
            0 <= i < old(units)@.len() ==> keeps(
                old(units)@[i],
                #[trigger] final(units)@[i],
                retention,
            ),
{
    let ghost start = units@;
    let mut i: usize = 0;
    while i < units.len()
        invariant
            i <= units@.len() == start.len(),
            forall|j: int| 0 <= j < i ==> keeps(start[j], #[trigger] units@[j], retention),
            forall|j: int| i <= j < start.len() ==> (#[trigger] units@[j]) == start[j],
        decreases units@.len() - i,
    {
        retain_channels(&mut units[i].representations, retention);
        i += 1;
    }
}

/// The last prior unit of a symbol gives the symbol's identity, and a symbol has one exactly
/// where a prior unit has its kind, scope and name.
pub proof fn the_last_unit_of_a_symbol_counts(
    prior: Seq<CodeUnit>,
    kind: Seq<char>,
    scope: Option<Seq<char>>,
    name: Seq<char>,
)
    ensures
        match id_of_symbol(prior, kind, scope, name) {
            Some(id) => exists|k: int|
                {
                    &&& 0 <= k < prior.len()
                    &&& (#[trigger] prior[k]).entity_id@ == id
                    &&& prior[k].kind@ == kind && opt_view(prior[k].scope) == scope
                    &&& prior[k].name@ == name
                    &&& forall|j: int|
                        k < j < prior.len() ==> !((#[trigger] prior[j]).kind@ == kind && opt_view(
                            prior[j].scope,
                        ) == scope && prior[j].name@ == name)
                },
            None => forall|j: int|
                0 <= j < prior.len() ==> !((#[trigger] prior[j]).kind@ == kind && opt_view(
                    prior[j].scope,
                ) == scope && prior[j].name@ == name),
        },
    decreases prior.len(),
{
    if prior.len() > 0 {
        let front = prior.drop_last();
        let last = prior.last();
        the_last_unit_of_a_symbol_counts(front, kind, scope, name);
        if last.kind@ == kind && opt_view(last.scope) == scope && last.name@ == name {
            assert(prior[prior.len() - 1] == last);
        } else {
            assert forall|j: int| 0 <= j < front.len() implies #[trigger] prior[j] == front[j] by {}
            if id_of_symbol(prior, kind, scope, name) is Some {
                let id = id_of_symbol(prior, kind, scope, name)->0;
                let k = choose|k: int|
                    {
                        &&& 0 <= k < front.len()
                        &&& (#[trigger] front[k]).entity_id@ == id
                        &&& front[k].kind@ == kind && opt_view(front[k].scope) == scope
                        &&& front[k].name@ == name
                        &&& forall|j: int|
                            k < j < front.len() ==> !((#[trigger] front[j]).kind@ == kind
                                && opt_view(front[j].scope) == scope && front[j].name@ == name)
                    };
                assert(prior[k] == front[k]);
            }
        }
    }
}

proof fn free_ids_are_of_the_body(
    prior: Seq<CodeUnit>,
    taken: Set<Seq<char>>,
    kind: Seq<char>,
    body: Seq<char>,
)
    ensures
        forall|i: int|
            0 <= i < free_ids_of_body(prior, taken, kind, body).len() ==> {
                let id = #[trigger] free_ids_of_body(prior, taken, kind, body)[i];
                &&& !taken.contains(id)
                &&& exists|k: int|
                    0 <= k < prior.len() && (#[trigger] prior[k]).entity_id@ == id
                        && prior[k].kind@ == kind && prior[k].normalized_body_hash@ == body
            },
    decreases prior.len(),
{
    if prior.len() > 0 {
        let front = prior.drop_last();
        free_ids_are_of_the_body(front, taken, kind, body);
        let before = free_ids_of_body(front, taken, kind, body);
        let after = free_ids_of_body(prior, taken, kind, body);
        assert forall|i: int| 0 <= i < after.len() implies {
            let id = #[trigger] after[i];
            &&& !taken.contains(id)
            &&& exists|k: int|
                0 <= k < prior.len() && (#[trigger] prior[k]).entity_id@ == id && prior[k].kind@
                    == kind && prior[k].normalized_body_hash@ == body
        } by {
            if i < before.len() {
                assert(after[i] == before[i]);
                let k = choose|k: int|
                    0 <= k < front.len() && (#[trigger] front[k]).entity_id@ == before[i]
                        && front[k].kind@ == kind && front[k].normalized_body_hash@ == body;
                assert(prior[k] == front[k]);
            } else {
                assert(prior[prior.len() - 1] == prior.last());
            }
        }
    }
}

proof fn free_ids_are_all_there(
    prior: Seq<CodeUnit>,
    taken: Set<Seq<char>>,
    kind: Seq<char>,
    body: Seq<char>,
    j: int,
    k: int,
)
    requires
        0 <= j < prior.len(),
        0 <= k < prior.len(),
        prior[j].kind@ == kind && prior[j].normalized_body_hash@ == body,
        prior[k].kind@ == kind && prior[k].normalized_body_hash@ == body,
        !taken.contains(prior[j].entity_id@),
        !taken.contains(prior[k].entity_id@),
    ensures
        free_ids_of_body(prior, taken, kind, body).len() >= if j == k {
            1nat
        } else {
            2
        },
    decreases prior.len(),
{
    let front = prior.drop_last();
    if j < front.len() && k < front.len() {
        free_ids_are_all_there(front, taken, kind, body, j, k);
    } else if j < front.len() {
        free_ids_are_all_there(front, taken, kind, body, j, j);
    } else if k < front.len() {
        free_ids_are_all_there(front, taken, kind, body, k, k);
    }
}

/// An identity is inherited only from a prior unit of the same kind that has the same scope
/// and name or the same body, and never from one whose identity is already taken.
pub proof fn identities_are_inherited_from_like_units(
    prior: Seq<CodeUnit>,
    taken: Set<Seq<char>>,
    entity: ExtractedEntity,
)
    ensures
        inherited_id(prior, taken, entity) matches Some(id) ==> !taken.contains(id) && exists|k: int|
            {
                &&& 0 <= k < prior.len()
                &&& (#[trigger] prior[k]).entity_id@ == id
                &&& prior[k].kind@ == entity.kind@
                &&& {
                    ||| opt_view(prior[k].scope) == opt_view(entity.scope) && prior[k].name@
                        == entity.name@
                    ||| prior[k].normalized_body_hash@ == entity.normalized_body_hash@
                }
            },
{
    the_last_unit_of_a_symbol_counts(prior, entity.kind@, opt_view(entity.scope), entity.name@);
    free_ids_are_of_the_body(prior, taken, entity.kind@, entity.normalized_body_hash@);
    let symbol = id_of_symbol(prior, entity.kind@, opt_view(entity.scope), entity.name@);
    let bodies = free_ids_of_body(prior, taken, entity.kind@, entity.normalized_body_hash@);
    if symbol is Some && !taken.contains(symbol->0) {
    } else if bodies.len() == 1 {
        assert(bodies[0] == inherited_id(prior, taken, entity)->0);
    }
}

/// A body that two prior units share tells nothing: without a symbol to go by, the entity
/// inherits from neither.
pub proof fn shared_bodies_are_not_inherited(
    prior: Seq<CodeUnit>,
    taken: Set<Seq<char>>,
    entity: ExtractedEntity,
    j: int,
    k: int,
)
    requires
        0 <= j < k < prior.len(),
        prior[j].kind@ == entity.kind@ && prior[k].kind@ == entity.kind@,
        prior[j].normalized_body_hash@ == entity.normalized_body_hash@,
        prior[k].normalized_body_hash@ == entity.normalized_body_hash@,
        !taken.contains(prior[j].entity_id@) && !taken.contains(prior[k].entity_id@),
        forall|i: int|
            0 <= i < prior.len() ==> !((#[trigger] prior[i]).kind@ == entity.kind@ && opt_view(
                prior[i].scope,
            ) == opt_view(entity.scope) && prior[i].name@ == entity.name@),
    ensures
        inherited_id(prior, taken, entity) is None,
{
    the_last_unit_of_a_symbol_counts(prior, entity.kind@, opt_view(entity.scope), entity.name@);
    free_ids_are_all_there(
        prior,
        taken,
        entity.kind@,
        entity.normalized_body_hash@,
        j,
        k,
    );
}

/// An entity that no prior unit is like gets an identity of its own, which is made of its
/// project, its document, its kind, its scope, its name and the place where it begins.
pub proof fn a_new_entity_gets_its_own_identity(
    project: Seq<char>,
    document: Seq<char>,
    prior: Seq<CodeUnit>,
    entities: Seq<ExtractedEntity>,
    n: int,
)
    requires
        0 <= n < entities.len(),
        forall|k: int|
            0 <= k < prior.len() ==> (#[trigger] prior[k]).kind@ != entities[n].kind@ || (
            prior[k].name@ != entities[n].name@ && prior[k].normalized_body_hash@
                != entities[n].normalized_body_hash@),
    ensures
        exists|text: Seq<char>|
            {
                &&& entity_id(project, document, prior, entities, n) == #[trigger] short_hash(
                    "ent:"@,
                    text,
                )
                &&& has(text, project) && has(text, document)
                &&& has(text, entities[n].kind@) && has(text, entities[n].name@)
                &&& entities[n].scope is Some ==> has(text, entities[n].scope->0@)
                &&& has(text, decimal(entities[n].span.start_byte as nat))
            },
{
    let entity = entities[n];
    identities_are_inherited_from_like_units(prior, taken_ids(prior, entities, n), entity);
    let parts = seq![
        project,
        document,
        entity.kind@,
        match entity.scope {
            Some(scope) => scope@,
            None => Seq::empty(),
        },
        entity.name@,
        decimal(entity.span.start_byte as nat),
    ];
    let text = joined(parts, "\0"@);
    every_part_is_in_a_joined_text(parts, "\0"@, 0);
    every_part_is_in_a_joined_text(parts, "\0"@, 1);
    every_part_is_in_a_joined_text(parts, "\0"@, 2);
    every_part_is_in_a_joined_text(parts, "\0"@, 3);
    every_part_is_in_a_joined_text(parts, "\0"@, 4);
    every_part_is_in_a_joined_text(parts, "\0"@, 5);
    assert(entity_id(project, document, prior, entities, n) == short_hash("ent:"@, text));
}

/// A version is made of its entity, the hash of its source and where it begins and ends.
pub proof fn a_version_is_made_of_its_source(id: Seq<char>, entity: ExtractedEntity)
    ensures
        exists|text: Seq<char>|
            {
                &&& version_id(id, entity) == #[trigger] short_hash("ver:"@, text)
                &&& has(text, id) && has(text, entity.source_hash@)
                &&& has(text, decimal(entity.span.start_byte as nat))
                &&& has(text, decimal(entity.span.end_byte as nat))
            },
{
    let parts = seq![
        id,
        entity.source_hash@,
        decimal(entity.span.start_byte as nat),
        decimal(entity.span.end_byte as nat),
    ];
    let text = joined(parts, "\0"@);
    every_part_is_in_a_joined_text(parts, "\0"@, 0);
    every_part_is_in_a_joined_text(parts, "\0"@, 1);
    every_part_is_in_a_joined_text(parts, "\0"@, 2);
    every_part_is_in_a_joined_text(parts, "\0"@, 3);
    assert(version_id(id, entity) == short_hash("ver:"@, text));
}

/// A content is kept as it is or dropped. What was enriched is never dropped, a full
/// retention drops nothing, a report keeps the full source, and what a smaller retention
/// keeps a greater one keeps too; the least keeps nothing that was extracted.
pub proof fn retention_drops_only_what_can_be_extracted_again(channel: NewRepresentation)
    ensures
        retained(channel, RetentionMode::Full) == channel.content,
        forall|mode: RetentionMode| #[trigger]
            retained(channel, mode) == channel.content || (retained(channel, mode) is None
                && channel.origin is Extracted),
        channel.kind is FullSource ==> retained(channel, RetentionMode::Report) == channel.content,
        channel.origin is Extracted ==> retained(channel, RetentionMode::Minimal) is None,
        channel.origin is Extracted && !channel.kind.same_as(&RepresentationKind::FullSource)
            ==> retained(channel, RetentionMode::Report) is None,
        retained(channel, RetentionMode::Minimal) is Some ==> retained(
            channel,
            RetentionMode::Report,
        ) == retained(channel, RetentionMode::Minimal),
{
}

} // verus!
