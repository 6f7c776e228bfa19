//! What is derived from an extracted entity: its representations, its identity
//! across generations, and what of it is kept.
use crate::hashing::{sha256_hex, text_hash};
use crate::indexer::provider::SourceDocument;
use crate::indexer::settings::EnricherIdentity;
use crate::model::{
    channel_position, channel_position_facts, channel_position_is_first, position_of_channel,
    ExtractedEntity, Representation, RepresentationKind,
};
use crate::names::{declared_from, declared_position};
use crate::text::{chars_of, same, text_between};
use crate::utf8::{byte_slice, cut_at, sliceable, slice_text};
use vstd::prelude::*;
use vstd::string::*;
use vstd::utf8::{encode_utf8, is_char_boundary};

verus! {

/// Optional producer for consumer-defined representations such as generated
/// descriptions. Producers run after deterministic frontend representations are
/// complete and before retention is applied.
pub trait RepresentationEnricher {
    /// Stable producer/config identity used to decide whether staged work is
    /// safe to reuse across process invocations.
    fn identity(&self) -> EnricherIdentity;

    fn enrich(
        &self,
        document: &SourceDocument,
        source: &str,
        entity: &ExtractedEntity,
    ) -> Result<Vec<Representation>, String>;
}

/// The list with `item` in place of the first representation of its kind, or at
/// the end where there is none.
pub open spec fn upserted(list: Seq<Representation>, item: Representation) -> Seq<
    Representation,
> {
    let at = channel_position(list, item.kind);
    if at < list.len() {
        list.update(at, item)
    } else {
        list.push(item)
    }
}

/// Replaces the representation of the same kind, or adds the new one.
pub fn upsert_representation(
    representations: &mut Vec<Representation>,
    replacement: Representation,
)
    ensures
        final(representations)@ == upserted(old(representations)@, replacement),
{
    let at = position_of_channel(representations, &replacement.kind);
    if at < representations.len() {
        representations.set(at, replacement);
    } else {
        representations.push(replacement);
    }
}

/// The representation list with all of `items` upserted in order.
pub open spec fn upserted_all(list: Seq<Representation>, items: Seq<Representation>) -> Seq<
    Representation,
>
    decreases items.len(),
{
    if items.len() == 0 {
        list
    } else {
        upserted(upserted_all(list, items.drop_last()), items.last())
    }
}

/// Upserts every item in order.
pub fn upsert_all(representations: &mut Vec<Representation>, items: Vec<Representation>)
    ensures
        final(representations)@ == upserted_all(old(representations)@, items@),
{
    let ghost start = representations@;
    let mut i: usize = 0;
    while i < items.len()
        invariant
            i <= items@.len(),
            representations@ == upserted_all(start, items@.take(i as int)),
        decreases items@.len() - i,
    {
        assert(items@.take(i + 1).drop_last() =~= items@.take(i as int));
        upsert_representation(representations, items[i].clone());
        i += 1;
    }
    assert(items@.take(i as int) =~= items@);
}

/// Entity `after` is `before` with what the producers added: each is asked in order,
/// sees what the ones before it added, and what it gives is upserted.
pub open spec fn enriched<E: RepresentationEnricher + ?Sized>(
    document: &SourceDocument,
    source: &str,
    enrichers: Seq<&E>,
    before: ExtractedEntity,
    after: ExtractedEntity,
) -> bool
    decreases enrichers.len(),
{
    if enrichers.len() == 0 {
        after == before
    } else {
        exists|seen: ExtractedEntity, items: Vec<Representation>|
            {
                &&& enriched(document, source, enrichers.drop_last(), before, seen)
                &&& #[trigger] call_ensures(
                    E::enrich,
                    (enrichers.last(), document, source, &seen),
                    Ok::<Vec<Representation>, String>(items),
                )
                &&& after.representations@ == upserted_all(seen.representations@, items@)
                &&& after == (ExtractedEntity { representations: after.representations, ..seen })
            }
    }
}

/// One of the producers fails with the message on what the ones before it made of the
/// entity.
pub open spec fn enriching_fails<E: RepresentationEnricher + ?Sized>(
    document: &SourceDocument,
    source: &str,
    enrichers: Seq<&E>,
    before: ExtractedEntity,
    message: String,
) -> bool {
    exists|k: int, seen: ExtractedEntity|
        {
            &&& 0 <= k < enrichers.len()
            &&& enriched(document, source, enrichers.take(k), before, seen)
            &&& #[trigger] call_ensures(
                E::enrich,
                (enrichers[k], document, source, &seen),
                Err::<Vec<Representation>, String>(message),
            )
        }
}

/// Lets every producer add to an entity, in order; each sees what the ones
/// before it added. The first producer that fails ends it.
pub fn apply_enrichers<E: RepresentationEnricher + ?Sized>(
    document: &SourceDocument,
    source: &str,
    entity: &mut ExtractedEntity,
    enrichers: &Vec<&E>,
) -> (r: Result<(), String>)
    ensures
        match r {
            Ok(()) => enriched(document, source, enrichers@, *old(entity), *final(entity)),
            Err(message) => enriching_fails(document, source, enrichers@, *old(entity), message),
        },
{
    let ghost start = *entity;
    let mut i: usize = 0;
    while i < enrichers.len()
        invariant
            i <= enrichers@.len(),
            *old(entity) == start,
            enriched(document, source, enrichers@.take(i as int), start, *entity),
        decreases enrichers@.len() - i,
    {
        let ghost seen = *entity;
        let ghost next = enrichers@.take(i + 1);
        let given = enrichers[i].enrich(document, source, entity);
        assert(next.drop_last() =~= enrichers@.take(i as int));
        assert(next.last() == enrichers@[i as int]);
        match given {
            Ok(items) => {
                assert(call_ensures(
                    E::enrich,
                    (next.last(), document, source, &seen),
                    Ok::<Vec<Representation>, String>(items),
                ));
                upsert_all(&mut entity.representations, items);
                assert(enriched(document, source, next, start, *entity));
            },
            Err(message) => {
                assert(call_ensures(
                    E::enrich,
                    (enrichers@[i as int], document, source, &seen),
                    Err::<Vec<Representation>, String>(message),
                ));
                return Err(message);
            },
        }
        i += 1;
    }
    assert(enrichers@.take(i as int) =~= enrichers@);
    Ok(())
}

/// Upserting one channel leaves every other channel as it was.
pub proof fn upserting_keeps_other_channels(
    list: Seq<Representation>,
    item: Representation,
    kind: RepresentationKind,
)
    requires
        !item.kind.same_as(&kind),
    ensures
        channel_position(list, kind) < list.len() ==> channel_position(upserted(list, item), kind)
            == channel_position(list, kind) && upserted(list, item)[channel_position(list, kind)]
            == list[channel_position(list, kind)],
        channel_position(list, kind) >= list.len() ==> channel_position(
            upserted(list, item),
            kind,
        ) == upserted(list, item).len(),
{
    let at = channel_position(list, kind);
    let out = upserted(list, item);
    channel_position_facts(list, kind);
    channel_position_facts(list, item.kind);
    if at < list.len() {
        channel_position_is_first(out, kind, at);
    } else {
        channel_position_is_first(out, kind, out.len() as int);
    }
}

/// After an upsert the channel holds the new item.
pub proof fn an_upserted_channel_is_found(list: Seq<Representation>, item: Representation)
    ensures
        channel_position(upserted(list, item), item.kind) < upserted(list, item).len(),
        upserted(list, item)[channel_position(upserted(list, item), item.kind)] == item,
{
    let at = channel_position(list, item.kind);
    channel_position_facts(list, item.kind);
    channel_position_is_first(upserted(list, item), item.kind, at);
}

/// `hash` is the hash of what `normalize` makes of `text`.
pub open spec fn normalized_hash<F: Fn(&str) -> String>(
    normalize: F,
    text: Seq<char>,
    hash: Seq<char>,
) -> bool {
    exists|t: &str, n: String|
        t@ == text && #[trigger] normalize.ensures((t,), n) && hash == text_hash(n@)
}

/// `r` is a channel that the frontend extracted, with the given text and the
/// hash of its normalized form.
pub open spec fn extracted_channel<F: Fn(&str) -> String>(
    r: Representation,
    content: Seq<char>,
    normalize: F,
) -> bool {
    &&& r.content@ == content
    &&& normalized_hash(normalize, content, r.content_hash@)
    &&& r.origin is Extracted
    &&& r.origin->frontend@ == "tree-sitter"@
}

/// The body of an entity becomes a channel, and its hash the hash by which a
/// renamed entity is recognised.
pub open spec fn body_added<F: Fn(&str) -> String>(
    entity: ExtractedEntity,
    source: Seq<char>,
    normalize: F,
    channels: Seq<Representation>,
    body_hash: Seq<char>,
) -> bool {
    match entity.body_span {
        None => channels == entity.representations@ && body_hash == entity.normalized_body_hash@,
        Some(span) => exists|r: Representation|
            #![trigger upserted(entity.representations@, r)]
            {
                &&& r.kind is Body
                &&& extracted_channel(
                    r,
                    byte_slice(source, span.start_byte as int, span.end_byte as int),
                    normalize,
                )
                &&& channels == upserted(entity.representations@, r)
                &&& body_hash == r.content_hash@
            },
    }
}

/// The number of bytes of the full source that come before the body.
pub open spec fn body_offset(entity: ExtractedEntity, full: Seq<char>) -> int {
    let length = encode_utf8(full).len() as int;
    match entity.body_span {
        None => length,
        Some(span) => {
            let lead = if span.start_byte >= entity.span.start_byte {
                span.start_byte - entity.span.start_byte
            } else {
                0
            };
            if lead <= length {
                lead
            } else {
                length
            }
        },
    }
}

/// The full source with the declared name, at `at`, taken out.
pub open spec fn without_name(full: Seq<char>, name: Seq<char>, at: int) -> Seq<char> {
    full.take(at) + "<declared-name>"@ + full.skip(at + name.len())
}

/// Where the name is found before the body, the full source without it becomes
/// a channel.
pub open spec fn name_erased<F: Fn(&str) -> String>(
    entity: ExtractedEntity,
    before: Seq<Representation>,
    normalize: F,
    after: Seq<Representation>,
) -> bool {
    let at = channel_position(before, RepresentationKind::FullSource);
    let full = before[at].content@;
    let place = declared_from(
        byte_slice(full, 0, body_offset(entity, full)),
        entity.name@,
        0,
    );
    if at < before.len() && entity.name@ != "<anonymous>"@ && place is Some {
        exists|r: Representation|
            #![trigger upserted(before, r)]
            {
                &&& r.kind is BodyWithoutDeclaredName
                &&& extracted_channel(r, without_name(full, entity.name@, place->0), normalize)
                &&& after == upserted(before, r)
            }
    } else {
        after == before
    }
}

/// The entity's spans lie between characters of the source and of its own text.
pub open spec fn spans_fit(entity: ExtractedEntity, source: Seq<char>) -> bool {
    &&& entity.body_span matches Some(span) ==> sliceable(
        source,
        span.start_byte as int,
        span.end_byte as int,
    )
    &&& entity.find(RepresentationKind::FullSource) matches Some(full) ==> is_char_boundary(
        encode_utf8(full.content@),
        body_offset(entity, full.content@),
    )
}

/// The entity with its derived channels: first the body, then the full source
/// without the declared name.
pub open spec fn completed<F: Fn(&str) -> String>(
    before: ExtractedEntity,
    source: Seq<char>,
    normalize: F,
    after: ExtractedEntity,
) -> bool {
    &&& exists|channels: Seq<Representation>|
        #![trigger name_erased(before, channels, normalize, after.representations@)]
        body_added(before, source, normalize, channels, after.normalized_body_hash@)
            && name_erased(before, channels, normalize, after.representations@)
    &&& after == (ExtractedEntity {
        representations: after.representations,
        normalized_body_hash: after.normalized_body_hash,
        ..before
    })
}

fn hash_of_normalized<F: Fn(&str) -> String>(text: &str, normalize: &F) -> (r: String)
    requires
        forall|t: &str| normalize.requires((t,)),
    ensures
        normalized_hash(*normalize, text@, r@),
{
    let n = normalize(text);
    sha256_hex(n.as_str())
}

/// Where the body begins in the entity's own text.
fn body_start(entity: &ExtractedEntity, full: &str) -> (r: usize)
    ensures
        r == body_offset(*entity, full@),
{
    let length: usize = full.as_bytes().len();
    match entity.body_span {
        None => length,
        Some(span) => {
            let lead: usize = if span.start_byte >= entity.span.start_byte {
                span.start_byte - entity.span.start_byte
            } else {
                0
            };
            if lead <= length {
                lead
            } else {
                length
            }
        },
    }
}

/// Whether the texts that completing an entity cuts out are cut between characters.
pub fn check_spans(entity: &ExtractedEntity, source: &str) -> (r: bool)
    ensures
        r == spans_fit(*entity, source@),
{
    if let Some(span) = entity.body_span {
        if span.start_byte > span.end_byte || !source.is_char_boundary(span.start_byte)
            || !source.is_char_boundary(span.end_byte) {
            return false;
        }
    }
    match entity.representation(&RepresentationKind::FullSource) {
        Some(full) => full.content.as_str().is_char_boundary(
            body_start(entity, full.content.as_str()),
        ),
        None => true,
    }
}

/// Completes what the frontend extracted: the body and the name-erased source
/// become channels of their own. `normalize` prepares a text for hashing.
pub fn complete_representations<F: Fn(&str) -> String>(
    source: &str,
    entity: &mut ExtractedEntity,
    normalize: &F,
)
    requires
        forall|t: &str| normalize.requires((t,)),
        spans_fit(*old(entity), source@),
    ensures
        completed(*old(entity), source@, *normalize, *final(entity)),
{
    let ghost start = *entity;
    if let Some(span) = entity.body_span {
        let body = slice_text(source, span.start_byte, span.end_byte);
        let body_hash = hash_of_normalized(body.as_str(), normalize);
        let item = Representation::new(
            RepresentationKind::Body,
            body.as_str(),
            body_hash.as_str(),
        );
        proof {
            reveal_strlit("body");
            reveal_strlit("full_source");
            assert(item.kind@.len() == 4);
            upserting_keeps_other_channels(
                start.representations@,
                item,
                RepresentationKind::FullSource,
            );
        }
        upsert_representation(&mut entity.representations, item);
        entity.normalized_body_hash = body_hash;
    }
    let ghost channels = entity.representations@;
    assert(body_added(start, source@, *normalize, channels, entity.normalized_body_hash@));
    let full = match entity.representation(&RepresentationKind::FullSource) {
        Some(found) => found.content.clone(),
        None => {
            assert(name_erased(start, channels, *normalize, entity.representations@));
            return ;
        },
    };
    let offset: usize = body_start(entity, full.as_str());
    let (prefix, rest) = cut_at(full.as_str(), offset);
    if !same(entity.name.as_str(), "<anonymous>") {
        let name = chars_of(entity.name.as_str());
        let front = chars_of(prefix);
        if let Some(at) = declared_position(&front, &name) {
            let all = chars_of(full.as_str());
            assert(all@ == front@ + rest@);
            let mut without = text_between(&all, 0, at);
            without.append("<declared-name>");
            without.append(text_between(&all, at + name.len(), all.len()).as_str());
            assert(without@ =~= without_name(full@, entity.name@, at as int));
            let hash = hash_of_normalized(without.as_str(), normalize);
            let item = Representation::new(
                RepresentationKind::BodyWithoutDeclaredName,
                without.as_str(),
                hash.as_str(),
            );
            upsert_representation(&mut entity.representations, item);
        }
    }
    assert(name_erased(start, channels, *normalize, entity.representations@));
}

/// Erasing a name changes nothing else: with the name in its place again the text is what it
/// was.
pub proof fn only_the_name_is_erased(full: Seq<char>, name: Seq<char>, at: int)
    requires
        0 <= at,
        at + name.len() <= full.len(),
        full.subrange(at, at + name.len()) == name,
    ensures
        ({
            let erased = without_name(full, name, at);
            let mark = "<declared-name>"@;
            &&& erased.len() == full.len() - name.len() + mark.len()
            &&& erased.subrange(at, at + mark.len()) == mark
            &&& erased.take(at) + name + erased.skip(at + mark.len()) == full
        }),
{
    let erased = without_name(full, name, at);
    let mark = "<declared-name>"@;
    assert(erased.subrange(at, at + mark.len()) =~= mark);
    let back = erased.take(at) + name + erased.skip(at + mark.len());
    assert(back.len() == full.len());
    assert forall|i: int| 0 <= i < full.len() implies back[i] == full[i] by {
        if at <= i < at + name.len() {
            assert(full.subrange(at, at + name.len())[i - at] == full[i]);
        }
    }
    assert(back =~= full);
}

/// A body begins as far into the full source as it begins behind the entity, and the full
/// source of an entity without a body ends before one would begin.
pub proof fn a_body_begins_behind_its_entity(entity: ExtractedEntity, full: Seq<char>)
    ensures
        0 <= body_offset(entity, full) <= encode_utf8(full).len(),
        entity.body_span is None ==> body_offset(entity, full) == encode_utf8(full).len(),
        entity.body_span matches Some(span) ==> (entity.span.start_byte <= span.start_byte
            && span.start_byte - entity.span.start_byte <= encode_utf8(full).len()
            ==> entity.span.start_byte + body_offset(entity, full) == span.start_byte),
{
}

/// An entity with a body has a channel with just that body when it is completed, and the
/// hash by which it is found again is that channel's. What the entity is does not change.
pub proof fn a_completed_entity_has_its_body<F: Fn(&str) -> String>(
    before: ExtractedEntity,
    source: Seq<char>,
    normalize: F,
    after: ExtractedEntity,
)
    requires
        completed(before, source, normalize, after),
    ensures
        before.body_span matches Some(span) ==> {
            let body = after.find(RepresentationKind::Body);
            &&& body is Some
            &&& body->0.content@ == byte_slice(
                source,
                span.start_byte as int,
                span.end_byte as int,
            )
            &&& body->0.content_hash@ == after.normalized_body_hash@
        },
        before.body_span is None ==> after.normalized_body_hash@ == before.normalized_body_hash@,
        after.name == before.name && after.kind == before.kind && after.scope == before.scope,
        after.span == before.span && after.body_span == before.body_span,
        after.language == before.language && after.source_hash == before.source_hash,
{
    let channels = choose|channels: Seq<Representation>|
        #![trigger name_erased(before, channels, normalize, after.representations@)]
        body_added(before, source, normalize, channels, after.normalized_body_hash@)
            && name_erased(before, channels, normalize, after.representations@);
    if before.body_span is Some {
        let body = choose|r: Representation|
            #![trigger upserted(before.representations@, r)]
            {
                &&& r.kind is Body
                &&& extracted_channel(
                    r,
                    byte_slice(
                        source,
                        before.body_span->0.start_byte as int,
                        before.body_span->0.end_byte as int,
                    ),
                    normalize,
                )
                &&& channels == upserted(before.representations@, r)
                &&& after.normalized_body_hash@ == r.content_hash@
            };
        an_upserted_channel_is_found(before.representations@, body);
        assert(body.kind == RepresentationKind::Body);
        reveal_strlit("body");
        reveal_strlit("body_without_declared_name");
        assert("body"@.len() != "body_without_declared_name"@.len());
        if after.representations@ != channels {
            let nameless = choose|r: Representation|
                #![trigger upserted(channels, r)]
                r.kind is BodyWithoutDeclaredName && after.representations@ == upserted(
                    channels,
                    r,
                );
            channel_position_facts(channels, nameless.kind);
            upserting_keeps_other_channels(channels, nameless, RepresentationKind::Body);
        }
    }
}

/// What has no name of its own has no name erased.
pub proof fn an_anonymous_entity_keeps_its_text<F: Fn(&str) -> String>(
    entity: ExtractedEntity,
    before: Seq<Representation>,
    normalize: F,
    after: Seq<Representation>,
)
    requires
        name_erased(entity, before, normalize, after),
        entity.name@ == "<anonymous>"@,
    ensures
        after == before,
{
}

/// Enrichers add and replace channels, and leave the rest of the entity as it is.
pub proof fn enrichers_leave_the_entity<E: RepresentationEnricher + ?Sized>(
    document: &SourceDocument,
    source: &str,
    enrichers: Seq<&E>,
    before: ExtractedEntity,
    after: ExtractedEntity,
)
    requires
        enriched(document, source, enrichers, before, after),
    ensures
        after == (ExtractedEntity { representations: after.representations, ..before }),
        after.representations@.len() >= before.representations@.len(),
        enrichers.len() == 0 ==> after.representations == before.representations,
    decreases enrichers.len(),
{
    if enrichers.len() > 0 {
        let (seen, items) = choose|seen: ExtractedEntity, items: Vec<Representation>|
            {
                &&& enriched(document, source, enrichers.drop_last(), before, seen)
                &&& #[trigger] call_ensures(
                    E::enrich,
                    (enrichers.last(), document, source, &seen),
                    Ok::<Vec<Representation>, String>(items),
                )
                &&& after.representations@ == upserted_all(seen.representations@, items@)
                &&& after == (ExtractedEntity { representations: after.representations, ..seen })
            };
        enrichers_leave_the_entity(document, source, enrichers.drop_last(), before, seen);
        nothing_is_upserted_away(seen.representations@, items@);
    }
}

/// Upserting keeps the number of channels or adds to it, one for each item at most, and each
/// item's channel is then there.
pub proof fn nothing_is_upserted_away(list: Seq<Representation>, items: Seq<Representation>)
    ensures
        list.len() <= upserted_all(list, items).len() <= list.len() + items.len(),
        items.len() > 0 ==> channel_position(upserted_all(list, items), items.last().kind)
            < upserted_all(list, items).len() && upserted_all(list, items)[channel_position(
            upserted_all(list, items),
            items.last().kind,
        )] == items.last(),
    decreases items.len(),
{
    if items.len() > 0 {
        nothing_is_upserted_away(list, items.drop_last());
        channel_position_facts(upserted_all(list, items.drop_last()), items.last().kind);
        an_upserted_channel_is_found(upserted_all(list, items.drop_last()), items.last());
    }
}

} // verus!
