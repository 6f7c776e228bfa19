//! Finding again the texts that a store keeps only by their hash: the source they
//! were extracted from is read back, and what is extracted from it anew is held
//! against the hashes that are wanted.
use crate::hashing::{sha256_hex, text_hash};
use crate::indexer::provider::{provider_reads, SourceProvider, SourceProviderCatalog};
use crate::model::{ExtractedEntity, RepresentationKind};
use crate::text::{list_holds, same, views};
use crate::text_map::TextMap;
use crate::utf8::read_utf8;
use vstd::prelude::*;
use vstd::utf8::*;

verus! {

/// Where a text was extracted from.
#[derive(Debug, Clone)]
pub struct RecoveryLocation {
    pub project_label: String,
    pub source_document_id: String,
    pub relative_path: String,
    pub language_id: String,
    /// The hash of the source as it was then.
    pub source_hash: String,
}

/// Why a source cannot be used to recover texts.
#[derive(Debug)]
pub enum RecoveryFault {
    /// The cached source is not text.
    NotUtf8,
    /// The provider failed.
    Source(String),
    /// The source is not the one that the texts were extracted from.
    HashMismatch,
}

/// Whether recovered source is the source that a unit was extracted from.
pub fn source_matches(source: &str, source_hash: &str) -> (r: bool)
    ensures
        r == (text_hash(source@) == source_hash@),
{
    same(sha256_hex(source).as_str(), source_hash)
}

/// What a source that was read comes to: it has to be the one that the location
/// names. No source is no fault.
pub open spec fn source_checked(
    location: RecoveryLocation,
    given: Result<Option<String>, String>,
    r: Result<Option<String>, RecoveryFault>,
) -> bool {
    match given {
        Err(message) => r == Err::<Option<String>, RecoveryFault>(RecoveryFault::Source(message)),
        Ok(None) => r == Ok::<Option<String>, RecoveryFault>(None),
        Ok(Some(source)) => if text_hash(source@) == location.source_hash@ {
            r == Ok::<Option<String>, RecoveryFault>(Some(source))
        } else {
            r == Err::<Option<String>, RecoveryFault>(RecoveryFault::HashMismatch)
        },
    }
}

/// Holds a source that was read against the hash of its location.
pub fn check_source(location: &RecoveryLocation, given: Result<Option<String>, String>) -> (r:
    Result<Option<String>, RecoveryFault>)
    ensures
        source_checked(*location, given, r),
{
    match given {
        Err(message) => Err(RecoveryFault::Source(message)),
        Ok(None) => Ok(None),
        Ok(Some(source)) => if source_matches(source.as_str(), location.source_hash.as_str()) {
            Ok(Some(source))
        } else {
            Err(RecoveryFault::HashMismatch)
        },
    }
}

/// What cached bytes come to: the text they encode, if it is the one that the
/// location names.
pub open spec fn cache_checked(
    location: RecoveryLocation,
    cached: Seq<u8>,
    r: Result<Option<String>, RecoveryFault>,
) -> bool {
    if !valid_utf8(cached) {
        r == Err::<Option<String>, RecoveryFault>(RecoveryFault::NotUtf8)
    } else if text_hash(decode_utf8(cached)) != location.source_hash@ {
        r == Err::<Option<String>, RecoveryFault>(RecoveryFault::HashMismatch)
    } else {
        r matches Ok(Some(source)) && source@ == decode_utf8(cached)
    }
}

/// The source that a location names: out of the cache where it is cached, else
/// through the provider of its project. Nothing comes back where neither has it.
pub fn recovery_source<'a, P: SourceProvider + ?Sized>(
    location: &RecoveryLocation,
    cached: Option<Vec<u8>>,
    sources: Option<&SourceProviderCatalog<'a, P>>,
) -> (r: Result<Option<String>, RecoveryFault>)
    requires
        sources matches Some(catalog) ==> catalog.wf(),
    ensures
        match (cached, sources) {
            (Some(bytes), _) => cache_checked(*location, bytes@, r),
            (None, None) => r == Ok::<Option<String>, RecoveryFault>(None),
            (None, Some(catalog)) => if catalog.providers@.contains_key(location.project_label@) {
                exists|given: Result<Option<String>, String>|
                    {
                        &&& #[trigger] provider_reads(
                            catalog.providers@[location.project_label@],
                            location.source_document_id@,
                            location.relative_path@,
                            location.language_id@,
                            given,
                        )
                        &&& source_checked(*location, given, r)
                    }
            } else {
                r == Ok::<Option<String>, RecoveryFault>(None)
            },
        },
{
    match cached {
        Some(bytes) => match read_utf8(bytes.as_slice()) {
            Ok(source) => check_source(location, Ok(Some(source))),
            Err(_) => Err(RecoveryFault::NotUtf8),
        },
        None => match sources {
            None => Ok(None),
            Some(catalog) => {
                let given = catalog.read(
                    location.project_label.as_str(),
                    location.source_document_id.as_str(),
                    location.relative_path.as_str(),
                    location.language_id.as_str(),
                );
                check_source(location, given)
            },
        },
    }
}

/// The text of a channel with the hash that the entities hold; where several do, the
/// last one's.
pub open spec fn offered(
    entities: Seq<ExtractedEntity>,
    channel: RepresentationKind,
    hash: Seq<char>,
) -> Option<String>
    decreases entities.len(),
{
    if entities.len() == 0 {
        None
    } else {
        match entities.last().find(channel) {
            Some(found) if found.content_hash@ == hash => Some(found.content),
            _ => offered(entities.drop_last(), channel, hash),
        }
    }
}

/// The text that the entities give for a hash: only wanted hashes are recovered.
pub open spec fn recovers(
    entities: Seq<ExtractedEntity>,
    channel: RepresentationKind,
    wanted: Seq<Seq<char>>,
    hash: Seq<char>,
) -> Option<String> {
    if wanted.contains(hash) {
        offered(entities, channel, hash)
    } else {
        None
    }
}

/// Takes from re-extracted entities the texts of a channel whose hashes are
/// wanted; a later entity with the same hash replaces an earlier one. What was
/// recovered before stays.
pub fn collect_recovered(
    recovered: &mut TextMap<String>,
    entities: &Vec<ExtractedEntity>,
    channel: &RepresentationKind,
    wanted: &Vec<String>,
)
    requires
        old(recovered).wf(),
    ensures
        final(recovered).wf(),
        forall|hash: Seq<char>| #[trigger]
            final(recovered)@.contains_key(hash) <==> old(recovered)@.contains_key(hash)
                || recovers(entities@, *channel, views(wanted@), hash) is Some,
        forall|hash: Seq<char>|
            final(recovered)@.contains_key(hash) ==> #[trigger] final(recovered)@[hash]
                == match recovers(entities@, *channel, views(wanted@), hash) {
                Some(text) => text,
                None => old(recovered)@[hash],
            },
{
    let ghost start = recovered@;
    let mut i: usize = 0;
    while i < entities.len()
        invariant
            i <= entities@.len(),
            recovered.wf(),
            start == old(recovered)@,
            forall|hash: Seq<char>| #[trigger]
                recovered@.contains_key(hash) <==> start.contains_key(hash) || recovers(
                    entities@.take(i as int),
                    *channel,
                    views(wanted@),
                    hash,
                ) is Some,
            forall|hash: Seq<char>|
                recovered@.contains_key(hash) ==> #[trigger] recovered@[hash] == match recovers(
                    entities@.take(i as int),
                    *channel,
                    views(wanted@),
                    hash,
                ) {
                    Some(text) => text,
                    None => start[hash],
                },
        decreases entities@.len() - i,
    {
        assert(entities@.take(i + 1).drop_last() =~= entities@.take(i as int));
        assert(entities@.take(i + 1).last() == entities@[i as int]);
        if let Some(found) = entities[i].representation(channel) {
            if list_holds(wanted, found.content_hash.as_str()) {
                let _previous = recovered.insert(
                    found.content_hash.clone(),
                    found.content.clone(),
                );
            }
        }
        i += 1;
    }
    assert(entities@.take(i as int) =~= entities@);
}

/// A source that is recovered has the hash that its texts were extracted from, wherever it
/// comes from.
pub proof fn only_the_same_source_is_recovered(
    location: RecoveryLocation,
    given: Result<Option<String>, String>,
    cached: Seq<u8>,
    r: Result<Option<String>, RecoveryFault>,
)
    requires
        source_checked(location, given, r) || cache_checked(location, cached, r),
    ensures
        r matches Ok(Some(source)) ==> text_hash(source@) == location.source_hash@,
{
}

/// A source that a provider gives back unchanged is recovered.
pub proof fn an_unchanged_source_is_recovered(
    location: RecoveryLocation,
    source: String,
    r: Result<Option<String>, RecoveryFault>,
)
    requires
        source_checked(location, Ok::<Option<String>, String>(Some(source)), r),
        text_hash(source@) == location.source_hash@,
    ensures
        r == Ok::<Option<String>, RecoveryFault>(Some(source)),
{
}

/// A text is recovered for a hash that is wanted where an entity has a channel of that kind
/// with that hash, and the text is that channel's.
pub proof fn recovered_texts_are_of_their_channel(
    entities: Seq<ExtractedEntity>,
    channel: RepresentationKind,
    wanted: Seq<Seq<char>>,
    hash: Seq<char>,
)
    ensures
        match recovers(entities, channel, wanted, hash) {
            Some(text) => wanted.contains(hash) && exists|k: int|
                {
                    &&& 0 <= k < entities.len()
                    &&& (#[trigger] entities[k]).find(channel) is Some
                    &&& entities[k].find(channel)->0.content_hash@ == hash
                    &&& entities[k].find(channel)->0.content == text
                },
            None => wanted.contains(hash) ==> forall|k: int|
                0 <= k < entities.len() ==> !((#[trigger] entities[k]).find(channel) is Some
                    && entities[k].find(channel)->0.content_hash@ == hash),
        },
    decreases entities.len(),
{
    if entities.len() > 0 {
        let front = entities.drop_last();
        recovered_texts_are_of_their_channel(front, channel, wanted, hash);
        assert forall|k: int| 0 <= k < front.len() implies #[trigger] entities[k] == front[k] by {}
        let last = entities.last().find(channel);
        if wanted.contains(hash) {
            if last is Some && last->0.content_hash@ == hash {
                assert(entities[entities.len() - 1] == entities.last());
            } else if recovers(entities, channel, wanted, hash) is Some {
                let text = recovers(entities, channel, wanted, hash)->0;
                let k = choose|k: int|
                    {
                        &&& 0 <= k < front.len()
                        &&& (#[trigger] front[k]).find(channel) is Some
                        &&& front[k].find(channel)->0.content_hash@ == hash
                        &&& front[k].find(channel)->0.content == text
                    };
                assert(entities[k] == front[k]);
            }
        }
    }
}

} // verus!
