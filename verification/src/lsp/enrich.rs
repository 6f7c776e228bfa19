//! An enrichment pass: which requests it makes and what it keeps of the answers.
use crate::hashing::{sha256_hex, text_hash};
use crate::indexer::identity::NewRepresentation;
use crate::json::Json;
use crate::lines::{line_count, line_of, line_text, lines_in};
use crate::lsp::position::{
    byte_position, column_of, declared_name_byte, find_column, last_segment, last_segment_of,
    name_byte, position_of_byte,
};
use crate::lsp::target::{
    find_start_line, find_text, first_location, first_place, resolve_target, resolves_to,
    start_line_value, text_under, whole, RawCall, ServedFile, ServedUnit,
};
use crate::model::{EntityId, RepresentationKind, RepresentationOrigin};
use crate::search::RelationRecord;
use crate::text::concat;
use vstd::prelude::*;
use vstd::string::*;
use vstd::utf8::encode_utf8;

verus! {

/// The derived representation channel that enriched hovers land in.
pub const TYPED_SIGNATURE_CHANNEL: &'static str = "typed_signature";

/// How to launch a language server for one language.
#[derive(Debug)]
pub struct LspServer {
    /// Language id the server covers.
    pub language_id: String,
    pub command: String,
    pub args: Vec<String>,
}

impl LspServer {
    /// What the server's facts are marked with.
    pub fn provenance(&self) -> (r: String)
        ensures
            r@ == "lsp:"@ + self.command@,
    {
        concat("lsp:", self.command.as_str())
    }
}

#[derive(Debug, Clone, Copy, PartialEq, Eq, Structural)]
pub struct EnrichmentReport {
    pub files_visited: usize,
    pub units_visited: usize,
    pub typed_signatures: usize,
    pub relations: usize,
}

/// The number of units in the files.
pub open spec fn total_units(files: Seq<ServedFile>) -> nat
    decreases files.len(),
{
    if files.len() == 0 {
        0
    } else {
        total_units(files.drop_last()) + files.last().units@.len()
    }
}

proof fn total_units_grow(files: Seq<ServedFile>, k: int)
    requires
        0 <= k <= files.len(),
    ensures
        total_units(files.take(k)) <= total_units(files),
    decreases files.len() - k,
{
    if k < files.len() {
        total_units_grow(files, k + 1);
        assert(files.take(k + 1).drop_last() =~= files.take(k));
    } else {
        assert(files.take(k) =~= files);
    }
}

/// The report of a pass before any answer came: every file and unit is visited.
pub fn visits(files: &Vec<ServedFile>) -> (r: EnrichmentReport)
    requires
        total_units(files@) <= usize::MAX,
    ensures
        r.files_visited == files@.len(),
        r.units_visited == total_units(files@),
        r.typed_signatures == 0,
        r.relations == 0,
{
    let mut units: usize = 0;
    let mut i: usize = 0;
    assert(files@.take(0) =~= Seq::<ServedFile>::empty());
    while i < files.len()
        invariant
            i <= files@.len(),
            total_units(files@) <= usize::MAX,
            units == total_units(files@.take(i as int)),
        decreases files@.len() - i,
    {
        proof {
            total_units_grow(files@, i + 1);
            assert(files@.take(i + 1).drop_last() =~= files@.take(i as int));
        }
        units += files[i].units.len();
        i += 1;
    }
    assert(files@.take(i as int) =~= files@);
    EnrichmentReport {
        files_visited: files.len(),
        units_visited: units,
        typed_signatures: 0,
        relations: 0,
    }
}

/// What is asked of the server.
#[derive(Debug, Clone, Copy, PartialEq, Eq, Structural)]
pub enum AskKind {
    /// What is shown of a unit's name.
    Hover,
    /// The call hierarchy of a unit.
    PrepareCalls,
    /// The definition behind a call site.
    Definition,
}

/// One request: of a unit or of a call site of a file, at a position.
#[derive(Debug, Clone, Copy, PartialEq, Eq, Structural)]
pub struct Ask {
    pub kind: AskKind,
    pub file: usize,
    pub item: usize,
    pub line: usize,
    pub character: usize,
}

/// The position of a unit's name, where it is declared in the unit's span.
pub open spec fn name_position(source: Seq<char>, unit: ServedUnit) -> Option<(nat, nat)> {
    match name_byte(source, unit.start_byte as int, unit.end_byte as int, unit.name@) {
        Some(byte) => Some(byte_position(source, byte)),
        None => None,
    }
}

/// The requests for the units of a file.
pub open spec fn unit_asks(file: ServedFile, n: nat, at: int, kind: AskKind) -> Seq<Ask>
    decreases n,
{
    if n == 0 {
        Seq::empty()
    } else {
        let before = unit_asks(file, (n - 1) as nat, at, kind);
        match name_position(file.source@, file.units@[n - 1]) {
            Some((line, character)) => before.push(
                Ask {
                    kind,
                    file: at as usize,
                    item: (n - 1) as usize,
                    line: line as usize,
                    character: character as usize,
                },
            ),
            None => before,
        }
    }
}

/// A unit with the id.
pub open spec fn has_unit(units: Seq<ServedUnit>, id: i64) -> bool {
    exists|i: int| 0 <= i < units.len() && (#[trigger] units[i]).id == id
}

/// The line of a call site, counted from zero.
pub open spec fn call_line(call: RawCall) -> int {
    if call.start_line <= 1 {
        0
    } else {
        call.start_line - 1
    }
}

/// The column of a call site: where the last segment of its symbol first stands in
/// its line.
pub open spec fn call_column(file: ServedFile, call: RawCall) -> Option<nat> {
    if !has_unit(file.units@, call.caller_unit) || call_line(call) >= line_count(file.source@) {
        None
    } else {
        column_of(line_text(file.source@, call_line(call)), last_segment(call.symbol@))
    }
}

/// The requests for the call sites of a file.
pub open spec fn call_asks(file: ServedFile, n: nat, at: int) -> Seq<Ask>
    decreases n,
{
    if n == 0 {
        Seq::empty()
    } else {
        let before = call_asks(file, (n - 1) as nat, at);
        let call = file.calls@[n - 1];
        match call_column(file, call) {
            Some(character) => before.push(
                Ask {
                    kind: AskKind::Definition,
                    file: at as usize,
                    item: (n - 1) as usize,
                    line: call_line(call) as usize,
                    character: character as usize,
                },
            ),
            None => before,
        }
    }
}

/// The requests for a file: a hover for each unit whose name is found, then its
/// calls. The server's own call hierarchy is preferred: it needs nothing of the
/// language. Without it the frontend's call sites are resolved one by one.
pub open spec fn file_asks(file: ServedFile, at: int, call_hierarchy: bool) -> Seq<Ask> {
    unit_asks(file, file.units@.len(), at, AskKind::Hover) + if call_hierarchy {
        unit_asks(file, file.units@.len(), at, AskKind::PrepareCalls)
    } else {
        call_asks(file, file.calls@.len(), at)
    }
}

/// The requests for the first files.
pub open spec fn asks_until(files: Seq<ServedFile>, n: nat, call_hierarchy: bool) -> Seq<Ask>
    decreases n,
{
    if n == 0 {
        Seq::empty()
    } else {
        asks_until(files, (n - 1) as nat, call_hierarchy) + file_asks(
            files[n - 1],
            n - 1,
            call_hierarchy,
        )
    }
}

/// The source is short enough for positions of 32 bits.
pub open spec fn source_fits(file: ServedFile) -> bool {
    encode_utf8(file.source@).len() <= u32::MAX
}

fn add_unit_asks(file: &ServedFile, at: usize, kind: AskKind, out: &mut Vec<Ask>)
    requires
        source_fits(*file),
    ensures
        final(out)@ == old(out)@ + unit_asks(*file, file.units@.len(), at as int, kind),
{
    let ghost start = out@;
    let mut i: usize = 0;
    assert(out@ =~= start + unit_asks(*file, 0, at as int, kind));
    while i < file.units.len()
        invariant
            i <= file.units@.len(),
            source_fits(*file),
            out@ == start + unit_asks(*file, i as nat, at as int, kind),
        decreases file.units@.len() - i,
    {
        let ghost before = out@;
        let unit = &file.units[i];
        let source = file.source.as_str();
        if let Some(byte) = declared_name_byte(
            source,
            unit.start_byte,
            unit.end_byte,
            unit.name.as_str(),
        ) {
            let (line, character) = position_of_byte(source, byte);
            out.push(
                Ask { kind, file: at, item: i, line: line as usize, character: character as usize },
            );
        }
        i += 1;
        assert(out@ =~= start + unit_asks(*file, i as nat, at as int, kind));
    }
}

fn unit_known(units: &Vec<ServedUnit>, id: i64) -> (r: bool)
    ensures
        r == has_unit(units@, id),
{
    let mut i: usize = 0;
    while i < units.len()
        invariant
            i <= units@.len(),
            forall|j: int| 0 <= j < i ==> (#[trigger] units@[j]).id != id,
        decreases units@.len() - i,
    {
        if units[i].id == id {
            return true;
        }
        i += 1;
    }
    false
}

fn find_call_column(file: &ServedFile, call: &RawCall) -> (r: Option<(usize, usize)>)
    ensures
        match r {
            Some((line, column)) => line == call_line(*call) && call_column(*file, *call) == Some(
                column as nat,
            ),
            None => call_column(*file, *call) is None,
        },
{
    if !unit_known(&file.units, call.caller_unit) {
        return None;
    }
    let source = file.source.as_str();
    let zero: usize = if call.start_line <= 1 {
        0
    } else {
        let line: u64 = (call.start_line - 1) as u64;
        if line >= lines_in(source) as u64 {
            return None;
        }
        line as usize
    };
    match line_of(source, zero) {
        None => None,
        Some(line) => {
            let segment = last_segment_of(call.symbol.as_str());
            match find_column(line.as_str(), segment.as_str()) {
                Some(column) => Some((zero, column)),
                None => None,
            }
        },
    }
}

fn add_call_asks(file: &ServedFile, at: usize, out: &mut Vec<Ask>)
    ensures
        final(out)@ == old(out)@ + call_asks(*file, file.calls@.len(), at as int),
{
    let ghost start = out@;
    let mut i: usize = 0;
    assert(out@ =~= start + call_asks(*file, 0, at as int));
    while i < file.calls.len()
        invariant
            i <= file.calls@.len(),
            out@ == start + call_asks(*file, i as nat, at as int),
        decreases file.calls@.len() - i,
    {
        if let Some((line, character)) = find_call_column(file, &file.calls[i]) {
            out.push(Ask { kind: AskKind::Definition, file: at, item: i, line, character });
        }
        i += 1;
        assert(out@ =~= start + call_asks(*file, i as nat, at as int));
    }
}

/// The requests of a pass, in order.
pub fn plan_requests(files: &Vec<ServedFile>, call_hierarchy: bool) -> (r: Vec<Ask>)
    requires
        forall|i: int| 0 <= i < files@.len() ==> source_fits(#[trigger] files@[i]),
    ensures
        r@ == asks_until(files@, files@.len(), call_hierarchy),
{
    let mut out: Vec<Ask> = Vec::new();
    let mut i: usize = 0;
    while i < files.len()
        invariant
            i <= files@.len(),
            forall|j: int| 0 <= j < files@.len() ==> source_fits(#[trigger] files@[j]),
            out@ == asks_until(files@, i as nat, call_hierarchy),
        decreases files@.len() - i,
    {
        let ghost before = out@;
        let file = &files[i];
        add_unit_asks(file, i, AskKind::Hover, &mut out);
        if call_hierarchy {
            add_unit_asks(file, i, AskKind::PrepareCalls, &mut out);
        } else {
            add_call_asks(file, i, &mut out);
        }
        i += 1;
        assert(out@ =~= before + file_asks(files@[i - 1], i - 1, call_hierarchy));
    }
    out
}

/// The representation holds the text of a hover.
pub open spec fn is_typed_signature(
    representation: NewRepresentation,
    text: Seq<char>,
    provenance: Seq<char>,
    version: Seq<char>,
) -> bool {
    &&& representation.kind matches RepresentationKind::Custom(channel) && channel@
        == TYPED_SIGNATURE_CHANNEL@
    &&& representation.content_hash@ == text_hash(text)
    &&& representation.content matches Some(content) && content@ == text
    &&& representation.origin matches RepresentationOrigin::Derived {
        producer,
        version: by,
    } && producer@ == provenance && by@ == version
}

/// The representation that a hover's text becomes.
pub fn typed_signature(text: String, provenance: &str, version: &str) -> (r: NewRepresentation)
    ensures
        is_typed_signature(r, text@, provenance@, version@),
{
    NewRepresentation {
        kind: RepresentationKind::Custom(TYPED_SIGNATURE_CHANNEL.to_owned()),
        content_hash: sha256_hex(text.as_str()),
        content: Some(text),
        origin: RepresentationOrigin::Derived {
            producer: provenance.to_owned(),
            version: version.to_owned(),
        },
    }
}

/// The relation is a call from an entity, resolved by the server.
pub open spec fn is_call(
    relation: RelationRecord,
    from: EntityId,
    symbol: Seq<char>,
    provenance: Seq<char>,
) -> bool {
    &&& relation.from_entity_id == from
    &&& relation.to_symbol@ == symbol
    &&& relation.kind@ == "calls"@
    &&& relation.resolution@ == "exact"@
    &&& relation.provenance@ == provenance
}

fn call_relation(from: &EntityId, to: Option<EntityId>, symbol: &str, provenance: &str) -> (r:
    RelationRecord)
    ensures
        is_call(r, *from, symbol@, provenance@),
        r.to_entity_id == to,
{
    RelationRecord {
        from_entity_id: from.clone(),
        to_entity_id: to,
        to_symbol: symbol.to_owned(),
        kind: "calls".to_owned(),
        resolution: "exact".to_owned(),
        provenance: provenance.to_owned(),
    }
}

/// The symbol of a callee; empty where it has no name.
pub open spec fn callee_symbol(callee: Json) -> Seq<char> {
    match text_under(callee, "name"@) {
        Some(name) => name,
        None => Seq::empty(),
    }
}

/// The line of a callee: of its name where it is given, which always lies inside the
/// definition, else of its whole range.
pub open spec fn callee_line(callee: Json) -> Option<u64> {
    match start_line_value(callee, "selectionRange"@) {
        Some(value) => whole(Some(value)),
        None => whole(start_line_value(callee, "range"@)),
    }
}

/// The relation is the call of a callee.
pub open spec fn is_callee_relation(
    relation: RelationRecord,
    callee: Json,
    from: EntityId,
    root: Seq<char>,
    files: Seq<ServedFile>,
    provenance: Seq<char>,
) -> bool {
    &&& is_call(relation, from, callee_symbol(callee), provenance)
    &&& match (text_under(callee, "uri"@), callee_line(callee)) {
        (Some(uri), Some(line)) => resolves_to(root, uri, line, files, relation.to_entity_id),
        _ => relation.to_entity_id is None,
    }
}

/// The callees of an answer: what stands under `to` of each call.
pub open spec fn callees(calls: Seq<Json>) -> Seq<Json>
    decreases calls.len(),
{
    if calls.len() == 0 {
        Seq::empty()
    } else {
        let before = callees(calls.drop_last());
        match calls.last().field("to"@) {
            Some(callee) => before.push(callee),
            None => before,
        }
    }
}

/// The callees of an outgoing-calls answer; none where it is no list.
pub open spec fn outgoing_callees(outgoing: Json) -> Seq<Json> {
    match outgoing {
        Json::List(calls) => callees(calls@),
        _ => Seq::empty(),
    }
}

fn callee_relation(
    callee: &Json,
    from: &EntityId,
    root: &str,
    files: &Vec<ServedFile>,
    provenance: &str,
) -> (r: RelationRecord)
    ensures
        is_callee_relation(r, *callee, *from, root@, files@, provenance@),
{
    let symbol = match find_text(callee, "name") {
        Some(name) => name.to_owned(),
        None => String::new(),
    };
    let line = match find_start_line(callee, "selectionRange") {
        Some(value) => value.as_u64(),
        None => match find_start_line(callee, "range") {
            Some(value) => value.as_u64(),
            None => None,
        },
    };
    let target = match (find_text(callee, "uri"), line) {
        (Some(uri), Some(line)) => resolve_target(root, uri, line, files),
        _ => None,
    };
    call_relation(from, target, symbol.as_str(), provenance)
}

/// The relations are the calls of the callees.
pub open spec fn are_callee_relations(
    relations: Seq<RelationRecord>,
    of: Seq<Json>,
    from: EntityId,
    root: Seq<char>,
    files: Seq<ServedFile>,
    provenance: Seq<char>,
) -> bool {
    &&& relations.len() == of.len()
    &&& forall|i: int|
        0 <= i < of.len() ==> is_callee_relation(
            #[trigger] relations[i],
            of[i],
            from,
            root,
            files,
            provenance,
        )
}

/// The relations that an outgoing-calls answer gives for the entity that was asked
/// about.
pub fn outgoing_relations(
    outgoing: &Json,
    from: &EntityId,
    root: &str,
    files: &Vec<ServedFile>,
    provenance: &str,
) -> (r: Vec<RelationRecord>)
    ensures
        are_callee_relations(
            r@,
            outgoing_callees(*outgoing),
            *from,
            root@,
            files@,
            provenance@,
        ),
{
    let mut out: Vec<RelationRecord> = Vec::new();
    if let Json::List(calls) = outgoing {
        let mut i: usize = 0;
        assert(callees(calls@.take(0)) =~= Seq::<Json>::empty());
        while i < calls.len()
            invariant
                i <= calls@.len(),
                are_callee_relations(
                    out@,
                    callees(calls@.take(i as int)),
                    *from,
                    root@,
                    files@,
                    provenance@,
                ),
            decreases calls@.len() - i,
        {
            assert(calls@.take(i + 1).drop_last() =~= calls@.take(i as int));
            let ghost before = callees(calls@.take(i as int));
            if let Some(callee) = calls[i].get("to") {
                let relation = callee_relation(callee, from, root, files, provenance);
                out.push(relation);
                assert(callees(calls@.take(i + 1)) == before.push(*callee));
            }
            i += 1;
        }
        assert(calls@.take(i as int) =~= calls@);
    }
    out
}

/// The last unit with the id.
pub open spec fn unit_with_id(units: Seq<ServedUnit>, id: i64) -> Option<int>
    decreases units.len(),
{
    if units.len() == 0 {
        None
    } else if units.last().id == id {
        Some(units.len() - 1)
    } else {
        unit_with_id(units.drop_last(), id)
    }
}

fn find_caller(units: &Vec<ServedUnit>, id: i64) -> (r: Option<usize>)
    ensures
        match r {
            Some(at) => unit_with_id(units@, id) == Some(at as int) && at < units@.len(),
            None => unit_with_id(units@, id) is None,
        },
{
    let mut n: usize = units.len();
    assert(units@.take(n as int) =~= units@);
    while n > 0
        invariant
            n <= units@.len(),
            unit_with_id(units@, id) == unit_with_id(units@.take(n as int), id),
        decreases n,
    {
        assert(units@.take(n as int).drop_last() =~= units@.take(n - 1));
        if units[n - 1].id == id {
            return Some(n - 1);
        }
        n -= 1;
    }
    None
}

/// The relation that a definition answer gives for a call site; nothing where the
/// caller is no unit of the file.
pub fn definition_relation(
    definition: &Json,
    file: &ServedFile,
    call: &RawCall,
    root: &str,
    files: &Vec<ServedFile>,
    provenance: &str,
) -> (r: Option<RelationRecord>)
    ensures
        match (r, unit_with_id(file.units@, call.caller_unit)) {
            (Some(relation), Some(at)) => {
                &&& is_call(relation, file.units@[at].entity_id, call.symbol@, provenance@)
                &&& match first_place(*definition) {
                    Some((uri, line)) => resolves_to(
                        root@,
                        uri,
                        line,
                        files@,
                        relation.to_entity_id,
                    ),
                    None => relation.to_entity_id is None,
                }
            },
            (None, None) => true,
            _ => false,
        },
{
    let at = match find_caller(&file.units, call.caller_unit) {
        Some(at) => at,
        None => {
            return None;
        },
    };
    let target = match first_location(definition) {
        Some((uri, line)) => resolve_target(root, uri.as_str(), line, files),
        None => None,
    };
    Some(call_relation(&file.units[at].entity_id, target, call.symbol.as_str(), provenance))
}

/// What came back from a first request.
#[derive(Debug, Clone, Copy, PartialEq, Eq, Structural)]
pub enum FirstAnswer {
    /// The server has nothing to say yet.
    Empty,
    Value,
    Failed,
}

/// What to do about it.
#[derive(Debug, Clone, Copy, PartialEq, Eq, Structural)]
pub enum RetryStep {
    /// Take the value.
    Return,
    /// Wait, then ask again.
    Again,
    /// Wait, then go on without.
    GiveUp,
    /// Pass the failure on.
    Fail,
}

/// What to do about an answer to a request that was tried `tries` times before. The
/// server may still be loading the workspace.
pub fn retry_step(tries: usize, max_tries: usize, answer: FirstAnswer) -> (r: RetryStep)
    requires
        tries < max_tries,
    ensures
        r == match answer {
            FirstAnswer::Value => RetryStep::Return,
            FirstAnswer::Empty => if tries + 1 < max_tries {
                RetryStep::Again
            } else {
                RetryStep::GiveUp
            },
            FirstAnswer::Failed => if tries + 1 < max_tries {
                RetryStep::Again
            } else {
                RetryStep::Fail
            },
        },
{
    let more = tries + 1 < max_tries;
    match answer {
        FirstAnswer::Value => RetryStep::Return,
        FirstAnswer::Empty => {
            if more {
                RetryStep::Again
            } else {
                RetryStep::GiveUp
            }
        },
        FirstAnswer::Failed => {
            if more {
                RetryStep::Again
            } else {
                RetryStep::Fail
            }
        },
    }
}

/// One of the requests is a hover of the unit.
pub open spec fn hovers(asks: Seq<Ask>, f: int, u: int) -> bool {
    exists|i: int|
        {
            &&& 0 <= i < asks.len()
            &&& (#[trigger] asks[i]).kind == AskKind::Hover
            &&& asks[i].file == f
            &&& asks[i].item == u
        }
}

/// Every unit whose name is found in its span is asked about, whether or not the
/// server knows call hierarchies.
pub proof fn every_named_unit_is_hovered(
    files: Seq<ServedFile>,
    call_hierarchy: bool,
    f: int,
    u: int,
)
    requires
        0 <= f < files.len() <= usize::MAX,
        0 <= u < files[f].units@.len() <= usize::MAX,
        name_position(files[f].source@, files[f].units@[u]) is Some,
    ensures
        hovers(asks_until(files, files.len(), call_hierarchy), f, u),
{
    let n = files[f].units@.len();
    let i = hover_in_file(files[f], n, f, u);
    let own = file_asks(files[f], f, call_hierarchy);
    assert(own[i] == unit_asks(files[f], n, f, AskKind::Hover)[i]);
    let k = ask_in_prefix(files, files.len(), call_hierarchy, f, i);
    assert(asks_until(files, files.len(), call_hierarchy)[k] == own[i]);
}

proof fn hover_in_file(file: ServedFile, n: nat, at: int, u: int) -> (i: int)
    requires
        0 <= u < n <= file.units@.len() <= usize::MAX,
        0 <= at <= usize::MAX,
        name_position(file.source@, file.units@[u]) is Some,
    ensures
        0 <= i < unit_asks(file, n, at, AskKind::Hover).len(),
        unit_asks(file, n, at, AskKind::Hover)[i].kind == AskKind::Hover,
        unit_asks(file, n, at, AskKind::Hover)[i].file == at,
        unit_asks(file, n, at, AskKind::Hover)[i].item == u,
    decreases n,
{
    if u == n - 1 {
        unit_asks(file, n, at, AskKind::Hover).len() - 1
    } else {
        hover_in_file(file, (n - 1) as nat, at, u)
    }
}

proof fn ask_in_prefix(
    files: Seq<ServedFile>,
    n: nat,
    call_hierarchy: bool,
    f: int,
    i: int,
) -> (k: int)
    requires
        0 <= f < n <= files.len(),
        0 <= i < file_asks(files[f], f, call_hierarchy).len(),
    ensures
        0 <= k < asks_until(files, n, call_hierarchy).len(),
        asks_until(files, n, call_hierarchy)[k] == file_asks(files[f], f, call_hierarchy)[i],
    decreases n,
{
    if f == n - 1 {
        asks_until(files, (n - 1) as nat, call_hierarchy).len() + i
    } else {
        ask_in_prefix(files, (n - 1) as nat, call_hierarchy, f, i)
    }
}

/// A question about a unit is put where the unit's name stands, and only for units whose
/// name is found.
pub proof fn questions_are_put_at_names(
    file: ServedFile,
    n: nat,
    at: int,
    kind: AskKind,
    i: int,
)
    requires
        n <= file.units@.len() <= usize::MAX,
        0 <= at <= usize::MAX,
        0 <= i < unit_asks(file, n, at, kind).len(),
    ensures
        ({
            let ask = unit_asks(file, n, at, kind)[i];
            let place = name_position(file.source@, file.units@[ask.item as int]);
            &&& ask.kind == kind && ask.file == at && ask.item < n
            &&& place is Some
            &&& ask.line == (place->0).0 as usize && ask.character == (place->0).1 as usize
        }),
    decreases n,
{
    let before = unit_asks(file, (n - 1) as nat, at, kind);
    if i < before.len() {
        questions_are_put_at_names(file, (n - 1) as nat, at, kind, i);
    }
}

/// A call of a known unit is asked about in the line where it stands, behind the text before
/// the callee's own name, where the server has no call hierarchy.
pub proof fn calls_are_asked_about(
    file: ServedFile,
    n: nat,
    at: int,
    k: int,
)
    requires
        0 <= k < n <= file.calls@.len() <= usize::MAX,
        0 <= at <= usize::MAX,
        has_unit(file.units@, file.calls@[k].caller_unit),
        call_line(file.calls@[k]) < line_count(file.source@),
        column_of(
            line_text(file.source@, call_line(file.calls@[k])),
            last_segment(file.calls@[k].symbol@),
        ) is Some,
    ensures
        exists|i: int|
            {
                &&& 0 <= i < call_asks(file, n, at).len()
                &&& (#[trigger] call_asks(file, n, at)[i]).kind == AskKind::Definition
                &&& call_asks(file, n, at)[i].file == at && call_asks(file, n, at)[i].item == k
                &&& call_asks(file, n, at)[i].line == call_line(file.calls@[k]) as usize
            },
    decreases n,
{
    let (before, after) = (call_asks(file, (n - 1) as nat, at), call_asks(file, n, at));
    if k < n - 1 {
        calls_are_asked_about(file, (n - 1) as nat, at, k);
        let i = choose|i: int|
            {
                &&& 0 <= i < before.len()
                &&& (#[trigger] before[i]).kind == AskKind::Definition
                &&& before[i].file == at && before[i].item == k
                &&& before[i].line == call_line(file.calls@[k]) as usize
            };
        assert(after[i] == before[i]);
    } else {
        assert(after[after.len() - 1].item == k);
    }
}

/// A line of a call is counted from one, and what is not counted so is the first line.
pub proof fn call_lines_are_counted_from_one(call: RawCall)
    ensures
        call_line(call) >= 0,
        call.start_line >= 1 ==> call_line(call) + 1 == call.start_line,
        call.start_line < 1 ==> call_line(call) == 0,
{
}

/// A server with a call hierarchy is asked for it, and only a server without one is asked
/// for definitions.
pub proof fn calls_are_asked_for_once(file: ServedFile, at: int, i: int, call_hierarchy: bool)
    requires
        file.units@.len() <= usize::MAX && file.calls@.len() <= usize::MAX,
        0 <= at <= usize::MAX,
        0 <= i < file_asks(file, at, call_hierarchy).len(),
    ensures
        call_hierarchy ==> file_asks(file, at, call_hierarchy)[i].kind != AskKind::Definition,
        !call_hierarchy ==> file_asks(file, at, call_hierarchy)[i].kind != AskKind::PrepareCalls,
        file_asks(file, at, call_hierarchy)[i].file == at,
{
    let hovers = unit_asks(file, file.units@.len(), at, AskKind::Hover);
    if i < hovers.len() {
        questions_are_put_at_names(file, file.units@.len(), at, AskKind::Hover, i);
    } else if call_hierarchy {
        questions_are_put_at_names(
            file,
            file.units@.len(),
            at,
            AskKind::PrepareCalls,
            i - hovers.len(),
        );
    } else {
        call_questions(file, file.calls@.len(), at, i - hovers.len());
    }
}

proof fn call_questions(file: ServedFile, n: nat, at: int, i: int)
    requires
        n <= file.calls@.len(),
        0 <= at <= usize::MAX,
        0 <= i < call_asks(file, n, at).len(),
    ensures
        call_asks(file, n, at)[i].kind == AskKind::Definition,
        call_asks(file, n, at)[i].file == at,
    decreases n,
{
    let before = call_asks(file, (n - 1) as nat, at);
    if i < before.len() {
        call_questions(file, (n - 1) as nat, at, i);
    }
}

/// Every outgoing call that names a callee becomes a relation, and nothing else does.
pub proof fn every_callee_is_related(calls: Seq<Json>, k: int)
    requires
        0 <= k < calls.len(),
    ensures
        calls[k].field("to"@) matches Some(callee) ==> callees(calls).contains(callee),
        callees(calls).len() <= calls.len(),
        forall|i: int|
            0 <= i < callees(calls).len() ==> exists|j: int|
                0 <= j < calls.len() && (#[trigger] calls[j]).field("to"@) == Some(
                    #[trigger] callees(calls)[i],
                ),
    decreases calls.len(),
{
    let front = calls.drop_last();
    let (before, after) = (callees(front), callees(calls));
    if front.len() > 0 {
        every_callee_is_related(
            front,
            if k < front.len() {
                k
            } else {
                0
            },
        );
    } else {
        assert(before.len() == 0);
    }
    if calls[k].field("to"@) is Some {
        let callee = calls[k].field("to"@)->0;
        if k < front.len() {
            assert(front[k] == calls[k]);
            let i = choose|i: int| 0 <= i < before.len() && before[i] == callee;
            assert(after[i] == callee);
        } else {
            assert(after[after.len() - 1] == callee);
        }
    }
    assert forall|i: int| 0 <= i < after.len() implies exists|j: int|
        0 <= j < calls.len() && (#[trigger] calls[j]).field("to"@) == Some(#[trigger] after[i]) by {
        if i < before.len() {
            assert(after[i] == before[i]);
            let j = choose|j: int|
                0 <= j < front.len() && (#[trigger] front[j]).field("to"@) == Some(before[i]);
            assert(calls[j] == front[j]);
        } else {
            assert(calls[calls.len() - 1] == calls.last());
        }
    }
}

/// The units that are visited are those of all the files.
pub proof fn units_are_counted_over_the_files(left: Seq<ServedFile>, file: ServedFile)
    ensures
        total_units(left.push(file)) == total_units(left) + file.units@.len(),
        total_units(Seq::<ServedFile>::empty()) == 0,
{
    assert(left.push(file).drop_last() =~= left);
}

/// A unit is found by its id, the last one of that id.
pub proof fn a_caller_is_found_by_its_id(units: Seq<ServedUnit>, id: i64)
    ensures
        match unit_with_id(units, id) {
            Some(at) => 0 <= at < units.len() && units[at].id == id && forall|j: int|
                at < j < units.len() ==> (#[trigger] units[j]).id != id,
            None => !has_unit(units, id),
        },
    decreases units.len(),
{
    if units.len() > 0 {
        let front = units.drop_last();
        a_caller_is_found_by_its_id(front, id);
        assert forall|j: int| 0 <= j < front.len() implies #[trigger] units[j] == front[j] by {}
        if unit_with_id(units, id) is None && has_unit(units, id) {
            let i = choose|i: int| 0 <= i < units.len() && (#[trigger] units[i]).id == id;
            assert(front[i].id == id);
        }
    }
}

/// A server that has nothing to say is asked again while tries are left. After the last one
/// the run goes on without an answer, but a failure is passed on.
pub proof fn silence_is_borne_and_failure_is_not(
    tries: usize,
    max_tries: usize,
    answer: FirstAnswer,
    r: RetryStep,
)
    requires
        tries < max_tries,
        call_ensures(retry_step, (tries, max_tries, answer), r),
    ensures
        r == RetryStep::Return <==> answer == FirstAnswer::Value,
        r == RetryStep::Again <==> answer != FirstAnswer::Value && tries + 1 < max_tries,
        r == RetryStep::GiveUp <==> answer == FirstAnswer::Empty && tries + 1 == max_tries,
        r == RetryStep::Fail <==> answer == FirstAnswer::Failed && tries + 1 == max_tries,
{
}

/// A relation that a server tells of is a call by the unit that was asked about, and what it
/// calls is the unit around the place that the server names, where there is one.
pub proof fn a_told_call_is_related(
    relation: RelationRecord,
    callee: Json,
    from: EntityId,
    root: Seq<char>,
    files: Seq<ServedFile>,
    provenance: Seq<char>,
)
    requires
        is_callee_relation(relation, callee, from, root, files, provenance),
    ensures
        relation.from_entity_id == from,
        relation.kind@ == "calls"@ && relation.resolution@ == "exact"@,
        relation.provenance@ == provenance,
        text_under(callee, "name"@) matches Some(name) ==> relation.to_symbol@ == name,
        text_under(callee, "uri"@) is None || callee_line(callee) is None
            ==> relation.to_entity_id is None,
        relation.to_entity_id is Some ==> resolves_to(
            root,
            text_under(callee, "uri"@)->0,
            callee_line(callee)->0,
            files,
            relation.to_entity_id,
        ),
{
}

/// The line of a callee is that of its name, and that of the whole of it only where its name
/// has no place.
pub proof fn a_callee_is_placed_by_its_name(callee: Json)
    ensures
        start_line_value(callee, "selectionRange"@) is Some ==> callee_line(callee) == whole(
            start_line_value(callee, "selectionRange"@),
        ),
        start_line_value(callee, "selectionRange"@) is None ==> callee_line(callee) == whole(
            start_line_value(callee, "range"@),
        ),
{
}

/// A typed signature carries its text, the hash of it, and who told it.
pub proof fn a_typed_signature_carries_its_text(
    representation: NewRepresentation,
    text: Seq<char>,
    provenance: Seq<char>,
    version: Seq<char>,
)
    requires
        is_typed_signature(representation, text, provenance, version),
    ensures
        representation.content is Some && representation.content->0@ == text,
        representation.content_hash@ == text_hash(text),
        representation.origin is Derived,
        representation.origin->Derived_producer@ == provenance,
        representation.origin->Derived_version@ == version,
        representation.kind is Custom && representation.kind->Custom_0@ == "typed_signature"@,
{
}

} // verus!
