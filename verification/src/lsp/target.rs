//! Where a server's answers point.
use crate::config::settings::{forward_slashes, with_forward_slashes};
use crate::json::Json;
use crate::lsp::wire::{path_of, uri_to_path};
use crate::model::EntityId;
use crate::path::{relative_path, relative_to};
use crate::text::same;
use vstd::prelude::*;
use vstd::string::*;

verus! {

/// A unit of a file that a server is asked about.
#[derive(Debug)]
pub struct ServedUnit {
    pub id: i64,
    pub entity_id: EntityId,
    pub name: String,
    pub start_byte: usize,
    pub end_byte: usize,
    pub start_line: usize,
    pub end_line: usize,
}

/// A call site that the language frontend found.
#[derive(Debug)]
pub struct RawCall {
    pub caller_unit: i64,
    pub symbol: String,
    pub start_line: i64,
}

/// A file that a server is asked about.
#[derive(Debug)]
pub struct ServedFile {
    pub relative_path: String,
    pub source: String,
    pub units: Vec<ServedUnit>,
    pub calls: Vec<RawCall>,
}

/// What stands under `start` and `line` of a range, where it is there.
pub open spec fn start_line_value(location: Json, range: Seq<char>) -> Option<Json> {
    match location.field(range) {
        Some(found) => match found.field("start"@) {
            Some(start) => start.field("line"@),
            None => None,
        },
        None => None,
    }
}

/// The number that a value is.
pub open spec fn whole(value: Option<Json>) -> Option<u64> {
    match value {
        Some(Json::Whole(n)) => Some(n),
        _ => None,
    }
}

/// What stands under `start` and `line` of a range, where it is there.
pub fn find_start_line<'a>(location: &'a Json, range: &str) -> (r: Option<&'a Json>)
    ensures
        match r {
            Some(value) => start_line_value(*location, range@) == Some(*value),
            None => start_line_value(*location, range@) is None,
        },
{
    match location.get(range) {
        Some(found) => match found.get("start") {
            Some(start) => start.get("line"),
            None => None,
        },
        None => None,
    }
}

/// The text under a name, where there is one.
pub open spec fn text_under(object: Json, name: Seq<char>) -> Option<Seq<char>> {
    match object.field(name) {
        Some(Json::Text(text)) => Some(text@),
        _ => None,
    }
}

/// The text under a name, where there is one.
pub fn find_text<'a>(object: &'a Json, name: &str) -> (r: Option<&'a str>)
    ensures
        match r {
            Some(text) => text_under(*object, name@) == Some(text@),
            None => text_under(*object, name@) is None,
        },
{
    match object.get(name) {
        Some(value) => value.as_str(),
        None => None,
    }
}

/// The place that a location names: in its own form or as a link.
pub open spec fn place_of(location: Json) -> Option<(Seq<char>, u64)> {
    match text_under(location, "uri"@) {
        Some(uri) => match whole(start_line_value(location, "range"@)) {
            Some(line) => Some((uri, line)),
            None => None,
        },
        None => match (
            text_under(location, "targetUri"@),
            whole(start_line_value(location, "targetRange"@)),
        ) {
            (Some(uri), Some(line)) => Some((uri, line)),
            _ => None,
        },
    }
}

/// The first place of a definition: of one location, or of the first of several.
pub open spec fn first_place(definition: Json) -> Option<(Seq<char>, u64)> {
    match definition {
        Json::List(items) => if items@.len() == 0 {
            None
        } else {
            place_of(items@[0])
        },
        other => place_of(other),
    }
}

fn read_place(location: &Json) -> (r: Option<(String, u64)>)
    ensures
        match r {
            Some(place) => place_of(*location) == Some((place.0@, place.1)),
            None => place_of(*location) is None,
        },
{
    let (uri, range) = match find_text(location, "uri") {
        Some(uri) => (uri, "range"),
        None => match find_text(location, "targetUri") {
            Some(uri) => (uri, "targetRange"),
            None => {
                return None;
            },
        },
    };
    match find_start_line(location, range) {
        Some(value) => match value.as_u64() {
            Some(line) => Some((uri.to_owned(), line)),
            None => None,
        },
        None => None,
    }
}

/// First URI and line of a definition answer: one location, several, or links.
pub fn first_location(definition: &Json) -> (r: Option<(String, u64)>)
    ensures
        match r {
            Some(place) => first_place(*definition) == Some((place.0@, place.1)),
            None => first_place(*definition) is None,
        },
{
    match definition {
        Json::List(items) => {
            if items.len() == 0 {
                None
            } else {
                read_place(&items[0])
            }
        },
        other => read_place(other),
    }
}

/// The last file at the path.
pub open spec fn file_at(files: Seq<ServedFile>, path: Seq<char>) -> Option<int>
    decreases files.len(),
{
    if files.len() == 0 {
        None
    } else if files.last().relative_path@ == path {
        Some(files.len() - 1)
    } else {
        file_at(files.drop_last(), path)
    }
}

fn find_file(files: &Vec<ServedFile>, path: &str) -> (r: Option<usize>)
    ensures
        match r {
            Some(at) => file_at(files@, path@) == Some(at as int) && at < files@.len(),
            None => file_at(files@, path@) is None,
        },
{
    let mut n: usize = files.len();
    assert(files@.take(n as int) =~= files@);
    while n > 0
        invariant
            n <= files@.len(),
            file_at(files@, path@) == file_at(files@.take(n as int), path@),
        decreases n,
    {
        assert(files@.take(n as int).drop_last() =~= files@.take(n - 1));
        if same(files[n - 1].relative_path.as_str(), path) {
            return Some(n - 1);
        }
        n -= 1;
    }
    None
}

/// The line, counted from one, lies in the unit.
pub open spec fn encloses(unit: ServedUnit, line: int) -> bool {
    unit.start_line <= line <= unit.end_line
}

/// The first of the shortest units around the line.
pub open spec fn is_innermost(units: Seq<ServedUnit>, line: int, at: int) -> bool {
    &&& 0 <= at < units.len()
    &&& encloses(units[at], line)
    &&& forall|j: int|
        0 <= j < units.len() && encloses(#[trigger] units[j], line) ==> {
            &&& units[at].end_line - units[at].start_line <= units[j].end_line
                - units[j].start_line
            &&& j < at ==> units[at].end_line - units[at].start_line < units[j].end_line
                - units[j].start_line
        }
}

/// The entity is that of the innermost unit around the line, if there is one.
pub open spec fn is_entity_around(
    units: Seq<ServedUnit>,
    line: int,
    entity: Option<EntityId>,
) -> bool {
    match entity {
        Some(id) => exists|at: int|
            #[trigger] is_innermost(units, line, at) && units[at].entity_id == id,
        None => forall|j: int| 0 <= j < units.len() ==> !encloses(#[trigger] units[j], line),
    }
}

/// The file that a URI names, where it lies below the root and was indexed.
pub open spec fn target_file(
    root: Seq<char>,
    uri: Seq<char>,
    files: Seq<ServedFile>,
) -> Option<int> {
    match path_of(uri) {
        None => None,
        Some(path) => match relative_to(path, root) {
            None => None,
            Some(relative) => file_at(files, forward_slashes(relative)),
        },
    }
}

/// The entity is what stands at the place, a line counted from zero.
pub open spec fn resolves_to(
    root: Seq<char>,
    uri: Seq<char>,
    line: u64,
    files: Seq<ServedFile>,
    entity: Option<EntityId>,
) -> bool {
    match target_file(root, uri, files) {
        Some(at) => is_entity_around(files[at].units@, line + 1, entity),
        None => entity is None,
    }
}

fn innermost(units: &Vec<ServedUnit>, line: usize) -> (r: Option<usize>)
    ensures
        match r {
            Some(at) => is_innermost(units@, line as int, at as int),
            None => forall|j: int|
                0 <= j < units@.len() ==> !encloses(#[trigger] units@[j], line as int),
        },
{
    let mut best: Option<usize> = None;
    let mut i: usize = 0;
    while i < units.len()
        invariant
            i <= units@.len(),
            match best {
                Some(at) => {
                    &&& at < i
                    &&& is_innermost(units@.take(i as int), line as int, at as int)
                },
                None => forall|j: int|
                    0 <= j < i ==> !encloses(#[trigger] units@[j], line as int),
            },
        decreases units@.len() - i,
    {
        let ghost now = units@.take(i as int);
        let ghost next = units@.take(i + 1);
        let ghost before = best;
        let unit = &units[i];
        if unit.start_line <= line && line <= unit.end_line {
            let shorter = match best {
                Some(at) => {
                    assert(encloses(now[at as int], line as int));
                    unit.end_line - unit.start_line < units[at].end_line - units[at].start_line
                },
                None => true,
            };
            if shorter {
                best = Some(i);
            }
        }
        proof {
            if best is Some {
                let at = best->0 as int;
                assert forall|j: int|
                    0 <= j < next.len() && encloses(#[trigger] next[j], line as int) implies {
                    &&& next[at].end_line - next[at].start_line <= next[j].end_line
                        - next[j].start_line
                    &&& j < at ==> next[at].end_line - next[at].start_line < next[j].end_line
                        - next[j].start_line
                } by {
                    if j < i {
                        assert(next[j] == units@[j] && now[j] == units@[j]);
                        if before is Some {
                            assert(now[before->0 as int] == units@[before->0 as int]);
                        }
                    }
                }
                assert(is_innermost(next, line as int, at));
            }
        }
        i += 1;
    }
    assert(units@.take(i as int) =~= units@);
    best
}

/// Map a place onto the indexed entity containing it, when the place lies inside
/// the indexed project.
pub fn resolve_target(root: &str, target_uri: &str, target_line: u64, files: &Vec<ServedFile>) -> (r:
    Option<EntityId>)
    ensures
        resolves_to(root@, target_uri@, target_line, files@, r),
{
    let path = match uri_to_path(target_uri) {
        Some(path) => path,
        None => {
            return None;
        },
    };
    let relative = match relative_path(path.as_str(), root) {
        Some(relative) => relative,
        None => {
            return None;
        },
    };
    let at = match find_file(files, with_forward_slashes(relative.as_str()).as_str()) {
        Some(at) => at,
        None => {
            return None;
        },
    };
    if target_line >= usize::MAX as u64 {
        return None;
    }
    let line: usize = target_line as usize + 1;
    match innermost(&files[at].units, line) {
        Some(unit) => Some(files[at].units[unit].entity_id.clone()),
        None => None,
    }
}

/// The last file of a path is the one that is meant.
pub proof fn a_path_leads_to_its_file(files: Seq<ServedFile>, path: Seq<char>)
    ensures
        match file_at(files, path) {
            Some(at) => 0 <= at < files.len() && files[at].relative_path@ == path && forall|j: int|
                at < j < files.len() ==> (#[trigger] files[j]).relative_path@ != path,
            None => forall|j: int|
                0 <= j < files.len() ==> (#[trigger] files[j]).relative_path@ != path,
        },
    decreases files.len(),
{
    if files.len() > 0 {
        let front = files.drop_last();
        a_path_leads_to_its_file(front, path);
        assert forall|j: int| 0 <= j < front.len() implies #[trigger] files[j] == front[j] by {}
    }
}

/// A target that is resolved is a unit that holds the line, counted from one, of a file that
/// the target names below the root; no unit that holds the line is shorter.
pub proof fn a_target_is_the_unit_around_it(
    root: Seq<char>,
    uri: Seq<char>,
    line: u64,
    files: Seq<ServedFile>,
    entity: EntityId,
)
    requires
        resolves_to(root, uri, line, files, Some(entity)),
    ensures
        exists|at: int, u: int|
            {
                &&& 0 <= at < files.len()
                &&& 0 <= u < files[at].units@.len()
                &&& (#[trigger] files[at].units@[u]).entity_id == entity
                &&& files[at].units@[u].start_line <= line + 1 <= files[at].units@[u].end_line
                &&& path_of(uri) is Some && relative_to(path_of(uri)->0, root) is Some
                &&& files[at].relative_path@ == forward_slashes(
                    relative_to(path_of(uri)->0, root)->0,
                )
                &&& forall|j: int|
                    0 <= j < files[at].units@.len() && (#[trigger] files[at].units@[j]).start_line
                        <= line + 1 <= files[at].units@[j].end_line ==> files[at].units@[u].end_line
                        - files[at].units@[u].start_line <= files[at].units@[j].end_line
                        - files[at].units@[j].start_line
            },
{
    let at = target_file(root, uri, files)->0;
    a_path_leads_to_its_file(files, forward_slashes(relative_to(path_of(uri)->0, root)->0));
    let units = files[at].units@;
    let u = choose|u: int| #[trigger] is_innermost(units, line + 1, u) && units[u].entity_id
        == entity;
    assert(files[at].units@[u].entity_id == entity);
    assert forall|j: int|
        0 <= j < files[at].units@.len() && (#[trigger] files[at].units@[j]).start_line <= line + 1
            <= files[at].units@[j].end_line implies files[at].units@[u].end_line
        - files[at].units@[u].start_line <= files[at].units@[j].end_line
        - files[at].units@[j].start_line by {
        assert(encloses(units[j], line + 1));
    }
}

/// A location is read in either of its two forms, and of several the first counts.
pub proof fn the_first_location_counts(items: Vec<Json>, location: Json)
    ensures
        items@.len() > 0 ==> first_place(Json::List(items)) == place_of(items@[0]),
        items@.len() == 0 ==> first_place(Json::List(items)) is None,
        !(location is List) ==> first_place(location) == place_of(location),
        text_under(location, "uri"@) is Some ==> (match place_of(location) {
            Some((uri, line)) => Some(uri) == text_under(location, "uri"@) && whole(
                start_line_value(location, "range"@),
            ) == Some(line),
            None => whole(start_line_value(location, "range"@)) is None,
        }),
        text_under(location, "uri"@) is None ==> (match place_of(location) {
            Some((uri, line)) => Some(uri) == text_under(location, "targetUri"@) && whole(
                start_line_value(location, "targetRange"@),
            ) == Some(line),
            None => text_under(location, "targetUri"@) is None || whole(
                start_line_value(location, "targetRange"@),
            ) is None,
        }),
{
}

} // verus!
