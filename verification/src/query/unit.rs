//! What a query sees of a code unit.
use crate::hashing::{short_hash, tagged_hash};
use crate::text::{
    chars_of, contains, decimal, decimal_text, ends_with, has, join, joined, last_index,
    last_position, same, starts_with, text_between, views,
};
use vstd::prelude::*;
use vstd::string::*;

verus! {

/// The facts of a code unit.
pub struct UnitFacts {
    pub project_label: Seq<char>,
    pub relative_path: Seq<char>,
    pub language_id: Seq<char>,
    pub kind: Seq<char>,
    pub name: Seq<char>,
    pub scope: Option<Seq<char>>,
    pub start_byte: usize,
    pub end_byte: usize,
    pub start_line: usize,
    pub end_line: usize,
    pub body_node_count: usize,
    pub normalized_body_hash: Seq<char>,
}

/// A code unit, whatever holds it.
pub trait UnitView {
    spec fn facts(&self) -> UnitFacts;

    fn project_label(&self) -> (r: &str)
        ensures
            r@ == self.facts().project_label,
    ;

    fn relative_path(&self) -> (r: &str)
        ensures
            r@ == self.facts().relative_path,
    ;

    fn language_id(&self) -> (r: &str)
        ensures
            r@ == self.facts().language_id,
    ;

    fn kind(&self) -> (r: &str)
        ensures
            r@ == self.facts().kind,
    ;

    fn name(&self) -> (r: &str)
        ensures
            r@ == self.facts().name,
    ;

    fn scope(&self) -> (r: Option<&str>)
        ensures
            self.facts().scope == match r {
                Some(scope) => Some(scope@),
                None => None,
            },
    ;

    fn start_byte(&self) -> (r: usize)
        ensures
            r == self.facts().start_byte,
    ;

    fn end_byte(&self) -> (r: usize)
        ensures
            r == self.facts().end_byte,
    ;

    fn start_line(&self) -> (r: usize)
        ensures
            r == self.facts().start_line,
    ;

    fn end_line(&self) -> (r: usize)
        ensures
            r == self.facts().end_line,
    ;

    fn body_node_count(&self) -> (r: usize)
        ensures
            r == self.facts().body_node_count,
    ;

    fn normalized_body_hash(&self) -> (r: &str)
        ensures
            r@ == self.facts().normalized_body_hash,
    ;
}

/// The selector of a unit: a hash of where it stands and what it is.
pub open spec fn selector(unit: UnitFacts) -> Seq<char> {
    short_hash(
        "unit:"@,
        joined(
            seq![
                unit.project_label,
                unit.relative_path,
                decimal(unit.start_byte as nat),
                decimal(unit.end_byte as nat),
                unit.normalized_body_hash,
                unit.name,
                match unit.scope {
                    Some(scope) => scope,
                    None => Seq::empty(),
                },
                unit.language_id,
            ],
            "\0"@,
        ),
    )
}

/// The selector by which a unit is named.
pub fn unit_id<U: UnitView + ?Sized>(unit: &U) -> (r: String)
    ensures
        r@ == selector(unit.facts()),
{
    let scope = match unit.scope() {
        Some(scope) => scope.to_owned(),
        None => String::new(),
    };
    let parts: Vec<String> = vec![
        unit.project_label().to_owned(),
        unit.relative_path().to_owned(),
        decimal_text(unit.start_byte() as u64),
        decimal_text(unit.end_byte() as u64),
        unit.normalized_body_hash().to_owned(),
        unit.name().to_owned(),
        scope,
        unit.language_id().to_owned(),
    ];
    let ghost facts = unit.facts();
    assert(views(parts@) =~= seq![
        facts.project_label,
        facts.relative_path,
        decimal(facts.start_byte as nat),
        decimal(facts.end_byte as nat),
        facts.normalized_body_hash,
        facts.name,
        match facts.scope {
            Some(scope) => scope,
            None => Seq::empty(),
        },
        facts.language_id,
    ]);
    tagged_hash("unit:", join(&parts, "\0").as_str())
}

/// The line that describes a unit.
pub open spec fn description(unit: UnitFacts) -> Seq<char> {
    selector(unit) + " "@ + unit.project_label + ":"@ + unit.relative_path + ":"@ + decimal(
        unit.start_line as nat,
    ) + "-"@ + decimal(unit.end_line as nat) + " "@ + unit.kind + " "@ + unit.name + (
    match unit.scope {
        Some(scope) => " ("@ + scope + ")"@,
        None => Seq::empty(),
    })
}

/// One line that describes a unit.
pub fn unit_line<U: UnitView + ?Sized>(unit: &U) -> (r: String)
    ensures
        r@ == description(unit.facts()),
{
    let mut out = unit_id(unit);
    out.append(" ");
    out.append(unit.project_label());
    out.append(":");
    out.append(unit.relative_path());
    out.append(":");
    out.append(decimal_text(unit.start_line() as u64).as_str());
    out.append("-");
    out.append(decimal_text(unit.end_line() as u64).as_str());
    out.append(" ");
    out.append(unit.kind());
    out.append(" ");
    out.append(unit.name());
    if let Some(scope) = unit.scope() {
        let ghost before = out@;
        out.append(" (");
        out.append(scope);
        out.append(")");
        assert(out@ =~= before + (" ("@ + scope@ + ")"@));
    } else {
        assert(out@ =~= out@ + Seq::<char>::empty());
    }
    out
}

/// The last part of a path.
pub open spec fn file_part(path: Seq<char>) -> Seq<char> {
    path.skip(last_index(path, '/') + 1)
}

/// The path is one where tests conventionally lie.
pub open spec fn test_path(path: Seq<char>) -> bool {
    ||| "tests/"@.is_prefix_of(path)
    ||| has(path, "/tests/"@)
    ||| has(path, "/test/"@)
    ||| "_test.go"@.is_suffix_of(path)
    ||| "_test.py"@.is_suffix_of(path)
    ||| ".test.ts"@.is_suffix_of(path)
    ||| ".test.js"@.is_suffix_of(path)
    ||| "_spec.rb"@.is_suffix_of(path)
    ||| "test_"@.is_prefix_of(file_part(path))
}

/// What the metadata of a test looks like: the frontend's `test` kind, the
/// `tests` scope, a conventional test path, or a test-prefixed or -suffixed name.
pub open spec fn test_like(unit: UnitFacts) -> bool {
    ||| unit.kind == "test"@
    ||| unit.scope == Some("tests"@)
    ||| test_path(unit.relative_path)
    ||| "test_"@.is_prefix_of(unit.name)
    ||| "_test"@.is_suffix_of(unit.name)
}

fn last_part(path: &str) -> (r: String)
    ensures
        r@ == file_part(path@),
{
    let all = chars_of(path);
    match last_position(&all, '/') {
        Some(at) => {
            assert(at < all.len());
            assert(all@.skip(at + 1) =~= all@.subrange(at + 1, all@.len() as int));
            text_between(&all, at + 1, all.len())
        },
        None => {
            assert(path@.skip(0) =~= path@);
            path.to_owned()
        },
    }
}

/// Heuristic test detection over the extracted metadata.
pub fn looks_like_test<U: UnitView + ?Sized>(unit: &U) -> (r: bool)
    ensures
        r == test_like(unit.facts()),
{
    if same(unit.kind(), "test") {
        return true;
    }
    if let Some(scope) = unit.scope() {
        if same(scope, "tests") {
            return true;
        }
    }
    let path = unit.relative_path();
    if starts_with(path, "tests/") || contains(path, "/tests/") || contains(path, "/test/")
        || ends_with(path, "_test.go") || ends_with(path, "_test.py") || ends_with(path, ".test.ts")
        || ends_with(path, ".test.js") || ends_with(path, "_spec.rb") || starts_with(
        last_part(path).as_str(),
        "test_",
    ) {
        return true;
    }
    let name = unit.name();
    starts_with(name, "test_") || ends_with(name, "_test")
}

/// A unit of kind `test`, in the scope `tests` or with a name that begins with `test_` or
/// ends with `_test` is taken for a test wherever it lies.
pub proof fn tests_are_known_by_what_they_are(unit: UnitFacts, rest: Seq<char>)
    requires
        unit.kind == "test"@ || unit.scope == Some("tests"@) || unit.name == "test_"@ + rest
            || unit.name == rest + "_test"@,
    ensures
        test_like(unit),
{
    if unit.name == "test_"@ + rest {
        assert("test_"@ =~= unit.name.take("test_"@.len() as int));
    }
    if unit.name == rest + "_test"@ {
        assert("_test"@ =~= unit.name.skip(rest.len() as int));
    }
}

/// A unit below a directory of tests is taken for a test, whatever it is.
pub proof fn tests_are_known_by_their_directory(
    unit: UnitFacts,
    above: Seq<char>,
    below: Seq<char>,
)
    requires
        unit.relative_path == "tests/"@ + below || unit.relative_path == above + "/tests/"@ + below
            || unit.relative_path == above + "/test/"@ + below,
    ensures
        test_like(unit),
{
    let path = unit.relative_path;
    if path == "tests/"@ + below {
        assert("tests/"@ =~= path.take("tests/"@.len() as int));
    }
    let at = above.len() as int;
    if path == above + "/tests/"@ + below {
        assert(path.subrange(at, at + "/tests/"@.len()) =~= "/tests/"@);
        assert(crate::text::occurs_at(path, "/tests/"@, at));
    }
    if path == above + "/test/"@ + below {
        assert(path.subrange(at, at + "/test/"@.len()) =~= "/test/"@);
        assert(crate::text::occurs_at(path, "/test/"@, at));
    }
}

/// A unit in a file that is named as tests are is taken for a test, whatever it is.
pub proof fn tests_are_known_by_their_file(unit: UnitFacts, above: Seq<char>, file: Seq<char>)
    requires
        unit.relative_path == above + "_test.go"@ || unit.relative_path == above + "_test.py"@
            || unit.relative_path == above + ".test.ts"@ || unit.relative_path == above
            + ".test.js"@ || unit.relative_path == above + "_spec.rb"@ || (!file.contains('/') && (
        unit.relative_path == "test_"@ + file || unit.relative_path == above + "/test_"@ + file)),
    ensures
        test_like(unit),
{
    let path = unit.relative_path;
    assert(path == above + "_test.go"@ ==> "_test.go"@ =~= path.skip(above.len() as int));
    assert(path == above + "_test.py"@ ==> "_test.py"@ =~= path.skip(above.len() as int));
    assert(path == above + ".test.ts"@ ==> ".test.ts"@ =~= path.skip(above.len() as int));
    assert(path == above + ".test.js"@ ==> ".test.js"@ =~= path.skip(above.len() as int));
    assert(path == above + "_spec.rb"@ ==> "_spec.rb"@ =~= path.skip(above.len() as int));
    reveal_strlit("test_");
    reveal_strlit("/test_");
    if !file.contains('/') && path == "test_"@ + file {
        assert forall|j: int| 0 <= j < path.len() implies path[j] != '/' by {
            if j >= 5 {
                assert(path[j] == file[j - 5]);
            }
        }
        crate::text::last_place(path, '/');
        assert(path.skip(0) =~= path);
        assert("test_"@ =~= path.take(5));
    }
    if !file.contains('/') && path == above + "/test_"@ + file {
        assert forall|j: int| above.len() < j < path.len() implies path[j] != '/' by {
            if j >= above.len() + 6 {
                assert(path[j] == file[j - above.len() - 6]);
            }
        }
        assert(path[above.len() as int] == '/');
        crate::text::last_place(path, '/');
        assert(file_part(path).take(5) =~= "test_"@);
    }
}

/// Nothing else is taken for a test: not by its language, its size or where in a file it
/// stands.
pub proof fn tests_are_known_by_nothing_else(unit: UnitFacts)
    requires
        test_like(unit),
    ensures
        ({
            let path = unit.relative_path;
            ||| unit.kind == "test"@
            ||| unit.scope == Some("tests"@)
            ||| "test_"@.is_prefix_of(unit.name)
            ||| "_test"@.is_suffix_of(unit.name)
            ||| "tests/"@.is_prefix_of(path)
            ||| has(path, "/tests/"@)
            ||| has(path, "/test/"@)
            ||| "_test.go"@.is_suffix_of(path)
            ||| "_test.py"@.is_suffix_of(path)
            ||| ".test.ts"@.is_suffix_of(path)
            ||| ".test.js"@.is_suffix_of(path)
            ||| "_spec.rb"@.is_suffix_of(path)
            ||| "test_"@.is_prefix_of(path)
            ||| has(path, "/test_"@)
        }),
{
    let path = unit.relative_path;
    crate::text::last_place(path, '/');
    let at = last_index(path, '/');
    if "test_"@.is_prefix_of(file_part(path)) {
        reveal_strlit("test_");
        reveal_strlit("/test_");
        if at < 0 {
            assert(path.skip(0) =~= path);
        } else {
            assert(path.subrange(at, at + 6) =~= "/test_"@) by {
                assert(file_part(path).take(5) =~= "test_"@);
                assert forall|k: int| 0 < k < 6 implies path[at + k] == "/test_"@[k] by {
                    assert(file_part(path).take(5)[k - 1] == path[at + k]);
                }
            }
            assert(crate::text::occurs_at(path, "/test_"@, at));
        }
    }
}

/// A selector is made of the unit's project, its path, where it begins and ends, its body,
/// its name, its scope and its language.
pub proof fn a_selector_is_made_of_the_unit(unit: UnitFacts)
    ensures
        exists|text: Seq<char>|
            {
                &&& selector(unit) == #[trigger] short_hash("unit:"@, text)
                &&& has(text, unit.project_label) && has(text, unit.relative_path)
                &&& has(text, decimal(unit.start_byte as nat)) && has(
                    text,
                    decimal(unit.end_byte as nat),
                )
                &&& has(text, unit.normalized_body_hash) && has(text, unit.name)
                &&& unit.scope is Some ==> has(text, unit.scope->0)
                &&& has(text, unit.language_id)
            },
        "unit:"@.is_prefix_of(selector(unit)),
{
    let parts = seq![
        unit.project_label,
        unit.relative_path,
        decimal(unit.start_byte as nat),
        decimal(unit.end_byte as nat),
        unit.normalized_body_hash,
        unit.name,
        match unit.scope {
            Some(scope) => scope,
            None => Seq::empty(),
        },
        unit.language_id,
    ];
    let text = joined(parts, "\0"@);
    crate::text::every_part_is_in_a_joined_text(parts, "\0"@, 0);
    crate::text::every_part_is_in_a_joined_text(parts, "\0"@, 1);
    crate::text::every_part_is_in_a_joined_text(parts, "\0"@, 2);
    crate::text::every_part_is_in_a_joined_text(parts, "\0"@, 3);
    crate::text::every_part_is_in_a_joined_text(parts, "\0"@, 4);
    crate::text::every_part_is_in_a_joined_text(parts, "\0"@, 5);
    crate::text::every_part_is_in_a_joined_text(parts, "\0"@, 6);
    crate::text::every_part_is_in_a_joined_text(parts, "\0"@, 7);
    assert(selector(unit) == short_hash("unit:"@, text));
    crate::hashing::a_short_hash_begins_with_its_tag("unit:"@, text);
}

/// A description begins with the unit's selector and tells of its place, its kind and its
/// name.
pub proof fn a_description_tells_of_the_unit(unit: UnitFacts)
    ensures
        selector(unit).is_prefix_of(description(unit)),
        has(description(unit), unit.project_label + ":"@ + unit.relative_path),
        has(
            description(unit),
            decimal(unit.start_line as nat) + "-"@ + decimal(unit.end_line as nat),
        ),
        has(description(unit), unit.kind + " "@ + unit.name),
        unit.scope matches Some(scope) ==> has(description(unit), "("@ + scope + ")"@),
{
    let whole = description(unit);
    let scope = match unit.scope {
        Some(scope) => " ("@ + scope + ")"@,
        None => Seq::empty(),
    };
    let first = selector(unit) + " "@;
    let place = unit.project_label + ":"@ + unit.relative_path;
    let lines = decimal(unit.start_line as nat) + "-"@ + decimal(unit.end_line as nat);
    let named = unit.kind + " "@ + unit.name;
    assert(whole =~= first + place + (":"@ + lines + " "@ + named + scope));
    crate::text::a_text_is_in_what_surrounds_it(
        first,
        place,
        ":"@ + lines + " "@ + named + scope,
    );
    assert(whole =~= (first + place + ":"@) + lines + (" "@ + named + scope));
    crate::text::a_text_is_in_what_surrounds_it(
        first + place + ":"@,
        lines,
        " "@ + named + scope,
    );
    assert(whole =~= (first + place + ":"@ + lines + " "@) + named + scope);
    crate::text::a_text_is_in_what_surrounds_it(
        first + place + ":"@ + lines + " "@,
        named,
        scope,
    );
    assert(whole.subrange(0, selector(unit).len() as int) =~= selector(unit));
    if unit.scope is Some {
        reveal_strlit(" (");
        reveal_strlit("(");
        assert(" ("@ =~= seq![' '] + "("@);
        let own = "("@ + unit.scope->0 + ")"@;
        let front = first + place + ":"@ + lines + " "@ + named + seq![' '];
        assert(whole =~= front + own + Seq::<char>::empty());
        crate::text::a_text_is_in_what_surrounds_it(front, own, Seq::empty());
    }
}

} // verus!
