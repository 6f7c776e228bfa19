//! `key=value` filters over code units.
use crate::query::unit::{looks_like_test, test_like, UnitFacts, UnitView};
use crate::text::{
    chars_of, concat, cut_once, debug_literal, debug_quote, list_holds, number_value, parse_number,
    same, split_once, split_words, views, words,
};
use globset::{GlobBuilder, GlobSet};
use vstd::prelude::*;
use vstd::string::*;

verus! {

/// Whether a text is a glob pattern; the flag says whether only a literal slash
/// matches a slash.
pub uninterp spec fn glob_accepted(pattern: Seq<char>, literal_separator: bool) -> bool;

/// Whether a glob pattern matches a text; nothing where it cannot be matched at
/// all.
pub uninterp spec fn glob_result(
    pattern: Seq<char>,
    literal_separator: bool,
    text: Seq<char>,
) -> Option<bool>;

/// The most alternatives that a glob pattern opens. Each may lie in the one before.
pub const MOST_BRACES: usize = 1000;

/// How many alternatives a text opens.
pub open spec fn braces(pattern: Seq<char>) -> nat
    decreases pattern.len(),
{
    if pattern.len() == 0 {
        0
    } else {
        braces(pattern.drop_last()) + if pattern.last() == '{' {
            1nat
        } else {
            0
        }
    }
}

/// Whether a text opens no more alternatives than a pattern may.
fn is_shallow(pattern: &str) -> (r: bool)
    ensures
        r == (braces(pattern@) <= MOST_BRACES),
{
    let chars = chars_of(pattern);
    let mut count: usize = 0;
    let mut i: usize = 0;
    while i < chars.len()
        invariant
            i <= chars@.len(),
            count <= i,
            count == braces(chars@.take(i as int)),
        decreases chars@.len() - i,
    {
        assert(chars@.take(i + 1).drop_last() =~= chars@.take(i as int));
        if chars[i] == '{' {
            count += 1;
        }
        i += 1;
    }
    assert(chars@.take(i as int) =~= pattern@);
    count <= MOST_BRACES
}

/// `globset::GlobBuilder::build`: whether the pattern is accepted. Left out are
/// patterns that open more alternatives than the parser can lie in.
#[verifier::external_body]
fn accepts_glob(pattern: &str, literal_separator: bool) -> (r: bool)
    requires
        braces(pattern@) <= MOST_BRACES,
    ensures
        r == glob_accepted(pattern@, literal_separator),
{
    GlobBuilder::new(pattern).literal_separator(literal_separator).build().is_ok()
}

/// `globset::GlobSet::is_match` on the set of the one pattern: whether it matches
/// the text; nothing where the pattern is not accepted or too large to compile. Left
/// out are patterns that open more alternatives than the parser can lie in.
#[verifier::external_body]
fn match_glob(pattern: &str, literal_separator: bool, text: &str) -> (r: Option<bool>)
    requires
        braces(pattern@) <= MOST_BRACES,
    ensures
        r == glob_result(pattern@, literal_separator, text@),
        r is Some ==> glob_accepted(pattern@, literal_separator),
{
    let glob = GlobBuilder::new(pattern).literal_separator(literal_separator).build().ok()?;
    let set = GlobSet::builder().add(glob).build().ok()?;
    Some(set.is_match(text))
}

/// Whether a text is a glob pattern that can be used.
pub open spec fn usable_glob(pattern: Seq<char>, literal_separator: bool) -> bool {
    braces(pattern) <= MOST_BRACES && glob_accepted(pattern, literal_separator)
}

/// Whether a text is a glob pattern that can be used.
fn is_usable_glob(pattern: &str, literal_separator: bool) -> (r: bool)
    ensures
        r == usable_glob(pattern@, literal_separator),
{
    is_shallow(pattern) && accepts_glob(pattern, literal_separator)
}

/// Whether a glob pattern can be used and matches a text.
pub open spec fn glob_matches(
    pattern: Seq<char>,
    literal_separator: bool,
    text: Seq<char>,
) -> bool {
    braces(pattern) <= MOST_BRACES && glob_result(pattern, literal_separator, text) == Some(true)
}

/// Whether a glob pattern can be used and matches a text.
fn does_glob_match(pattern: &str, literal_separator: bool, text: &str) -> (r: bool)
    ensures
        r == glob_matches(pattern@, literal_separator, text@),
{
    if !is_shallow(pattern) {
        return false;
    }
    match match_glob(pattern, literal_separator, text) {
        Some(matched) => matched,
        None => false,
    }
}

/// Whether test entities participate in a query. Trivial test chunks dominate
/// degraded rankings, so consumers typically exclude them unless the intent is
/// about tests.
#[derive(Debug, Clone, Copy, PartialEq, Eq, Structural)]
pub enum TestsPolicy {
    Include,
    Exclude,
    Only,
}

/// A filter over code units. Values of one key are alternatives; different keys
/// must all be met.
#[derive(Debug)]
pub struct WhereFilter {
    pub clauses: Vec<String>,
    pub project: Vec<String>,
    pub language: Vec<String>,
    pub kind: Vec<String>,
    pub name: Vec<String>,
    pub scope: Vec<String>,
    pub path: Vec<String>,
    pub min_nodes: Option<usize>,
    pub tests: Option<TestsPolicy>,
}

/// What a filter holds.
#[verifier::ext_equal]
pub struct FilterFacts {
    pub clauses: Seq<Seq<char>>,
    pub project: Seq<Seq<char>>,
    pub language: Seq<Seq<char>>,
    pub kind: Seq<Seq<char>>,
    pub name: Seq<Seq<char>>,
    pub scope: Seq<Seq<char>>,
    pub path: Seq<Seq<char>>,
    pub min_nodes: Option<usize>,
    pub tests: Option<TestsPolicy>,
}

impl View for WhereFilter {
    type V = FilterFacts;

    open spec fn view(&self) -> FilterFacts {
        FilterFacts {
            clauses: views(self.clauses@),
            project: views(self.project@),
            language: views(self.language@),
            kind: views(self.kind@),
            name: views(self.name@),
            scope: views(self.scope@),
            path: views(self.path@),
            min_nodes: self.min_nodes,
            tests: self.tests,
        }
    }
}

/// What is wrong with a clause.
#[derive(Debug, Clone, Copy, PartialEq, Eq, Structural)]
pub enum ClauseFault {
    /// Not `key=value`.
    Malformed,
    UnknownKey,
    InvalidGlob,
    /// `min_nodes` wants an integer.
    NotANumber,
    /// `tests` wants `include`, `exclude` or `only`.
    UnknownPolicy,
}

/// A clause that cannot be used, and why.
#[derive(Debug)]
pub struct WhereError {
    pub clause: String,
    pub fault: ClauseFault,
}

/// What stands before the equals sign of a clause.
pub open spec fn clause_key(clause: Seq<char>) -> Seq<char> {
    match cut_once(clause, '=') {
        Some((key, value)) => key,
        None => clause,
    }
}

/// What stands behind the equals sign of a clause.
pub open spec fn clause_value(clause: Seq<char>) -> Seq<char> {
    match cut_once(clause, '=') {
        Some((key, value)) => value,
        None => Seq::empty(),
    }
}

/// What is said of a clause that cannot be used.
pub open spec fn clause_fault_text(clause: Seq<char>, fault: ClauseFault) -> Seq<char> {
    match fault {
        ClauseFault::Malformed => "malformed --where clause "@ + debug_literal(clause)
            + ": expected key=value"@,
        ClauseFault::UnknownKey => "unknown --where key "@ + debug_literal(clause_key(clause))
            + " (supported: project, language, kind, name, scope, path, min_nodes, tests)"@,
        ClauseFault::InvalidGlob => "invalid glob "@ + debug_literal(clause_value(clause)),
        ClauseFault::NotANumber => "min_nodes wants an integer, got "@ + debug_literal(
            clause_value(clause),
        ),
        ClauseFault::UnknownPolicy => "tests wants include|exclude|only, got "@ + debug_literal(
            clause_value(clause),
        ),
    }
}

impl WhereError {
    /// What the error says.
    pub open spec fn text(self) -> Seq<char> {
        clause_fault_text(self.clause@, self.fault)
    }

    pub fn message(&self) -> (r: String)
        ensures
            r@ == self.text(),
    {
        let clause = self.clause.as_str();
        let (key, value) = match split_once(clause, '=') {
            Some(parts) => parts,
            None => (clause.to_owned(), String::new()),
        };
        match self.fault {
            ClauseFault::Malformed => {
                let mut out = concat("malformed --where clause ", debug_quote(clause).as_str());
                out.append(": expected key=value");
                out
            },
            ClauseFault::UnknownKey => {
                let mut out = concat("unknown --where key ", debug_quote(key.as_str()).as_str());
                out.append(
                    " (supported: project, language, kind, name, scope, path, min_nodes, tests)",
                );
                out
            },
            ClauseFault::InvalidGlob => concat(
                "invalid glob ",
                debug_quote(value.as_str()).as_str(),
            ),
            ClauseFault::NotANumber => concat(
                "min_nodes wants an integer, got ",
                debug_quote(value.as_str()).as_str(),
            ),
            ClauseFault::UnknownPolicy => concat(
                "tests wants include|exclude|only, got ",
                debug_quote(value.as_str()).as_str(),
            ),
        }
    }
}

/// The filter of no clauses.
pub open spec fn no_filter() -> FilterFacts {
    FilterFacts {
        clauses: Seq::empty(),
        project: Seq::empty(),
        language: Seq::empty(),
        kind: Seq::empty(),
        name: Seq::empty(),
        scope: Seq::empty(),
        path: Seq::empty(),
        min_nodes: None,
        tests: None,
    }
}

/// The policy that a value names.
pub open spec fn policy_named(value: Seq<char>) -> Option<TestsPolicy> {
    if value == "include"@ {
        Some(TestsPolicy::Include)
    } else if value == "exclude"@ {
        Some(TestsPolicy::Exclude)
    } else if value == "only"@ {
        Some(TestsPolicy::Only)
    } else {
        None
    }
}

/// The filter with one more key and value.
pub open spec fn with_value(filter: FilterFacts, key: Seq<char>, value: Seq<char>) -> Result<
    FilterFacts,
    ClauseFault,
> {
    if key == "project"@ {
        Ok(FilterFacts { project: filter.project.push(value), ..filter })
    } else if key == "language"@ {
        Ok(FilterFacts { language: filter.language.push(value), ..filter })
    } else if key == "kind"@ {
        Ok(FilterFacts { kind: filter.kind.push(value), ..filter })
    } else if key == "name"@ {
        if usable_glob(value, false) {
            Ok(FilterFacts { name: filter.name.push(value), ..filter })
        } else {
            Err(ClauseFault::InvalidGlob)
        }
    } else if key == "scope"@ {
        if usable_glob(value, false) {
            Ok(FilterFacts { scope: filter.scope.push(value), ..filter })
        } else {
            Err(ClauseFault::InvalidGlob)
        }
    } else if key == "path"@ {
        if usable_glob(value, true) {
            Ok(FilterFacts { path: filter.path.push(value), ..filter })
        } else {
            Err(ClauseFault::InvalidGlob)
        }
    } else if key == "min_nodes"@ {
        match number_value(value, usize::MAX as nat) {
            Some(number) => Ok(FilterFacts { min_nodes: Some(number as usize), ..filter }),
            None => Err(ClauseFault::NotANumber),
        }
    } else if key == "tests"@ {
        match policy_named(value) {
            Some(policy) => Ok(FilterFacts { tests: Some(policy), ..filter }),
            None => Err(ClauseFault::UnknownPolicy),
        }
    } else {
        Err(ClauseFault::UnknownKey)
    }
}

/// The filter with one more clause.
pub open spec fn with_clause(filter: FilterFacts, clause: Seq<char>) -> Result<
    FilterFacts,
    ClauseFault,
> {
    match cut_once(clause, '=') {
        None => Err(ClauseFault::Malformed),
        Some((key, value)) => match with_value(filter, key, value) {
            Ok(next) => Ok(FilterFacts { clauses: next.clauses.push(clause), ..next }),
            Err(fault) => Err(fault),
        },
    }
}

/// The filter of a list of clauses, or the first clause that cannot be used.
pub open spec fn filter_of(clauses: Seq<Seq<char>>) -> Result<FilterFacts, (Seq<char>, ClauseFault)>
    decreases clauses.len(),
{
    if clauses.len() == 0 {
        Ok(no_filter())
    } else {
        match filter_of(clauses.drop_last()) {
            Err(error) => Err(error),
            Ok(filter) => match with_clause(filter, clauses.last()) {
                Ok(next) => Ok(next),
                Err(fault) => Err((clauses.last(), fault)),
            },
        }
    }
}

proof fn filter_of_error_stays(clauses: Seq<Seq<char>>, k: int)
    requires
        0 <= k <= clauses.len(),
        filter_of(clauses.take(k)) is Err,
    ensures
        filter_of(clauses) == filter_of(clauses.take(k)),
    decreases clauses.len() - k,
{
    if k < clauses.len() {
        assert(clauses.take(k + 1).drop_last() =~= clauses.take(k));
        filter_of_error_stays(clauses, k + 1);
    } else {
        assert(clauses.take(k) =~= clauses);
    }
}

proof fn views_push(list: Seq<String>, item: String)
    ensures
        views(list.push(item)) == views(list).push(item@),
{
    assert(views(list.push(item)) =~= views(list).push(item@));
}

/// One of the patterns matches the text.
pub open spec fn any_glob(
    patterns: Seq<Seq<char>>,
    literal_separator: bool,
    text: Seq<char>,
) -> bool {
    exists|i: int|
        0 <= i < patterns.len() && #[trigger] glob_matches(patterns[i], literal_separator, text)
}

/// The unit passes the filter.
pub open spec fn passes(filter: FilterFacts, unit: UnitFacts) -> bool {
    &&& filter.project.len() == 0 || filter.project.contains(unit.project_label)
    &&& filter.language.len() == 0 || filter.language.contains(unit.language_id)
    &&& filter.kind.len() == 0 || filter.kind.contains(unit.kind)
    &&& filter.name.len() == 0 || any_glob(filter.name, false, unit.name)
    &&& filter.scope.len() == 0 || (unit.scope is Some && any_glob(
        filter.scope,
        false,
        unit.scope->0,
    ))
    &&& filter.path.len() == 0 || any_glob(filter.path, true, unit.relative_path)
    &&& filter.min_nodes is None || unit.body_node_count >= filter.min_nodes->0
    &&& match filter.tests {
        None => true,
        Some(TestsPolicy::Include) => true,
        Some(TestsPolicy::Exclude) => !test_like(unit),
        Some(TestsPolicy::Only) => test_like(unit),
    }
}

fn matches_any(patterns: &Vec<String>, literal_separator: bool, text: &str) -> (r: bool)
    ensures
        r == any_glob(views(patterns@), literal_separator, text@),
{
    let mut i: usize = 0;
    while i < patterns.len()
        invariant
            i <= patterns@.len(),
            forall|j: int|
                0 <= j < i ==> !#[trigger] glob_matches(
                    views(patterns@)[j],
                    literal_separator,
                    text@,
                ),
        decreases patterns@.len() - i,
    {
        assert(views(patterns@)[i as int] == patterns@[i as int]@);
        if does_glob_match(patterns[i].as_str(), literal_separator, text) {
            return true;
        }
        i += 1;
    }
    false
}

impl Default for WhereFilter {
    fn default() -> (r: Self)
        ensures
            r@ == no_filter(),
    {
        let r = Self {
            clauses: Vec::new(),
            project: Vec::new(),
            language: Vec::new(),
            kind: Vec::new(),
            name: Vec::new(),
            scope: Vec::new(),
            path: Vec::new(),
            min_nodes: None,
            tests: None,
        };
        assert(r@ =~= no_filter());
        r
    }
}

impl WhereFilter {
    fn add_value(&mut self, key: &str, value: &str) -> (r: Result<(), ClauseFault>)
        ensures
            match r {
                Ok(()) => with_value(old(self)@, key@, value@) == Ok::<FilterFacts, ClauseFault>(
                    final(self)@,
                ),
                Err(fault) => with_value(old(self)@, key@, value@) == Err::<
                    FilterFacts,
                    ClauseFault,
                >(fault),
            },
    {
        let ghost before = *self;
        let text = value.to_owned();
        if same(key, "project") {
            self.project.push(text);
            proof {
                views_push(before.project@, text);
            }
        } else if same(key, "language") {
            self.language.push(text);
            proof {
                views_push(before.language@, text);
            }
        } else if same(key, "kind") {
            self.kind.push(text);
            proof {
                views_push(before.kind@, text);
            }
        } else if same(key, "name") {
            if !is_usable_glob(value, false) {
                return Err(ClauseFault::InvalidGlob);
            }
            self.name.push(text);
            proof {
                views_push(before.name@, text);
            }
        } else if same(key, "scope") {
            if !is_usable_glob(value, false) {
                return Err(ClauseFault::InvalidGlob);
            }
            self.scope.push(text);
            proof {
                views_push(before.scope@, text);
            }
        } else if same(key, "path") {
            if !is_usable_glob(value, true) {
                return Err(ClauseFault::InvalidGlob);
            }
            self.path.push(text);
            proof {
                views_push(before.path@, text);
            }
        } else if same(key, "min_nodes") {
            match parse_number(value, usize::MAX as u64) {
                Some(number) => {
                    self.min_nodes = Some(number as usize);
                },
                None => {
                    return Err(ClauseFault::NotANumber);
                },
            }
        } else if same(key, "tests") {
            if same(value, "include") {
                self.tests = Some(TestsPolicy::Include);
            } else if same(value, "exclude") {
                self.tests = Some(TestsPolicy::Exclude);
            } else if same(value, "only") {
                self.tests = Some(TestsPolicy::Only);
            } else {
                return Err(ClauseFault::UnknownPolicy);
            }
        } else {
            return Err(ClauseFault::UnknownKey);
        }
        Ok(())
    }

    fn add_clause(&mut self, clause: &str) -> (r: Result<(), ClauseFault>)
        ensures
            match r {
                Ok(()) => with_clause(old(self)@, clause@) == Ok::<FilterFacts, ClauseFault>(
                    final(self)@,
                ),
                Err(fault) => with_clause(old(self)@, clause@) == Err::<FilterFacts, ClauseFault>(
                    fault,
                ),
            },
    {
        match split_once(clause, '=') {
            None => Err(ClauseFault::Malformed),
            Some((key, value)) => match self.add_value(key.as_str(), value.as_str()) {
                Err(fault) => Err(fault),
                Ok(()) => {
                    let ghost before = *self;
                    let text = clause.to_owned();
                    self.clauses.push(text);
                    proof {
                        views_push(before.clauses@, text);
                    }
                    Ok(())
                },
            },
        }
    }

    /// Reads a filter: `key=value` clauses between white space.
    pub fn parse(expression: Option<&str>) -> (r: Result<Self, WhereError>)
        ensures
            ({
                let parsed = match expression {
                    Some(text) => filter_of(words(text@)),
                    None => Ok(no_filter()),
                };
                match r {
                    Ok(filter) => parsed == Ok::<FilterFacts, (Seq<char>, ClauseFault)>(filter@),
                    Err(error) => parsed == Err::<FilterFacts, (Seq<char>, ClauseFault)>(
                        (error.clause@, error.fault),
                    ),
                }
            }),
    {
        let mut filter = WhereFilter::default();
        let text = match expression {
            None => {
                return Ok(filter);
            },
            Some(text) => text,
        };
        let clauses = split_words(text);
        let ghost all = words(text@);
        let mut i: usize = 0;
        while i < clauses.len()
            invariant
                i <= clauses@.len(),
                all == views(clauses@),
                expression is Some,
                all == words(expression->0@),
                filter_of(all.take(i as int)) == Ok::<FilterFacts, (Seq<char>, ClauseFault)>(
                    filter@,
                ),
            decreases clauses@.len() - i,
        {
            assert(all.take(i + 1).drop_last() =~= all.take(i as int));
            assert(all.take(i + 1).last() == clauses@[i as int]@);
            match filter.add_clause(clauses[i].as_str()) {
                Ok(()) => {},
                Err(fault) => {
                    proof {
                        filter_of_error_stays(all, i + 1);
                    }
                    return Err(WhereError { clause: clauses[i].clone(), fault });
                },
            }
            i += 1;
        }
        assert(all.take(i as int) =~= all);
        Ok(filter)
    }

    /// Whether a unit passes the filter.
    pub fn matches<U: UnitView + ?Sized>(&self, unit: &U) -> (r: bool)
        ensures
            r == passes(self@, unit.facts()),
    {
        if self.project.len() > 0 && !list_holds(&self.project, unit.project_label()) {
            return false;
        }
        if self.language.len() > 0 && !list_holds(&self.language, unit.language_id()) {
            return false;
        }
        if self.kind.len() > 0 && !list_holds(&self.kind, unit.kind()) {
            return false;
        }
        if self.name.len() > 0 && !matches_any(&self.name, false, unit.name()) {
            return false;
        }
        if self.scope.len() > 0 {
            match unit.scope() {
                None => {
                    return false;
                },
                Some(scope) => {
                    if !matches_any(&self.scope, false, scope) {
                        return false;
                    }
                },
            }
        }
        if self.path.len() > 0 && !matches_any(&self.path, true, unit.relative_path()) {
            return false;
        }
        if let Some(minimum) = self.min_nodes {
            if unit.body_node_count() < minimum {
                return false;
            }
        }
        match self.tests {
            None => true,
            Some(TestsPolicy::Include) => true,
            Some(TestsPolicy::Exclude) => !looks_like_test(unit),
            Some(TestsPolicy::Only) => looks_like_test(unit),
        }
    }

    /// The explicit `tests=` clause, when one was given. Consumers apply their
    /// own default only when this is unset.
    pub fn tests_policy(&self) -> (r: Option<TestsPolicy>)
        ensures
            r == self@.tests,
    {
        self.tests
    }

    /// Set the tests policy without an explicit `tests=` clause.
    pub fn set_tests_policy(&mut self, policy: TestsPolicy)
        ensures
            final(self)@ == (FilterFacts { tests: Some(policy), ..old(self)@ }),
    {
        self.tests = Some(policy);
    }

    pub fn clauses(&self) -> (r: &Vec<String>)
        ensures
            views(r@) == self@.clauses,
    {
        &self.clauses
    }
}

/// A filter without clauses lets every unit pass.
pub proof fn an_empty_filter_passes_everything(unit: UnitFacts)
    ensures
        passes(no_filter(), unit),
{
}

/// Excluding tests and asking for tests only part the units: a unit that passes
/// a filter without a policy passes it with exactly one of the two.
pub proof fn test_policies_part_the_units(filter: FilterFacts, unit: UnitFacts)
    requires
        filter.tests is None,
        passes(filter, unit),
    ensures
        passes((FilterFacts { tests: Some(TestsPolicy::Include), ..filter }), unit),
        passes((FilterFacts { tests: Some(TestsPolicy::Exclude), ..filter }), unit) != passes(
            (FilterFacts { tests: Some(TestsPolicy::Only), ..filter }),
            unit,
        ),
{
}

/// A parsed filter keeps its clauses: what was read is what `clauses` shows.
pub proof fn a_filter_shows_its_clauses(clauses: Seq<Seq<char>>)
    ensures
        filter_of(clauses) matches Ok(filter) ==> filter.clauses == clauses,
    decreases clauses.len(),
{
    if clauses.len() > 0 {
        a_filter_shows_its_clauses(clauses.drop_last());
        if filter_of(clauses) is Ok {
            assert(clauses.drop_last().push(clauses.last()) =~= clauses);
        }
    } else {
        assert(clauses =~= Seq::<Seq<char>>::empty());
    }
}

/// A unit that passes a filter meets every key that the filter has: its label, its
/// language and its kind are among those given, a pattern given for its name, its scope
/// or its path matches, it is as large as asked for, and it is a test or none as asked
/// for.
pub proof fn a_passing_unit_meets_every_key(filter: FilterFacts, unit: UnitFacts)
    requires
        passes(filter, unit),
    ensures
        filter.project.len() > 0 ==> exists|i: int|
            0 <= i < filter.project.len() && #[trigger] filter.project[i] == unit.project_label,
        filter.language.len() > 0 ==> exists|i: int|
            0 <= i < filter.language.len() && #[trigger] filter.language[i] == unit.language_id,
        filter.kind.len() > 0 ==> exists|i: int|
            0 <= i < filter.kind.len() && #[trigger] filter.kind[i] == unit.kind,
        filter.name.len() > 0 ==> exists|i: int|
            0 <= i < filter.name.len() && #[trigger] glob_result(filter.name[i], false, unit.name)
                == Some(true),
        filter.scope.len() > 0 ==> unit.scope is Some && exists|i: int|
            0 <= i < filter.scope.len() && #[trigger] glob_result(
                filter.scope[i],
                false,
                unit.scope->0,
            ) == Some(true),
        filter.path.len() > 0 ==> exists|i: int|
            0 <= i < filter.path.len() && #[trigger] glob_result(
                filter.path[i],
                true,
                unit.relative_path,
            ) == Some(true),
        filter.min_nodes matches Some(least) ==> least <= unit.body_node_count,
        filter.tests == Some(TestsPolicy::Exclude) ==> !test_like(unit),
        filter.tests == Some(TestsPolicy::Only) ==> test_like(unit),
{
    if filter.project.len() > 0 {
        let i = choose|i: int|
            0 <= i < filter.project.len() && filter.project[i] == unit.project_label;
        assert(filter.project[i] == unit.project_label);
    }
    if filter.language.len() > 0 {
        let i = choose|i: int|
            0 <= i < filter.language.len() && filter.language[i] == unit.language_id;
        assert(filter.language[i] == unit.language_id);
    }
    if filter.kind.len() > 0 {
        let i = choose|i: int| 0 <= i < filter.kind.len() && filter.kind[i] == unit.kind;
        assert(filter.kind[i] == unit.kind);
    }
    if filter.name.len() > 0 {
        let i = choose|i: int|
            0 <= i < filter.name.len() && glob_matches(filter.name[i], false, unit.name);
        assert(glob_result(filter.name[i], false, unit.name) == Some(true));
    }
    if filter.scope.len() > 0 {
        let i = choose|i: int|
            0 <= i < filter.scope.len() && glob_matches(filter.scope[i], false, unit.scope->0);
        assert(glob_result(filter.scope[i], false, unit.scope->0) == Some(true));
    }
    if filter.path.len() > 0 {
        let i = choose|i: int|
            0 <= i < filter.path.len() && glob_matches(filter.path[i], true, unit.relative_path);
        assert(glob_result(filter.path[i], true, unit.relative_path) == Some(true));
    }
}

/// A unit that meets every key that a filter has passes it. Patterns are given by the
/// places of those that match; a key that the filter has not asks for nothing.
pub proof fn a_unit_that_meets_every_key_passes(
    filter: FilterFacts,
    unit: UnitFacts,
    name: int,
    scope: int,
    path: int,
)
    requires
        filter.project.len() == 0 || filter.project.contains(unit.project_label),
        filter.language.len() == 0 || filter.language.contains(unit.language_id),
        filter.kind.len() == 0 || filter.kind.contains(unit.kind),
        filter.name.len() == 0 || (0 <= name < filter.name.len() && braces(filter.name[name])
            <= MOST_BRACES && glob_result(filter.name[name], false, unit.name) == Some(true)),
        filter.scope.len() == 0 || (unit.scope is Some && 0 <= scope < filter.scope.len()
            && braces(filter.scope[scope]) <= MOST_BRACES && glob_result(
            filter.scope[scope],
            false,
            unit.scope->0,
        ) == Some(true)),
        filter.path.len() == 0 || (0 <= path < filter.path.len() && braces(filter.path[path])
            <= MOST_BRACES && glob_result(filter.path[path], true, unit.relative_path) == Some(
            true,
        )),
        filter.min_nodes matches Some(least) ==> least <= unit.body_node_count,
        filter.tests == Some(TestsPolicy::Exclude) ==> !test_like(unit),
        filter.tests == Some(TestsPolicy::Only) ==> test_like(unit),
    ensures
        passes(filter, unit),
{
    if filter.name.len() > 0 {
        assert(glob_matches(filter.name[name], false, unit.name));
    }
    if filter.scope.len() > 0 {
        assert(glob_matches(filter.scope[scope], false, unit.scope->0));
    }
    if filter.path.len() > 0 {
        assert(glob_matches(filter.path[path], true, unit.relative_path));
    }
}

/// The clause sets the key to the value.
pub open spec fn clause_sets(clause: Seq<char>, key: Seq<char>, value: Seq<char>) -> bool {
    clause == key + "="@ + value
}

/// What a filter keeps for a key is what the clauses give for it: every clause of the
/// key adds its value, and nothing else does.
pub proof fn clauses_add_to_their_own_key(
    clauses: Seq<Seq<char>>,
    filter: FilterFacts,
    key: Seq<char>,
    value: Seq<char>,
)
    requires
        filter_of(clauses) == Ok::<FilterFacts, (Seq<char>, ClauseFault)>(filter),
        !key.contains('='),
    ensures
        ({
            let given = exists|i: int|
                0 <= i < clauses.len() && clause_sets(#[trigger] clauses[i], key, value);
            &&& key == "project"@ ==> filter.project.contains(value) == given
            &&& key == "language"@ ==> filter.language.contains(value) == given
            &&& key == "kind"@ ==> filter.kind.contains(value) == given
            &&& key == "name"@ ==> filter.name.contains(value) == given
            &&& key == "scope"@ ==> filter.scope.contains(value) == given
            &&& key == "path"@ ==> filter.path.contains(value) == given
        }),
    decreases clauses.len(),
{
    reveal_strlit("=");
    keys_differ();
    if clauses.len() > 0 {
        let front = clauses.drop_last();
        let last = clauses.last();
        let before = filter_of(front)->Ok_0;
        clauses_add_to_their_own_key(front, before, key, value);
        crate::text::a_cut_is_at_the_first_place(last, '=');
        let (k, v) = cut_once(last, '=')->0;
        assert("="@ =~= seq!['=']);
        assert(last =~= k + "="@ + v);
        if clause_sets(last, key, value) {
            cut_at_equals(last, key, value);
        }
        let given = exists|i: int|
            0 <= i < clauses.len() && clause_sets(#[trigger] clauses[i], key, value);
        let earlier = exists|i: int|
            0 <= i < front.len() && clause_sets(#[trigger] front[i], key, value);
        if earlier {
            let i = choose|i: int|
                0 <= i < front.len() && clause_sets(#[trigger] front[i], key, value);
            assert(clause_sets(clauses[i], key, value));
        }
        if given {
            let i = choose|i: int|
                0 <= i < clauses.len() && clause_sets(#[trigger] clauses[i], key, value);
            if i < front.len() {
                assert(clause_sets(front[i], key, value));
            }
        }
        if clause_sets(last, key, value) {
            assert(clause_sets(clauses[clauses.len() - 1], key, value));
        }
        assert(given == (earlier || clause_sets(last, key, value)));
        pushed_holds(before.project, v, value);
        pushed_holds(before.language, v, value);
        pushed_holds(before.kind, v, value);
        pushed_holds(before.name, v, value);
        pushed_holds(before.scope, v, value);
        pushed_holds(before.path, v, value);
    }
}

proof fn pushed_holds(list: Seq<Seq<char>>, v: Seq<char>, value: Seq<char>)
    ensures
        list.push(v).contains(value) == (list.contains(value) || v == value),
{
    if list.contains(value) {
        let i = choose|i: int| 0 <= i < list.len() && list[i] == value;
        assert(list.push(v)[i] == value);
    }
    if v == value {
        assert(list.push(v)[list.len() as int] == value);
    }
    if list.push(v).contains(value) && v != value {
        let i = choose|i: int| 0 <= i < list.push(v).len() && list.push(v)[i] == value;
        assert(list[i] == value);
    }
}

proof fn keys_differ()
    ensures
        "project"@ != "language"@ && "project"@ != "kind"@ && "project"@ != "name"@ && "project"@
            != "scope"@ && "project"@ != "path"@ && "project"@ != "min_nodes"@ && "project"@
            != "tests"@,
        "language"@ != "kind"@ && "language"@ != "name"@ && "language"@ != "scope"@ && "language"@
            != "path"@ && "language"@ != "min_nodes"@ && "language"@ != "tests"@,
        "kind"@ != "name"@ && "kind"@ != "scope"@ && "kind"@ != "path"@ && "kind"@ != "min_nodes"@
            && "kind"@ != "tests"@,
        "name"@ != "scope"@ && "name"@ != "path"@ && "name"@ != "min_nodes"@ && "name"@ != "tests"@,
        "scope"@ != "path"@ && "scope"@ != "min_nodes"@ && "scope"@ != "tests"@,
        "path"@ != "min_nodes"@ && "path"@ != "tests"@ && "min_nodes"@ != "tests"@,
{
    reveal_strlit("project");
    reveal_strlit("language");
    reveal_strlit("kind");
    reveal_strlit("name");
    reveal_strlit("scope");
    reveal_strlit("path");
    reveal_strlit("min_nodes");
    reveal_strlit("tests");
    assert("project"@.len() == 7 && "language"@.len() == 8 && "min_nodes"@.len() == 9);
    assert("kind"@.len() == 4 && "name"@.len() == 4 && "path"@.len() == 4);
    assert("scope"@.len() == 5 && "tests"@.len() == 5);
    assert("kind"@[0] == 'k' && "name"@[0] == 'n' && "path"@[0] == 'p');
    assert("scope"@[0] == 's' && "tests"@[0] == 't');
}

/// The last clause that asks for a size or for tests decides: a clause of the key sets it
/// to its value, and a clause of another key leaves it. A filter of no clauses asks for
/// neither.
pub proof fn the_last_limit_decides(
    clauses: Seq<Seq<char>>,
    filter: FilterFacts,
    key: Seq<char>,
    value: Seq<char>,
)
    requires
        !key.contains('='),
        filter_of(clauses.push(key + "="@ + value)) == Ok::<FilterFacts, (Seq<char>, ClauseFault)>(
            filter,
        ),
    ensures
        filter_of(clauses) matches Ok(before) && {
            &&& key != "min_nodes"@ ==> filter.min_nodes == before.min_nodes
            &&& key != "tests"@ ==> filter.tests == before.tests
        },
        key == "min_nodes"@ ==> filter.min_nodes is Some && number_value(value, usize::MAX as nat)
            == Some(filter.min_nodes->0 as nat),
        key == "tests"@ && value == "include"@ ==> filter.tests == Some(TestsPolicy::Include),
        key == "tests"@ && value == "exclude"@ ==> filter.tests == Some(TestsPolicy::Exclude),
        key == "tests"@ && value == "only"@ ==> filter.tests == Some(TestsPolicy::Only),
        key == "tests"@ ==> value == "include"@ || value == "exclude"@ || value == "only"@,
        filter_of(Seq::empty()) == Ok::<FilterFacts, (Seq<char>, ClauseFault)>(no_filter()),
        no_filter().min_nodes is None && no_filter().tests is None,
{
    let clause = key + "="@ + value;
    let all = clauses.push(clause);
    assert(all.drop_last() =~= clauses);
    assert(all.last() == clause);
    keys_differ();
    policies_differ();
    cut_at_equals(clause, key, value);
}

proof fn cut_at_equals(clause: Seq<char>, key: Seq<char>, value: Seq<char>)
    requires
        !key.contains('='),
        clause == key + "="@ + value,
    ensures
        cut_once(clause, '=') == Some((key, value)),
{
    reveal_strlit("=");
    assert("="@ =~= seq!['=']);
    crate::text::a_cut_is_at_the_first_place(clause, '=');
    assert(clause[key.len() as int] == '=');
    assert(clause.contains('='));
    let (k, v) = cut_once(clause, '=')->0;
    crate::text::a_text_is_cut_in_one_way(clause, '=', key, value, k, v);
}

proof fn policies_differ()
    ensures
        "include"@ != "exclude"@ && "include"@ != "only"@ && "exclude"@ != "only"@,
{
    reveal_strlit("include");
    reveal_strlit("exclude");
    reveal_strlit("only");
    assert("exclude"@[0] == 'e' && "include"@[0] == 'i' && "only"@[0] == 'o');
}

/// A clause that is not `key=value`, has an unknown key, or a value that its key cannot
/// take, makes the whole filter fail.
pub proof fn bad_clauses_are_refused(clauses: Seq<Seq<char>>, key: Seq<char>, value: Seq<char>)
    requires
        !key.contains('='),
        ({
            ||| (key == "name"@ || key == "scope"@) && !glob_accepted(value, false)
            ||| key == "path"@ && !glob_accepted(value, true)
            ||| key == "min_nodes"@ && number_value(value, usize::MAX as nat) is None
            ||| key == "tests"@ && value != "include"@ && value != "exclude"@ && value != "only"@
            ||| key != "project"@ && key != "language"@ && key != "kind"@ && key != "name"@ && key
                != "scope"@ && key != "path"@ && key != "min_nodes"@ && key != "tests"@
        }),
    ensures
        filter_of(clauses.push(key + "="@ + value)) is Err,
        filter_of(clauses.push(key)) is Err,
{
    let clause = key + "="@ + value;
    assert(clauses.push(clause).drop_last() =~= clauses);
    assert(clauses.push(key).drop_last() =~= clauses);
    keys_differ();
    policies_differ();
    cut_at_equals(clause, key, value);
    crate::text::a_cut_is_at_the_first_place(key, '=');
    if cut_once(key, '=') is Some {
        let (k, v) = cut_once(key, '=')->0;
        assert(key[k.len() as int] == '=');
    }
}

} // verus!
