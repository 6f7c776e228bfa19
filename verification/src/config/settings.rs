//! What a project can configure.
use crate::path::{is_rooted, last_name, name_of, components, rooted};
use crate::hashing::{short_hash, tagged_hash};
use crate::text::{
    chars_of, clone_opt, clone_texts, concat, debug_literal, debug_quote, join_path, opt_view,
    path_joined, text_of, views,
};
use crate::text_map::TextMap;
use vstd::prelude::*;
use vstd::string::*;

verus! {

/// The single configuration file name used at every level of a project.
pub const CONFIG_FILE: &'static str = ".codeindex.toml";

/// Root-level project configuration. Identity-level keys are root-only by design:
/// folder overrides may narrow or tune, never split a project into incompatible
/// vector spaces.
#[derive(Debug)]
pub struct ProjectConfig {
    /// Stops upward discovery: this file is a project root even when a directory
    /// above also carries a configuration file.
    pub root: bool,
    /// Project label used in the registry and search output. Defaults to the name
    /// of the root directory.
    pub label: Option<String>,
    pub index: IndexSection,
    pub spaces: TextMap<SpaceConfig>,
    pub search: SearchSection,
    pub storage: StorageSection,
    pub tasks: TextMap<TaskConfig>,
    pub lsp: TextMap<LspConfig>,
}

#[derive(Debug)]
pub struct IndexSection {
    /// Language ids to index; nothing means every bundled language.
    pub languages: Option<Vec<String>>,
    /// Glob patterns excluded from indexing, relative to the directory of the file.
    pub exclude: Vec<String>,
}

/// One embedding space definition. The model is a resolvable reference.
#[derive(Debug)]
pub struct SpaceConfig {
    pub channel: String,
    pub model: String,
    pub document_prompt: Option<String>,
    pub output_dimensions: Option<usize>,
}

#[derive(Debug)]
pub struct SearchSection {
    /// Space searched when the caller does not name one.
    pub default_space: Option<String>,
    /// `include`, `exclude` or `only`.
    pub tests: Option<String>,
    /// `hybrid`, `dense` or `lexical`.
    pub retrieval: Option<String>,
    pub rerank: Option<bool>,
    pub rerank_model: Option<String>,
}

#[derive(Debug)]
pub struct StorageSection {
    /// Explicit database path; relative paths are taken from the project root.
    pub path: Option<String>,
}

#[derive(Debug)]
pub struct TaskConfig {
    pub instruction: String,
}

#[derive(Debug)]
pub struct LspConfig {
    pub server: String,
    pub args: Vec<String>,
}

/// A folder-level configuration. Only narrowing keys are legal here.
#[derive(Debug)]
pub struct FolderOverride {
    /// Set in a nested project root; never in a genuine override.
    pub root: bool,
    pub index: Option<IndexOverride>,
    pub search: Option<SearchOverride>,
}

/// Disables a subtree, or tunes it.
#[derive(Debug)]
pub enum IndexOverride {
    Enabled(bool),
    Tune { exclude: Vec<String>, languages: Option<Vec<String>> },
}

#[derive(Debug)]
pub struct SearchOverride {
    pub tests: Option<String>,
}

/// One override file, located by the directory that carries it.
#[derive(Debug)]
pub struct OverrideFile {
    /// Directory of the file, relative to the project root.
    pub relative_dir: String,
    pub settings: FolderOverride,
}

/// A discovered project: the root, its configuration, and the override chain
/// between the root and the starting directory, root first.
#[derive(Debug)]
pub struct ProjectContext {
    pub root: String,
    pub config: ProjectConfig,
    pub overrides: Vec<OverrideFile>,
}

impl Default for IndexSection {
    fn default() -> (r: Self)
        ensures
            r.languages is None,
            r.exclude@.len() == 0,
    {
        Self { languages: None, exclude: Vec::new() }
    }
}

impl Default for SearchSection {
    fn default() -> (r: Self)
        ensures
            r.default_space is None,
            r.tests is None,
            r.retrieval is None,
            r.rerank is None,
            r.rerank_model is None,
    {
        Self { default_space: None, tests: None, retrieval: None, rerank: None, rerank_model: None }
    }
}

impl Default for StorageSection {
    fn default() -> (r: Self)
        ensures
            r.path is None,
    {
        Self { path: None }
    }
}

impl Default for ProjectConfig {
    fn default() -> (r: Self)
        ensures
            r.wf(),
            !r.root,
            r.label is None,
            r.index.languages is None,
            r.index.exclude@.len() == 0,
            r.spaces@ == Map::<Seq<char>, SpaceConfig>::empty(),
            r.search.default_space is None,
            r.search.tests is None,
            r.search.retrieval is None,
            r.search.rerank is None,
            r.search.rerank_model is None,
            r.storage.path is None,
            r.tasks@ == Map::<Seq<char>, TaskConfig>::empty(),
            r.lsp@ == Map::<Seq<char>, LspConfig>::empty(),
    {
        Self {
            root: false,
            label: None,
            index: IndexSection::default(),
            spaces: TextMap::new(),
            search: SearchSection::default(),
            storage: StorageSection::default(),
            tasks: TextMap::new(),
            lsp: TextMap::new(),
        }
    }
}

impl ProjectConfig {
    /// The tables are in the order of their keys.
    pub open spec fn wf(self) -> bool {
        self.spaces.wf() && self.tasks.wf() && self.lsp.wf()
    }
}

fn clone_list(list: &Option<Vec<String>>) -> (r: Option<Vec<String>>)
    ensures
        match (*list, r) {
            (Some(a), Some(b)) => a@ == b@,
            (None, None) => true,
            _ => false,
        },
{
    match list {
        Some(items) => Some(clone_texts(items)),
        None => None,
    }
}

/// Two overrides of a folder's indexing say the same.
pub open spec fn same_index(a: Option<IndexOverride>, b: Option<IndexOverride>) -> bool {
    match (a, b) {
        (None, None) => true,
        (Some(IndexOverride::Enabled(x)), Some(IndexOverride::Enabled(y))) => x == y,
        (
            Some(IndexOverride::Tune { exclude: x, languages: l }),
            Some(IndexOverride::Tune { exclude: y, languages: m }),
        ) => x@ == y@ && match (l, m) {
            (Some(l), Some(m)) => l@ == m@,
            (None, None) => true,
            _ => false,
        },
        _ => false,
    }
}

/// Two override files say the same.
pub open spec fn same_override(a: OverrideFile, b: OverrideFile) -> bool {
    &&& a.relative_dir == b.relative_dir
    &&& a.settings.root == b.settings.root
    &&& same_index(a.settings.index, b.settings.index)
    &&& a.settings.search == b.settings.search
}

impl Clone for OverrideFile {
    fn clone(&self) -> (r: Self)
        ensures
            same_override(r, *self),
    {
        let index = match &self.settings.index {
            None => None,
            Some(IndexOverride::Enabled(enabled)) => Some(IndexOverride::Enabled(*enabled)),
            Some(IndexOverride::Tune { exclude, languages }) => Some(
                IndexOverride::Tune {
                    exclude: clone_texts(exclude),
                    languages: clone_list(languages),
                },
            ),
        };
        let search = match &self.settings.search {
            None => None,
            Some(search) => Some(SearchOverride { tests: clone_opt(&search.tests) }),
        };
        OverrideFile {
            relative_dir: self.relative_dir.clone(),
            settings: FolderOverride { root: self.settings.root, index, search },
        }
    }
}

/// The label of a root that names none.
pub open spec fn label_of_root(root: Seq<char>) -> Seq<char> {
    match last_name(components(root)) {
        Some(name) => name,
        None => "project"@,
    }
}

/// The label of a root that names none.
pub fn default_label(root: &str) -> (r: String)
    ensures
        r@ == label_of_root(root@),
{
    match name_of(root) {
        Some(name) => name,
        None => "project".to_owned(),
    }
}

/// The tests policy of an override, where it has one.
pub open spec fn override_tests(file: OverrideFile) -> Option<Seq<char>> {
    match file.settings.search {
        Some(search) => opt_view(search.tests),
        None => None,
    }
}

/// The last policy of the chain.
pub open spec fn nearest_tests(chain: Seq<OverrideFile>) -> Option<Seq<char>>
    decreases chain.len(),
{
    if chain.len() == 0 {
        None
    } else {
        match override_tests(chain.last()) {
            Some(policy) => Some(policy),
            None => nearest_tests(chain.drop_last()),
        }
    }
}

/// Where the data lies, under the user's data directory.
pub open spec fn data_root_of(
    own: Option<Seq<char>>,
    xdg: Option<Seq<char>>,
    home: Option<Seq<char>>,
) -> Seq<char> {
    if own is Some {
        own->0
    } else if xdg is Some && xdg->0.len() > 0 {
        path_joined(xdg->0, "codeindex"@)
    } else {
        path_joined(
            if home is Some {
                home->0
            } else {
                "."@
            },
            ".local/share/codeindex"@,
        )
    }
}

/// What an optional text holds.
pub open spec fn text_view(text: Option<&str>) -> Option<Seq<char>> {
    match text {
        Some(text) => Some(text@),
        None => None,
    }
}

/// The user data root: the data directory of its own where one is set, else one in
/// the user's data directory, else one below the home directory.
pub fn data_root(own: Option<&str>, xdg: Option<&str>, home: Option<&str>) -> (r: String)
    ensures
        r@ == data_root_of(text_view(own), text_view(xdg), text_view(home)),
{
    if let Some(dir) = own {
        return dir.to_owned();
    }
    if let Some(dir) = xdg {
        if !dir.is_empty() {
            return join_path(dir, "codeindex");
        }
    }
    match home {
        Some(dir) => join_path(dir, ".local/share/codeindex"),
        None => join_path(".", ".local/share/codeindex"),
    }
}

/// The database of a project root, outside the tree and keyed by the root's path.
pub open spec fn db_path_of(data_root: Seq<char>, root: Seq<char>) -> Seq<char> {
    path_joined(
        path_joined(path_joined(data_root, "projects"@), short_hash(Seq::empty(), root)),
        "index.db"@,
    )
}

/// Stable out-of-tree database location for a project root.
pub fn default_db_path(data_root: &str, root: &str) -> (r: String)
    ensures
        r@ == db_path_of(data_root@, root@),
{
    let key = tagged_hash("", root);
    proof {
        reveal_strlit("");
        assert(""@ =~= Seq::<char>::empty());
    }
    let projects = join_path(data_root, "projects");
    join_path(join_path(projects.as_str(), key.as_str()).as_str(), "index.db")
}

/// Where the registry lies.
pub fn registry_path(data_root: &str) -> (r: String)
    ensures
        r@ == path_joined(data_root@, "registry.json"@),
{
    join_path(data_root, "registry.json")
}

impl ProjectContext {
    /// The project's label.
    pub fn label(&self) -> (r: String)
        ensures
            r@ == match self.config.label {
                Some(label) => label@,
                None => label_of_root(self.root@),
            },
    {
        match &self.config.label {
            Some(label) => label.clone(),
            None => default_label(self.root.as_str()),
        }
    }

    /// Effective tests policy for the starting directory: the nearest override
    /// wins, then the root's key.
    pub fn tests_policy(&self) -> (r: Option<&str>)
        ensures
            text_view(r) == match nearest_tests(self.overrides@) {
                Some(policy) => Some(policy),
                None => opt_view(self.config.search.tests),
            },
    {
        let mut n: usize = self.overrides.len();
        assert(self.overrides@.take(n as int) =~= self.overrides@);
        while n > 0
            invariant
                n <= self.overrides@.len(),
                nearest_tests(self.overrides@) == nearest_tests(self.overrides@.take(n as int)),
            decreases n,
        {
            assert(self.overrides@.take(n as int).drop_last() =~= self.overrides@.take(n - 1));
            if let Some(search) = &self.overrides[n - 1].settings.search {
                if let Some(policy) = &search.tests {
                    return Some(policy.as_str());
                }
            }
            n -= 1;
        }
        match &self.config.search.tests {
            Some(policy) => Some(policy.as_str()),
            None => None,
        }
    }

    /// The database path: the configured one, taken from the root where it is
    /// relative, otherwise a stable location under the data root.
    pub fn db_path(&self, data_root: &str) -> (r: String)
        ensures
            r@ == match self.config.storage.path {
                Some(path) => if rooted(path@) {
                    path@
                } else {
                    path_joined(self.root@, path@)
                },
                None => db_path_of(data_root@, self.root@),
            },
    {
        match &self.config.storage.path {
            Some(path) => {
                if is_rooted(path.as_str()) {
                    path.clone()
                } else {
                    join_path(self.root.as_str(), path.as_str())
                }
            },
            None => default_db_path(data_root, self.root.as_str()),
        }
    }
}

/// The text with slashes in place of backslashes.
pub open spec fn forward_slashes(text: Seq<char>) -> Seq<char> {
    Seq::new(
        text.len(),
        |i: int|
            if text[i] == '\\' {
                '/'
            } else {
                text[i]
            },
    )
}

pub(crate) fn with_forward_slashes(text: &str) -> (r: String)
    ensures
        r@ == forward_slashes(text@),
{
    let mut all = chars_of(text);
    let mut i: usize = 0;
    while i < all.len()
        invariant
            i <= all@.len() == text@.len(),
            forall|j: int| 0 <= j < i ==> all@[j] == forward_slashes(text@)[j],
            forall|j: int| i <= j < all@.len() ==> all@[j] == text@[j],
        decreases all@.len() - i,
    {
        if all[i] == '\\' {
            all.set(i, '/');
        }
        i += 1;
    }
    assert(all@ =~= forward_slashes(text@));
    text_of(&all)
}

/// A pattern below a directory.
pub open spec fn pattern_below(dir: Seq<char>, pattern: Seq<char>) -> Seq<char> {
    if dir.len() == 0 {
        pattern
    } else {
        dir + "/"@ + pattern
    }
}

/// The patterns that an override excludes, relative to the project root.
pub open spec fn override_excludes(file: OverrideFile) -> Seq<Seq<char>> {
    let dir = forward_slashes(file.relative_dir@);
    match file.settings.index {
        Some(IndexOverride::Enabled(enabled)) => if enabled {
            Seq::empty()
        } else {
            seq![pattern_below(dir, "**"@)]
        },
        Some(IndexOverride::Tune { exclude, languages }) => Seq::new(
            exclude@.len(),
            |i: int| pattern_below(dir, exclude@[i]@),
        ),
        None => Seq::empty(),
    }
}

/// The patterns that overrides exclude, in order.
pub open spec fn all_override_excludes(files: Seq<OverrideFile>) -> Seq<Seq<char>>
    decreases files.len(),
{
    if files.len() == 0 {
        Seq::empty()
    } else {
        all_override_excludes(files.drop_last()) + override_excludes(files.last())
    }
}

fn place_pattern(dir: &str, pattern: &str) -> (r: String)
    ensures
        r@ == pattern_below(dir@, pattern@),
{
    if dir.is_empty() {
        pattern.to_owned()
    } else {
        concat(concat(dir, "/").as_str(), pattern)
    }
}

fn add_excludes(out: &mut Vec<String>, file: &OverrideFile)
    ensures
        views(final(out)@) == views(old(out)@) + override_excludes(*file),
{
    let ghost start = out@;
    let dir = with_forward_slashes(file.relative_dir.as_str());
    match &file.settings.index {
        None => {
            assert(views(out@) =~= views(start) + override_excludes(*file));
        },
        Some(IndexOverride::Enabled(enabled)) => {
            if !*enabled {
                out.push(place_pattern(dir.as_str(), "**"));
            }
            assert(views(out@) =~= views(start) + override_excludes(*file));
        },
        Some(IndexOverride::Tune { exclude, languages }) => {
            let mut i: usize = 0;
            let ghost wanted = override_excludes(*file);
            assert(views(out@) =~= views(start) + wanted.take(0));
            while i < exclude.len()
                invariant
                    i <= exclude@.len() == wanted.len(),
                    forall|j: int|
                        0 <= j < wanted.len() ==> (#[trigger] wanted[j]) == pattern_below(
                            dir@,
                            exclude@[j]@,
                        ),
                    views(out@) == views(start) + wanted.take(i as int),
                decreases exclude@.len() - i,
            {
                let ghost before = out@;
                let pattern = place_pattern(dir.as_str(), exclude[i].as_str());
                out.push(pattern);
                assert(views(out@) =~= views(before).push(pattern@));
                assert(wanted[i as int] == pattern@);
                i += 1;
                assert(views(out@) =~= views(start) + wanted.take(i as int));
            }
            assert(wanted.take(i as int) =~= wanted);
        },
    }
}

/// Effective exclude patterns for indexing a root: those of the root's
/// configuration, then every folder override's relative to the root. A disabled
/// folder becomes a pattern for all that lies in it.
pub fn effective_excludes(config: &ProjectConfig, overrides: &Vec<OverrideFile>) -> (r: Vec<String>)
    ensures
        views(r@) == views(config.index.exclude@) + all_override_excludes(overrides@),
{
    let mut out = clone_texts(&config.index.exclude);
    let ghost start = views(out@);
    let mut i: usize = 0;
    assert(start =~= start + all_override_excludes(overrides@.take(0)));
    while i < overrides.len()
        invariant
            i <= overrides@.len(),
            views(out@) == start + all_override_excludes(overrides@.take(i as int)),
        decreases overrides@.len() - i,
    {
        assert(overrides@.take(i + 1).drop_last() =~= overrides@.take(i as int));
        add_excludes(&mut out, &overrides[i]);
        i += 1;
        assert(views(out@) =~= start + all_override_excludes(overrides@.take(i as int)));
    }
    assert(overrides@.take(i as int) =~= overrides@);
    out
}

/// A minimal root configuration for a directory that has none yet.
pub open spec fn starter_text(label: Seq<char>) -> Seq<char> {
    "# codeindex project configuration (see docs/daemon-cli-plan.md)\nroot = true\nlabel = "@
        + debug_literal(label)
        + "\n\n[index]\nexclude = [\"target/**\", \"node_modules/**\", \"dist/**\", \".venv/**\"]\n\n# Uncomment to define an embedding space (downloads the model):\n# [spaces.code]\n# channel = \"implementation\"\n# model = \"hf:Qwen/Qwen3-Embedding-0.6B\"\n\n[search]\ntests = \"exclude\"\n"@
}

/// A minimal root configuration for a directory that has none yet.
pub fn starter_config(label: &str) -> (r: String)
    ensures
        r@ == starter_text(label@),
{
    let mut out = concat(
        "# codeindex project configuration (see docs/daemon-cli-plan.md)\nroot = true\nlabel = ",
        debug_quote(label).as_str(),
    );
    out.append(
        "\n\n[index]\nexclude = [\"target/**\", \"node_modules/**\", \"dist/**\", \".venv/**\"]\n\n# Uncomment to define an embedding space (downloads the model):\n# [spaces.code]\n# channel = \"implementation\"\n# model = \"hf:Qwen/Qwen3-Embedding-0.6B\"\n\n[search]\ntests = \"exclude\"\n",
    );
    out
}

/// Why a configuration cannot be a project root's.
#[derive(Debug)]
pub enum ConfigFault {
    EmptyChannel(String),
    EmptyModel(String),
    UnknownDefaultSpace(String),
}

impl ConfigFault {
    /// What the fault says.
    pub open spec fn text(self) -> Seq<char> {
        match self {
            ConfigFault::EmptyChannel(id) => "space "@ + debug_literal(id@)
                + " has an empty channel"@,
            ConfigFault::EmptyModel(id) => "space "@ + debug_literal(id@)
                + " has an empty model reference"@,
            ConfigFault::UnknownDefaultSpace(id) => "[search] default_space "@ + debug_literal(id@)
                + " is not a defined space"@,
        }
    }

    pub fn message(&self) -> (r: String)
        ensures
            r@ == self.text(),
    {
        let (front, id, back) = match self {
            ConfigFault::EmptyChannel(id) => ("space ", id, " has an empty channel"),
            ConfigFault::EmptyModel(id) => ("space ", id, " has an empty model reference"),
            ConfigFault::UnknownDefaultSpace(id) => (
                "[search] default_space ",
                id,
                " is not a defined space",
            ),
        };
        let mut out = concat(front, debug_quote(id.as_str()).as_str());
        out.append(back);
        out
    }
}

/// The space is complete.
pub open spec fn complete_space(space: SpaceConfig) -> bool {
    space.channel@.len() > 0 && space.model@.len() > 0
}

/// The spaces before the first incomplete one are complete.
pub open spec fn first_incomplete(spaces: Seq<(String, SpaceConfig)>, at: int, id: String) -> bool {
    &&& 0 <= at < spaces.len()
    &&& spaces[at].0 == id
    &&& !complete_space(spaces[at].1)
    &&& forall|j: int| 0 <= j < at ==> complete_space((#[trigger] spaces[j]).1)
}

/// The first incomplete space has the id and lacks its channel, or only its model.
pub open spec fn lacks(spaces: Seq<(String, SpaceConfig)>, id: String, channel: bool) -> bool {
    exists|at: int|
        #[trigger] first_incomplete(spaces, at, id) && channel == (spaces[at].1.channel@.len()
            == 0)
}

/// Every space is complete.
pub open spec fn all_complete(spaces: Seq<(String, SpaceConfig)>) -> bool {
    forall|i: int| 0 <= i < spaces.len() ==> complete_space((#[trigger] spaces[i]).1)
}

/// Validate a configuration for use as a project root before registering it.
pub fn validate_root_config(config: &ProjectConfig) -> (r: Result<(), ConfigFault>)
    ensures
        ({
            let spaces = config.spaces.entries@;
            match r {
                Ok(()) => {
                    &&& all_complete(spaces)
                    &&& config.search.default_space is Some ==> config.spaces@.contains_key(
                        config.search.default_space->0@,
                    )
                },
                Err(ConfigFault::EmptyChannel(id)) => lacks(spaces, id, true),
                Err(ConfigFault::EmptyModel(id)) => lacks(spaces, id, false),
                Err(ConfigFault::UnknownDefaultSpace(id)) => {
                    &&& all_complete(spaces)
                    &&& config.search.default_space == Some(id)
                    &&& !config.spaces@.contains_key(id@)
                },
            }
        }),
{
    let ghost spaces = config.spaces.entries@;
    let mut i: usize = 0;
    while i < config.spaces.entries.len()
        invariant
            i <= spaces.len(),
            spaces == config.spaces.entries@,
            forall|j: int| 0 <= j < i ==> complete_space((#[trigger] spaces[j]).1),
        decreases spaces.len() - i,
    {
        let entry = &config.spaces.entries[i];
        if entry.1.channel.as_str().is_empty() {
            let id = entry.0.clone();
            assert(first_incomplete(spaces, i as int, id));
            assert(lacks(spaces, id, true));
            return Err(ConfigFault::EmptyChannel(id));
        }
        if entry.1.model.as_str().is_empty() {
            let id = entry.0.clone();
            assert(first_incomplete(spaces, i as int, id));
            assert(lacks(spaces, id, false));
            return Err(ConfigFault::EmptyModel(id));
        }
        i += 1;
    }
    if let Some(id) = &config.search.default_space {
        if config.spaces.find(id.as_str()).is_none() {
            return Err(ConfigFault::UnknownDefaultSpace(id.clone()));
        }
    }
    Ok(())
}

/// The override nearest to a file decides about its tests: the last of the chain that says
/// something.
pub proof fn the_nearest_override_decides(chain: Seq<OverrideFile>, i: int)
    requires
        0 <= i < chain.len(),
        forall|j: int| i < j < chain.len() ==> override_tests(#[trigger] chain[j]) is None,
        chain[i].settings.search is Some,
        chain[i].settings.search->0.tests is Some,
    ensures
        nearest_tests(chain) == Some(chain[i].settings.search->0.tests->0@),
    decreases chain.len(),
{
    if i < chain.len() - 1 {
        let front = chain.drop_last();
        assert(override_tests(chain[chain.len() - 1]) is None);
        assert forall|j: int| i < j < front.len() implies override_tests(#[trigger] front[j])
            is None by {
            assert(front[j] == chain[j]);
        }
        the_nearest_override_decides(front, i);
    }
}

/// Where no override says something, none decides.
pub proof fn silent_overrides_decide_nothing(chain: Seq<OverrideFile>)
    requires
        forall|j: int| 0 <= j < chain.len() ==> override_tests(#[trigger] chain[j]) is None,
    ensures
        nearest_tests(chain) is None,
    decreases chain.len(),
{
    if chain.len() > 0 {
        let front = chain.drop_last();
        assert(override_tests(chain[chain.len() - 1]) is None);
        assert forall|j: int| 0 <= j < front.len() implies override_tests(#[trigger] front[j])
            is None by {
            assert(front[j] == chain[j]);
        }
        silent_overrides_decide_nothing(front);
    }
}

/// The data stands where it is told to; else in a directory of its own below the data
/// directory of the user, which an empty name does not name; else below the home.
pub proof fn the_data_root_is_chosen_in_order(
    own: Seq<char>,
    xdg: Option<Seq<char>>,
    home: Option<Seq<char>>,
)
    ensures
        data_root_of(Some(own), xdg, home) == own,
        xdg is Some && xdg->0.len() > 0 ==> data_root_of(None, xdg, home) == path_joined(
            xdg->0,
            "codeindex"@,
        ),
        xdg is Some && xdg->0.len() == 0 ==> data_root_of(None, xdg, home) == data_root_of(
            None,
            None,
            home,
        ),
        home is Some ==> data_root_of(None, None, home) == path_joined(
            home->0,
            ".local/share/codeindex"@,
        ),
        home is None ==> data_root_of(None, None, home) == data_root_of(None, None, Some("."@)),
{
}

/// No backslash is left of a path, and nothing else of it changes.
pub proof fn only_backslashes_turn(text: Seq<char>, i: int)
    requires
        0 <= i < text.len(),
    ensures
        forward_slashes(text).len() == text.len(),
        !forward_slashes(text).contains('\\'),
        text[i] != '\\' ==> forward_slashes(text)[i] == text[i],
        text[i] == '\\' ==> forward_slashes(text)[i] == '/',
{
    assert(!forward_slashes(text).contains('\\')) by {
        if forward_slashes(text).contains('\\') {
            let j = choose|j: int|
                0 <= j < forward_slashes(text).len() && forward_slashes(text)[j] == '\\';
            assert(text[j] == '\\' || text[j] == forward_slashes(text)[j]);
        }
    }
}

/// An override excludes only what lies in its own directory: nothing where it is enabled,
/// everything below where it is not, and else each of its patterns.
pub proof fn an_override_excludes_below_itself(file: OverrideFile)
    ensures
        ({
            let dir = forward_slashes(file.relative_dir@);
            let excludes = override_excludes(file);
            &&& dir.len() > 0 ==> forall|i: int|
                0 <= i < excludes.len() ==> (dir + "/"@).is_prefix_of(#[trigger] excludes[i])
            &&& file.settings.index is None ==> excludes.len() == 0
            &&& file.settings.index matches Some(IndexOverride::Enabled(enabled)) ==> {
                &&& enabled ==> excludes.len() == 0
                &&& !enabled ==> excludes.len() == 1 && "**"@.is_suffix_of(excludes[0])
            }
            &&& file.settings.index matches Some(IndexOverride::Tune { exclude, languages }) ==> {
                &&& excludes.len() == exclude@.len()
                &&& forall|i: int|
                    0 <= i < excludes.len() ==> exclude@[i]@.is_suffix_of(#[trigger] excludes[i])
                        && excludes[i].len() == exclude@[i]@.len() + if dir.len() == 0 {
                        0
                    } else {
                        dir.len() + 1
                    }
            }
        }),
{
    reveal_strlit("/");
    let dir = forward_slashes(file.relative_dir@);
    let excludes = override_excludes(file);
    assert("/"@.len() == 1);
    assert forall|pattern: Seq<char>| true implies ({
        let whole = #[trigger] pattern_below(dir, pattern);
        &&& pattern.is_suffix_of(whole)
        &&& dir.len() > 0 ==> (dir + "/"@).is_prefix_of(whole)
    }) by {
        let whole = pattern_below(dir, pattern);
        assert(whole.subrange(whole.len() - pattern.len(), whole.len() as int) =~= pattern);
        if dir.len() > 0 {
            assert(whole.subrange(0, (dir + "/"@).len() as int) =~= dir + "/"@);
        }
    }
}

/// Each override's excludes are in force.
pub proof fn every_override_is_in_force(files: Seq<OverrideFile>, k: int, i: int)
    requires
        0 <= k < files.len(),
        0 <= i < override_excludes(files[k]).len(),
    ensures
        all_override_excludes(files).contains(override_excludes(files[k])[i]),
    decreases files.len(),
{
    let front = files.drop_last();
    let (before, own) = (all_override_excludes(front), override_excludes(files.last()));
    let all = all_override_excludes(files);
    if k < front.len() {
        assert(front[k] == files[k]);
        every_override_is_in_force(front, k, i);
        let j = choose|j: int|
            0 <= j < before.len() && before[j] == override_excludes(files[k])[i];
        assert(all[j] == before[j]);
    } else {
        assert(all[before.len() + i] == own[i]);
    }
}

/// A space is complete only with a channel and a model, and a configuration that is accepted
/// has no other; its default space is one of its spaces.
pub proof fn an_accepted_configuration_is_complete(
    config: ProjectConfig,
    r: Result<(), ConfigFault>,
    i: int,
)
    requires
        call_ensures(validate_root_config, (&config,), r),
        0 <= i < config.spaces.entries@.len(),
    ensures
        r is Ok ==> config.spaces.entries@[i].1.channel@.len() > 0
            && config.spaces.entries@[i].1.model@.len() > 0,
        r is Ok && config.search.default_space is Some ==> config.spaces@.contains_key(
            config.search.default_space->0@,
        ),
{
}

/// A project is called after the last name of its root.
pub proof fn a_project_is_called_after_its_root(root: Seq<char>)
    ensures
        last_name(components(root)) matches Some(name) ==> label_of_root(root) == name,
        last_name(components(root)) is None ==> label_of_root(root) == "project"@,
{
}

/// A space that lacks something is named: the first that does, by what it lacks, and a
/// channel before a model.
pub proof fn the_first_incomplete_space_is_named(
    spaces: Seq<(String, SpaceConfig)>,
    id: String,
    channel: bool,
)
    requires
        lacks(spaces, id, channel),
    ensures
        exists|at: int|
            {
                &&& 0 <= at < spaces.len()
                &&& (#[trigger] spaces[at]).0 == id
                &&& channel <==> spaces[at].1.channel@.len() == 0
                &&& !channel ==> spaces[at].1.model@.len() == 0
                &&& forall|j: int|
                    0 <= j < at ==> (#[trigger] spaces[j]).1.channel@.len() > 0
                        && spaces[j].1.model@.len() > 0
            },
{
    let at = choose|at: int| #[trigger]
        first_incomplete(spaces, at, id) && channel == (spaces[at].1.channel@.len() == 0);
    assert(spaces[at].0 == id);
    assert forall|j: int| 0 <= j < at implies (#[trigger] spaces[j]).1.channel@.len() > 0
        && spaces[j].1.model@.len() > 0 by {
        assert(complete_space(spaces[j].1));
    }
}

/// A database stands where the configuration puts it, below the root unless its path begins
/// at the top, and else where every project's does.
pub proof fn a_database_stands_where_it_is_put(
    context: ProjectContext,
    data_root: &str,
    r: String,
)
    requires
        call_ensures(ProjectContext::db_path, (&context, data_root), r),
    ensures
        context.config.storage.path is None ==> r@ == db_path_of(data_root@, context.root@),
        context.config.storage.path matches Some(path) ==> (rooted(path@) ==> r@ == path@) && (
        !rooted(path@) ==> r@ == path_joined(context.root@, path@)),
{
}

/// What an override says of tests is preferred to what the project says, and a project's own
/// label to the name of its root.
pub proof fn nearer_settings_are_preferred(
    context: ProjectContext,
    policy: Option<&str>,
    label: String,
)
    requires
        call_ensures(ProjectContext::tests_policy, (&context,), policy),
        call_ensures(ProjectContext::label, (&context,), label),
    ensures
        nearest_tests(context.overrides@) is Some ==> text_view(policy) == nearest_tests(
            context.overrides@,
        ),
        nearest_tests(context.overrides@) is None ==> text_view(policy) == opt_view(
            context.config.search.tests,
        ),
        context.config.label matches Some(own) ==> label@ == own@,
        context.config.label is None ==> label@ == label_of_root(context.root@),
{
}

} // verus!
