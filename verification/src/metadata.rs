//! Task metadata: what discovery reports about each task and each file that
//! failed to load.
use vstd::prelude::*;
use crate::json::{JsonVal, JsonValue};
use crate::text::{copy_opt_string, copy_string, copy_strings, str_eq, views};

verus! {

/// Version of the public `list/help --json` metadata schema.
pub const METADATA_SCHEMA_VERSION: u32 = 4;

/// Version of the private wire format between rt and its Ruby harness.
pub const HARNESS_PROTOCOL_VERSION: u32 = 4;

/// Where a task was discovered.
#[derive(Debug, Clone, Copy, PartialEq, Eq, Structural)]
pub enum Source {
    Project,
    Global,
}

impl Default for Source {
    /// A task whose origin is not recorded counts as a project task.
    fn default() -> (r: Source)
        ensures
            r == Source::Project,
    {
        Source::Project
    }
}

/// The declared type of a `--flag`.
#[derive(Debug, Clone, Copy, PartialEq, Eq, Structural)]
pub enum OptionType {
    String,
    Integer,
    Boolean,
}

/// A gem a task file declares, with its version requirements.
#[derive(Debug, Clone)]
pub struct GemRequirement {
    pub name: String,
    pub requirements: Vec<String>,
}

/// A positional argument of a task.
#[derive(Debug, Clone)]
pub struct Param {
    pub name: String,
    pub required: bool,
    pub default: JsonValue,
    pub enum_values: Option<Vec<String>>,
    pub description: Option<String>,
}

/// A `--flag` of a task. Integer options may carry an inclusive range.
#[derive(Debug, Clone)]
pub struct TaskOption {
    pub name: String,
    pub option_type: OptionType,
    pub default: JsonValue,
    pub minimum: Option<i64>,
    pub maximum: Option<i64>,
    pub description: Option<String>,
}

/// One task as discovery describes it.
#[derive(Debug, Clone)]
pub struct Task {
    pub name: String,
    pub description: Option<String>,
    pub file: String,
    pub params: Vec<Param>,
    pub options: Vec<TaskOption>,
    pub gems: Vec<GemRequirement>,
    pub requirements: Vec<String>,
    pub source: Source,
}

/// A task file that could not be loaded, or a declaration that was refused.
#[derive(Debug, Clone)]
pub struct LoadError {
    pub file: String,
    pub class: String,
    pub message: String,
    pub source: Source,
}

/// The public metadata document: tasks and load errors.
#[derive(Debug, Clone)]
pub struct Metadata {
    pub schema_version: u32,
    pub tasks: Vec<Task>,
    pub errors: Vec<LoadError>,
}

/// What the Ruby harness reports; it carries the harness protocol version,
/// not the public schema version.
#[derive(Debug, Clone)]
pub struct HarnessMetadata {
    pub harness_protocol_version: u32,
    pub tasks: Vec<Task>,
    pub errors: Vec<LoadError>,
}

pub ghost struct GemView {
    pub name: Seq<char>,
    pub requirements: Seq<Seq<char>>,
}

pub ghost struct ParamView {
    pub name: Seq<char>,
    pub required: bool,
    pub default: JsonVal,
    pub enum_values: Option<Seq<Seq<char>>>,
    pub description: Option<Seq<char>>,
}

pub ghost struct OptionView {
    pub name: Seq<char>,
    pub option_type: OptionType,
    pub default: JsonVal,
    pub minimum: Option<i64>,
    pub maximum: Option<i64>,
    pub description: Option<Seq<char>>,
}

pub ghost struct TaskView {
    pub name: Seq<char>,
    pub description: Option<Seq<char>>,
    pub file: Seq<char>,
    pub params: Seq<ParamView>,
    pub options: Seq<OptionView>,
    pub gems: Seq<GemView>,
    pub requirements: Seq<Seq<char>>,
    pub source: Source,
}

pub ghost struct LoadErrorView {
    pub file: Seq<char>,
    pub class: Seq<char>,
    pub message: Seq<char>,
    pub source: Source,
}

pub ghost struct MetadataView {
    pub schema_version: u32,
    pub tasks: Seq<TaskView>,
    pub errors: Seq<LoadErrorView>,
}

/// The view of an optional string.
pub open spec fn opt_view(s: Option<String>) -> Option<Seq<char>> {
    match s {
        Some(v) => Some(v@),
        None => None,
    }
}

/// The view of an optional list of strings.
pub open spec fn opt_views(s: Option<Vec<String>>) -> Option<Seq<Seq<char>>> {
    match s {
        Some(v) => Some(views(v@)),
        None => None,
    }
}

impl View for GemRequirement {
    type V = GemView;

    open spec fn view(&self) -> GemView {
        GemView { name: self.name@, requirements: views(self.requirements@) }
    }
}

impl View for Param {
    type V = ParamView;

    open spec fn view(&self) -> ParamView {
        ParamView {
            name: self.name@,
            required: self.required,
            default: self.default@,
            enum_values: opt_views(self.enum_values),
            description: opt_view(self.description),
        }
    }
}

impl View for TaskOption {
    type V = OptionView;

    open spec fn view(&self) -> OptionView {
        OptionView {
            name: self.name@,
            option_type: self.option_type,
            default: self.default@,
            minimum: self.minimum,
            maximum: self.maximum,
            description: opt_view(self.description),
        }
    }
}

impl View for Task {
    type V = TaskView;

    open spec fn view(&self) -> TaskView {
        TaskView {
            name: self.name@,
            description: opt_view(self.description),
            file: self.file@,
            params: self.params@.map_values(|p: Param| p@),
            options: self.options@.map_values(|o: TaskOption| o@),
            gems: self.gems@.map_values(|g: GemRequirement| g@),
            requirements: views(self.requirements@),
            source: self.source,
        }
    }
}

impl View for LoadError {
    type V = LoadErrorView;

    open spec fn view(&self) -> LoadErrorView {
        LoadErrorView {
            file: self.file@,
            class: self.class@,
            message: self.message@,
            source: self.source,
        }
    }
}

impl View for Metadata {
    type V = MetadataView;

    open spec fn view(&self) -> MetadataView {
        MetadataView {
            schema_version: self.schema_version,
            tasks: task_views(self.tasks@),
            errors: error_views(self.errors@),
        }
    }
}

/// The views of a list of tasks.
pub open spec fn task_views(ts: Seq<Task>) -> Seq<TaskView> {
    ts.map_values(|t: Task| t@)
}

/// The views of a list of load errors.
pub open spec fn error_views(es: Seq<LoadError>) -> Seq<LoadErrorView> {
    es.map_values(|e: LoadError| e@)
}

/// The views of tasks after a push: the old views, then the new one.
pub proof fn lemma_task_views_push(ts: Seq<Task>, t: Task)
    ensures
        task_views(ts.push(t)) == task_views(ts).push(t@),
{
    assert(task_views(ts.push(t)) =~= task_views(ts).push(t@));
}

/// The views of tasks without the first: the views without the first.
pub proof fn lemma_task_views_skip1(ts: Seq<Task>)
    requires
        ts.len() > 0,
    ensures
        task_views(ts.skip(1)) == task_views(ts).skip(1),
        task_views(ts)[0] == ts[0]@,
{
    assert(task_views(ts.skip(1)) =~= task_views(ts).skip(1));
}

/// The views of load errors after a push: the old views, then the new one.
pub proof fn lemma_error_views_push(es: Seq<LoadError>, e: LoadError)
    ensures
        error_views(es.push(e)) == error_views(es).push(e@),
{
    assert(error_views(es.push(e)) =~= error_views(es).push(e@));
}

/// The views of load errors without the first: the views without the first.
pub proof fn lemma_error_views_skip1(es: Seq<LoadError>)
    requires
        es.len() > 0,
    ensures
        error_views(es.skip(1)) == error_views(es).skip(1),
        error_views(es)[0] == es[0]@,
{
    assert(error_views(es.skip(1)) =~= error_views(es).skip(1));
}

/// The names of a list of tasks.
pub open spec fn task_names(tasks: Seq<TaskView>) -> Seq<Seq<char>> {
    tasks.map_values(|t: TaskView| t.name)
}

/// The index of the first element of `names` equal to `key`.
pub open spec fn first_match(names: Seq<Seq<char>>, key: Seq<char>) -> Option<int> {
    if exists|k: int| 0 <= k < names.len() && names[k] == key {
        Some(
            choose|k: int|
                0 <= k < names.len() && names[k] == key && forall|j: int| 0 <= j < k ==> names[j] != key,
        )
    } else {
        None
    }
}

/// An index holding the key, with none before it, is the first match.
pub proof fn lemma_first_match_at(names: Seq<Seq<char>>, key: Seq<char>, i: int)
    requires
        0 <= i < names.len(),
        names[i] == key,
        forall|j: int| 0 <= j < i ==> names[j] != key,
    ensures
        first_match(names, key) == Some(i),
{
    let w = choose|k: int|
        0 <= k < names.len() && names[k] == key && forall|j: int| 0 <= j < k ==> names[j] != key;
    assert(0 <= w < names.len() && names[w] == key && forall|j: int| 0 <= j < w ==> names[j] != key);
    if w < i {
        assert(names[w] != key);
    } else if w > i {
        assert(names[i] != key);
    }
}

proof fn lemma_minimal_match(names: Seq<Seq<char>>, key: Seq<char>, k: int)
    requires
        0 <= k < names.len(),
        names[k] == key,
    ensures
        exists|m: int| 0 <= m < names.len() && names[m] == key && forall|j: int| 0 <= j < m ==> names[j] != key,
    decreases k,
{
    if exists|j: int| 0 <= j < k && names[j] == key {
        let j = choose|j: int| 0 <= j < k && names[j] == key;
        lemma_minimal_match(names, key, j);
    } else {
        assert(forall|j: int| 0 <= j < k ==> names[j] != key);
    }
}

/// What a found first match is: an index holding the key, with none before it.
pub proof fn lemma_first_match_some(names: Seq<Seq<char>>, key: Seq<char>)
    ensures
        first_match(names, key) matches Some(i) ==> 0 <= i < names.len() && names[i] == key
            && forall|j: int| 0 <= j < i ==> names[j] != key,
{
    if exists|k: int| 0 <= k < names.len() && names[k] == key {
        let k = choose|k: int| 0 <= k < names.len() && names[k] == key;
        lemma_minimal_match(names, key, k);
    }
}

/// A key held nowhere has no first match.
pub proof fn lemma_first_match_none(names: Seq<Seq<char>>, key: Seq<char>)
    requires
        forall|j: int| 0 <= j < names.len() ==> names[j] != key,
    ensures
        first_match(names, key) is None,
{
}

/// The list of load errors, copied.
pub fn copy_load_errors(errors: &Vec<LoadError>) -> (r: Vec<LoadError>)
    ensures
        error_views(r@) == error_views(errors@),
{
    let mut r: Vec<LoadError> = Vec::new();
    let mut i: usize = 0;
    while i < errors.len()
        invariant
            i <= errors@.len(),
            r@.len() == i,
            forall|k: int| 0 <= k < i ==> r@[k]@ == errors@[k]@,
        decreases errors@.len() - i,
    {
        r.push(errors[i].copy());
        i = i + 1;
    }
    assert(error_views(r@) =~= error_views(errors@));
    r
}

impl LoadError {
    /// A copy of this load error.
    pub fn copy(&self) -> (r: LoadError)
        ensures
            r@ == self@,
    {
        LoadError {
            file: copy_string(&self.file),
            class: copy_string(&self.class),
            message: copy_string(&self.message),
            source: self.source,
        }
    }
}

impl GemRequirement {
    /// A copy of this gem requirement.
    pub fn copy(&self) -> (r: GemRequirement)
        ensures
            r@ == self@,
    {
        GemRequirement { name: copy_string(&self.name), requirements: copy_strings(&self.requirements) }
    }
}

impl Param {
    /// A copy of this param.
    pub fn copy(&self) -> (r: Param)
        ensures
            r@ == self@,
    {
        let enum_values = match &self.enum_values {
            Some(v) => Some(copy_strings(v)),
            None => None,
        };
        let description = copy_opt_string(&self.description);
        Param {
            name: copy_string(&self.name),
            required: self.required,
            default: self.default.copy(),
            enum_values,
            description,
        }
    }
}

impl TaskOption {
    /// A copy of this option.
    pub fn copy(&self) -> (r: TaskOption)
        ensures
            r@ == self@,
    {
        let description = copy_opt_string(&self.description);
        TaskOption {
            name: copy_string(&self.name),
            option_type: self.option_type,
            default: self.default.copy(),
            minimum: self.minimum,
            maximum: self.maximum,
            description,
        }
    }
}

impl HarnessMetadata {
    /// The public metadata document for what the harness reported: the same
    /// tasks and errors under the public schema version.
    pub fn into_metadata(self) -> (r: Metadata)
        ensures
            r.schema_version == METADATA_SCHEMA_VERSION,
            r.tasks == self.tasks,
            r.errors == self.errors,
    {
        Metadata { schema_version: METADATA_SCHEMA_VERSION, tasks: self.tasks, errors: self.errors }
    }
}

impl Metadata {
    /// The first task called `name`, or `None` when no task has that name.
    pub fn find_task(&self, name: &str) -> (r: Option<&Task>)
        ensures
            r is None <==> first_match(task_names(self@.tasks), name@) is None,
            r matches Some(t) ==> (first_match(task_names(self@.tasks), name@) matches Some(i)
                && *t == self.tasks@[i]),
    {
        let ghost names = task_names(self@.tasks);
        let mut i: usize = 0;
        while i < self.tasks.len()
            invariant
                i <= self.tasks@.len(),
                names == task_names(self@.tasks),
                names.len() == self.tasks@.len(),
                forall|k: int| 0 <= k < i ==> names[k] != name@,
            decreases self.tasks@.len() - i,
        {
            if str_eq(self.tasks[i].name.as_str(), name) {
                assert(names[i as int] == self.tasks@[i as int].name@);
                proof { lemma_first_match_at(names, name@, i as int); }
                return Some(&self.tasks[i]);
            }
            assert(names[i as int] == self.tasks@[i as int].name@);
            i = i + 1;
        }
        proof { lemma_first_match_none(names, name@); }
        None
    }
}

} // verus!
