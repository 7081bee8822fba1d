//! Vendor-neutral tool definitions derived from task metadata: one object
//! input schema per task.
use vstd::prelude::*;
use crate::error::RtError;
use crate::json::{JsonVal, JsonValue, KeyedList};
use crate::metadata::{
    copy_load_errors, error_views, task_names, first_match, LoadError, LoadErrorView, Metadata, OptionType,
    OptionView, ParamView, Source, Task, TaskView,
};
use crate::text::{copy_opt_string, copy_string, copy_strings, views};
use vstd::string::StringExecFns;

verus! {

/// Version of the tool catalog schema.
pub const TOOL_CATALOG_SCHEMA_VERSION: u32 = 3;

/// The JSON Schema type of an input.
#[derive(Debug, Clone, Copy, PartialEq, Eq, Structural)]
pub enum JsonType {
    Object,
    String,
    Integer,
    Boolean,
}

/// One property of a tool's input schema.
#[derive(Debug, Clone)]
pub struct InputProperty {
    pub schema_type: JsonType,
    pub description: Option<String>,
    pub enum_values: Option<Vec<String>>,
    pub default: Option<JsonValue>,
    pub minimum: Option<i64>,
    pub maximum: Option<i64>,
}

/// A tool's object input schema.
#[derive(Debug, Clone)]
pub struct InputSchema {
    pub schema_type: JsonType,
    pub properties: KeyedList<InputProperty>,
    pub required: Vec<String>,
    pub additional_properties: bool,
}

/// The tool definition of one task.
#[derive(Debug, Clone)]
pub struct ToolDefinition {
    pub task: String,
    pub description: Option<String>,
    pub source: Source,
    pub requirements: Vec<String>,
    pub input_schema: InputSchema,
}

/// Tool definitions for tasks, plus the load errors of discovery.
#[derive(Debug, Clone)]
pub struct ToolCatalog {
    pub schema_version: u32,
    pub tools: Vec<ToolDefinition>,
    pub errors: Vec<LoadError>,
}

pub ghost struct PropertyView {
    pub schema_type: JsonType,
    pub description: Option<Seq<char>>,
    pub enum_values: Option<Seq<Seq<char>>>,
    pub default: Option<JsonVal>,
    pub minimum: Option<i64>,
    pub maximum: Option<i64>,
}

pub ghost struct SchemaView {
    pub schema_type: JsonType,
    pub properties: Map<Seq<char>, PropertyView>,
    pub required: Seq<Seq<char>>,
    pub additional_properties: bool,
}

pub ghost struct ToolView {
    pub task: Seq<char>,
    pub description: Option<Seq<char>>,
    pub source: Source,
    pub requirements: Seq<Seq<char>>,
    pub input_schema: SchemaView,
}

pub ghost struct CatalogView {
    pub schema_version: u32,
    pub tools: Seq<ToolView>,
    pub errors: Seq<LoadErrorView>,
}

impl View for InputProperty {
    type V = PropertyView;

    open spec fn view(&self) -> PropertyView {
        PropertyView {
            schema_type: self.schema_type,
            description: crate::metadata::opt_view(self.description),
            enum_values: crate::metadata::opt_views(self.enum_values),
            default: match self.default {
                Some(v) => Some(v@),
                None => None,
            },
            minimum: self.minimum,
            maximum: self.maximum,
        }
    }
}

impl View for InputSchema {
    type V = SchemaView;

    open spec fn view(&self) -> SchemaView {
        SchemaView {
            schema_type: self.schema_type,
            properties: self.properties@,
            required: views(self.required@),
            additional_properties: self.additional_properties,
        }
    }
}

impl View for ToolDefinition {
    type V = ToolView;

    open spec fn view(&self) -> ToolView {
        ToolView {
            task: self.task@,
            description: crate::metadata::opt_view(self.description),
            source: self.source,
            requirements: views(self.requirements@),
            input_schema: self.input_schema@,
        }
    }
}

/// The views of a list of tool definitions.
pub open spec fn tool_views(ts: Seq<ToolDefinition>) -> Seq<ToolView> {
    ts.map_values(|t: ToolDefinition| t@)
}

impl View for ToolCatalog {
    type V = CatalogView;

    open spec fn view(&self) -> CatalogView {
        CatalogView {
            schema_version: self.schema_version,
            tools: tool_views(self.tools@),
            errors: error_views(self.errors@),
        }
    }
}

/// The schema type of an option's values.
pub open spec fn option_json_type(t: OptionType) -> JsonType {
    match t {
        OptionType::String => JsonType::String,
        OptionType::Integer => JsonType::Integer,
        OptionType::Boolean => JsonType::Boolean,
    }
}

/// A default worth publishing: anything but `null`.
pub open spec fn non_null(v: JsonVal) -> Option<JsonVal> {
    if v == JsonVal::Null {
        None
    } else {
        Some(v)
    }
}

/// A param becomes a string property with its description, allowed values
/// and non-null default.
pub open spec fn param_property(p: ParamView) -> PropertyView {
    PropertyView {
        schema_type: JsonType::String,
        description: p.description,
        enum_values: p.enum_values,
        default: non_null(p.default),
        minimum: None,
        maximum: None,
    }
}

/// An option becomes a property of its own type; a boolean without a
/// default defaults to `false`, and integer bounds become the minimum and
/// maximum.
pub open spec fn option_property(o: OptionView) -> PropertyView {
    PropertyView {
        schema_type: option_json_type(o.option_type),
        description: o.description,
        enum_values: None,
        default: if o.option_type == OptionType::Boolean && o.default == JsonVal::Null {
            Some(JsonVal::Bool(false))
        } else {
            non_null(o.default)
        },
        minimum: o.minimum,
        maximum: o.maximum,
    }
}

/// The universal `dry_run` input.
pub open spec fn dry_run_property() -> PropertyView {
    PropertyView {
        schema_type: JsonType::Boolean,
        description: Some("Set the task's dry-run flag"@),
        enum_values: None,
        default: Some(JsonVal::Bool(false)),
        minimum: None,
        maximum: None,
    }
}

/// The properties of the first `n` params.
pub open spec fn param_properties(params: Seq<ParamView>, n: int) -> Map<Seq<char>, PropertyView>
    decreases n,
{
    if n <= 0 || n > params.len() {
        Map::empty()
    } else {
        param_properties(params, n - 1).insert(params[n - 1].name, param_property(params[n - 1]))
    }
}

/// The properties of the first `n` options, over `base`.
pub open spec fn option_properties(options: Seq<OptionView>, n: int, base: Map<Seq<char>, PropertyView>) -> Map<Seq<char>, PropertyView>
    decreases n,
{
    if n <= 0 || n > options.len() {
        base
    } else {
        option_properties(options, n - 1, base).insert(options[n - 1].name, option_property(options[n - 1]))
    }
}

/// The names of the required params, in order.
pub open spec fn required_params(params: Seq<ParamView>) -> Seq<Seq<char>>
    decreases params.len(),
{
    if params.len() == 0 {
        seq![]
    } else if params.last().required {
        required_params(params.drop_last()).push(params.last().name)
    } else {
        required_params(params.drop_last())
    }
}

/// The tool definition of a task: params, then options, then `dry_run`
/// make up one object namespace (a later entry replaces an earlier one of
/// the same name); required params are listed; no other properties are
/// allowed.
pub open spec fn tool_spec(t: TaskView) -> ToolView {
    ToolView {
        task: t.name,
        description: t.description,
        source: t.source,
        requirements: t.requirements,
        input_schema: SchemaView {
            schema_type: JsonType::Object,
            properties: option_properties(t.options, t.options.len() as int, param_properties(t.params, t.params.len() as int))
                .insert("dry_run"@, dry_run_property()),
            required: required_params(t.params),
            additional_properties: false,
        },
    }
}

impl From<OptionType> for JsonType {
    /// The schema type of an option's values.
    fn from(option_type: OptionType) -> (r: JsonType) {
        match option_type {
            OptionType::String => JsonType::String,
            OptionType::Integer => JsonType::Integer,
            OptionType::Boolean => JsonType::Boolean,
        }
    }
}

impl vstd::std_specs::convert::FromSpecImpl<OptionType> for JsonType {
    open spec fn obeys_from_spec() -> bool {
        true
    }

    open spec fn from_spec(option_type: OptionType) -> JsonType {
        option_json_type(option_type)
    }
}

/// A copy of a value unless it is `null`.
pub fn non_null_default(value: &JsonValue) -> (r: Option<JsonValue>)
    ensures
        match r {
            Some(v) => non_null(value@) == Some(v@),
            None => non_null(value@) is None,
        },
{
    if value.is_null() {
        None
    } else {
        Some(value.copy())
    }
}

fn opt_default_view(d: Option<JsonValue>) -> (r: Option<JsonValue>)
    ensures
        r == d,
{
    d
}

impl ToolDefinition {
    /// The tool definition of a task.
    pub fn from_task(task: &Task) -> (r: ToolDefinition)
        ensures
            r.input_schema.properties.wf(),
            r@ == tool_spec(task@),
    {
        let ghost tv = task@;
        let mut properties: KeyedList<InputProperty> = KeyedList::new();
        let mut required: Vec<String> = Vec::new();
        let mut i: usize = 0;
        while i < task.params.len()
            invariant
                i <= task.params@.len(),
                tv == task@,
                tv.params.len() == task.params@.len(),
                properties.wf(),
                properties@ == param_properties(tv.params, i as int),
                views(required@) == required_params(tv.params.take(i as int)),
            decreases task.params@.len() - i,
        {
            let param = &task.params[i];
            assert(tv.params[i as int] == param@);
            let enum_values = match &param.enum_values {
                Some(v) => Some(copy_strings(v)),
                None => None,
            };
            let prop = InputProperty {
                schema_type: JsonType::String,
                description: copy_opt_string(&param.description),
                enum_values,
                default: non_null_default(&param.default),
                minimum: None,
                maximum: None,
            };
            assert(prop@ == param_property(param@)) by {
                assert(prop@.default == non_null(param@.default));
            }
            properties.insert(copy_string(&param.name), prop);
            let ghost before = required@;
            assert(tv.params.take(i + 1).drop_last() =~= tv.params.take(i as int));
            if param.required {
                let name = copy_string(&param.name);
                required.push(name);
                proof { crate::text::lemma_views_push(before, name); }
            }
            i = i + 1;
        }
        assert(tv.params.take(i as int) =~= tv.params);
        let ghost base = properties@;
        let mut k: usize = 0;
        while k < task.options.len()
            invariant
                k <= task.options@.len(),
                tv == task@,
                tv.options.len() == task.options@.len(),
                properties.wf(),
                properties@ == option_properties(tv.options, k as int, base),
            decreases task.options@.len() - k,
        {
            let option = &task.options[k];
            assert(tv.options[k as int] == option@);
            let default = match option.option_type {
                OptionType::Boolean => if option.default.is_null() {
                    Some(JsonValue::Bool(false))
                } else {
                    non_null_default(&option.default)
                },
                _ => non_null_default(&option.default),
            };
            let prop = InputProperty {
                schema_type: JsonType::from(option.option_type),
                description: copy_opt_string(&option.description),
                enum_values: None,
                default,
                minimum: option.minimum,
                maximum: option.maximum,
            };
            assert(prop@ == option_property(option@)) by {
                assert(prop@.default == option_property(option@).default);
            }
            properties.insert(copy_string(&option.name), prop);
            k = k + 1;
        }
        let dry = InputProperty {
            schema_type: JsonType::Boolean,
            description: Some(String::from_str("Set the task's dry-run flag")),
            enum_values: None,
            default: Some(JsonValue::Bool(false)),
            minimum: None,
            maximum: None,
        };
        properties.insert(String::from_str("dry_run"), dry);
        let r = ToolDefinition {
            task: copy_string(&task.name),
            description: copy_opt_string(&task.description),
            source: task.source,
            requirements: copy_strings(&task.requirements),
            input_schema: InputSchema {
                schema_type: JsonType::Object,
                properties,
                required,
                additional_properties: false,
            },
        };
        assert(r@.input_schema.properties =~= tool_spec(tv).input_schema.properties);
        r
    }
}

impl ToolCatalog {
    /// One tool per task, in task order, with the load errors unchanged.
    pub fn from_metadata(metadata: &Metadata) -> (r: ToolCatalog)
        ensures
            r@.schema_version == TOOL_CATALOG_SCHEMA_VERSION,
            r@.tools == metadata@.tasks.map_values(|t: TaskView| tool_spec(t)),
            r@.errors == metadata@.errors,
    {
        let mut tools: Vec<ToolDefinition> = Vec::new();
        let mut i: usize = 0;
        while i < metadata.tasks.len()
            invariant
                i <= metadata.tasks@.len(),
                tool_views(tools@) == metadata@.tasks.take(i as int).map_values(|t: TaskView| tool_spec(t)),
            decreases metadata.tasks@.len() - i,
        {
            let ghost before = tools@;
            let tool = ToolDefinition::from_task(&metadata.tasks[i]);
            tools.push(tool);
            assert(metadata@.tasks[i as int] == metadata.tasks@[i as int]@);
            assert(tool_views(tools@) =~= tool_views(before).push(tool@));
            assert(metadata@.tasks.take(i + 1) =~= metadata@.tasks.take(i as int).push(metadata@.tasks[i as int]));
            assert(tool_views(tools@) =~= metadata@.tasks.take(i + 1).map_values(|t: TaskView| tool_spec(t)));
            i = i + 1;
        }
        assert(metadata@.tasks.take(i as int) =~= metadata@.tasks);
        ToolCatalog {
            schema_version: TOOL_CATALOG_SCHEMA_VERSION,
            tools,
            errors: copy_load_errors(&metadata.errors),
        }
    }

    /// The catalog restricted to the first task called `name`, with the same
    /// shape and load errors; an unknown name is a usage error.
    pub fn for_task(metadata: &Metadata, name: &str) -> (r: Result<ToolCatalog, RtError>)
        ensures
            match first_match(task_names(metadata@.tasks), name@) {
                Some(i) => r matches Ok(c) && c@.schema_version == TOOL_CATALOG_SCHEMA_VERSION
                    && c@.tools == seq![tool_spec(metadata@.tasks[i])] && c@.errors == metadata@.errors,
                None => exists|idx: Seq<usize>| crate::sort::stable_order(task_names(metadata@.tasks), idx)
                    && (r matches Err(RtError::Usage(m)) && m@ == crate::runner::unknown_task_text(
                    task_names(metadata@.tasks),
                    idx,
                    name@,
                )),
            },
    {
        match metadata.find_task(name) {
            Some(task) => {
                let tool = ToolDefinition::from_task(task);
                let mut tools: Vec<ToolDefinition> = Vec::new();
                tools.push(tool);
                let c = ToolCatalog {
                    schema_version: TOOL_CATALOG_SCHEMA_VERSION,
                    tools,
                    errors: copy_load_errors(&metadata.errors),
                };
                proof { crate::metadata::lemma_first_match_some(task_names(metadata@.tasks), name@); }
                let ghost i = first_match(task_names(metadata@.tasks), name@)->Some_0;
                assert(metadata@.tasks[i] == metadata.tasks@[i]@);
                assert(tool_views(c.tools@) =~= seq![tool@]);
                assert(c@.tools =~= seq![tool_spec(metadata@.tasks[i])]);
                Ok(c)
            },
            None => Err(crate::runner::unknown_task(metadata, name)),
        }
    }
}

proof fn lemma_param_properties_keys(params: Seq<ParamView>, n: int)
    requires
        0 <= n <= params.len(),
    ensures
        forall|k: Seq<char>| #[trigger] param_properties(params, n).contains_key(k) <==> exists|j: int| 0 <= j < n
            && params[j].name == k,
    decreases n,
{
    if n > 0 {
        lemma_param_properties_keys(params, n - 1);
        assert forall|k: Seq<char>| #[trigger] param_properties(params, n).contains_key(k) <==> exists|j: int| 0 <= j < n
            && params[j].name == k by {
            assert(param_properties(params, n - 1).contains_key(k) <==> exists|j: int| 0 <= j < n - 1
                && params[j].name == k);
            if exists|j: int| 0 <= j < n && params[j].name == k {
                let j = choose|j: int| 0 <= j < n && params[j].name == k;
                if j < n - 1 {
                    assert(0 <= j < n - 1 && params[j].name == k);
                }
            }
        }
    }
}

proof fn lemma_option_properties_keys(options: Seq<OptionView>, n: int, base: Map<Seq<char>, PropertyView>)
    requires
        0 <= n <= options.len(),
    ensures
        forall|k: Seq<char>| #[trigger] option_properties(options, n, base).contains_key(k) <==> (base.contains_key(k)
            || exists|j: int| 0 <= j < n && options[j].name == k),
    decreases n,
{
    if n > 0 {
        lemma_option_properties_keys(options, n - 1, base);
        assert forall|k: Seq<char>| #[trigger] option_properties(options, n, base).contains_key(k) <==> (base.contains_key(k)
            || exists|j: int| 0 <= j < n && options[j].name == k) by {
            assert(option_properties(options, n - 1, base).contains_key(k) <==> (base.contains_key(k)
                || exists|j: int| 0 <= j < n - 1 && options[j].name == k));
            if exists|j: int| 0 <= j < n && options[j].name == k {
                let j = choose|j: int| 0 <= j < n && options[j].name == k;
                if j < n - 1 {
                    assert(0 <= j < n - 1 && options[j].name == k);
                }
            }
        }
    }
}

proof fn lemma_required_are_params(params: Seq<ParamView>)
    ensures
        forall|i: int| 0 <= i < required_params(params).len() ==> crate::args::param_names(params).contains(
            #[trigger] required_params(params)[i],
        ),
    decreases params.len(),
{
    if params.len() > 0 {
        let rest = params.drop_last();
        lemma_required_are_params(rest);
        assert forall|i: int| 0 <= i < required_params(params).len() implies crate::args::param_names(params).contains(
            #[trigger] required_params(params)[i],
        ) by {
            if i < required_params(rest).len() {
                assert(required_params(params)[i] == required_params(rest)[i]);
                assert(crate::args::param_names(rest).contains(required_params(rest)[i]));
                let j = choose|j: int| 0 <= j < crate::args::param_names(rest).len() && crate::args::param_names(rest)[j]
                    == required_params(rest)[i];
                assert(crate::args::param_names(params)[j] == crate::args::param_names(rest)[j]);
            } else {
                assert(crate::args::param_names(params)[params.len() - 1] == required_params(params)[i]);
            }
        }
    }
}

/// A tool's input properties are exactly the task's params and options and
/// the universal `dry_run`; every required input is one of them.
pub proof fn law_tool_inputs_are_declared(t: TaskView)
    ensures
        forall|k: Seq<char>| #[trigger] tool_spec(t).input_schema.properties.contains_key(k) <==> (k == "dry_run"@
            || crate::args::param_names(t.params).contains(k) || crate::args::option_names(t.options).contains(k)),
        forall|i: int| 0 <= i < tool_spec(t).input_schema.required.len() ==> tool_spec(t).input_schema.properties.contains_key(
            #[trigger] tool_spec(t).input_schema.required[i],
        ),
        tool_spec(t).input_schema.additional_properties == false,
{
    let base = param_properties(t.params, t.params.len() as int);
    lemma_param_properties_keys(t.params, t.params.len() as int);
    lemma_option_properties_keys(t.options, t.options.len() as int, base);
    lemma_required_are_params(t.params);
    let props = tool_spec(t).input_schema.properties;
    assert forall|k: Seq<char>| #[trigger] props.contains_key(k) <==> (k == "dry_run"@
        || crate::args::param_names(t.params).contains(k) || crate::args::option_names(t.options).contains(k)) by {
        if crate::args::param_names(t.params).contains(k) {
            let j = choose|j: int| 0 <= j < crate::args::param_names(t.params).len() && crate::args::param_names(t.params)[j] == k;
            assert(t.params[j].name == k);
            assert(base.contains_key(k));
        }
        if crate::args::option_names(t.options).contains(k) {
            let j = choose|j: int| 0 <= j < crate::args::option_names(t.options).len() && crate::args::option_names(t.options)[j] == k;
            assert(t.options[j].name == k);
        }
        if props.contains_key(k) && k != "dry_run"@ {
            if base.contains_key(k) {
                let j = choose|j: int| 0 <= j < t.params.len() && t.params[j].name == k;
                assert(crate::args::param_names(t.params)[j] == k);
            } else {
                let j = choose|j: int| 0 <= j < t.options.len() && t.options[j].name == k;
                assert(crate::args::option_names(t.options)[j] == k);
            }
        }
    }
    assert forall|i: int| 0 <= i < tool_spec(t).input_schema.required.len() implies props.contains_key(
        #[trigger] tool_spec(t).input_schema.required[i],
    ) by {
        let k = required_params(t.params)[i];
        assert(crate::args::param_names(t.params).contains(k));
    }
}

/// The property an option ends up with, when no later option takes its name.
proof fn lemma_option_property_at(options: Seq<OptionView>, n: int, base: Map<Seq<char>, PropertyView>, i: int)
    requires
        0 <= i < n <= options.len(),
        forall|j: int| i < j < n ==> #[trigger] options[j].name != options[i].name,
    ensures
        option_properties(options, n, base).contains_key(options[i].name),
        option_properties(options, n, base)[options[i].name] == option_property(options[i]),
    decreases n,
{
    if n - 1 > i {
        lemma_option_property_at(options, n - 1, base, i);
        assert(options[n - 1].name != options[i].name);
    }
}

/// An option's tool input publishes the option's own declared default
/// whenever it has one, of any type; only a boolean option without a
/// default is published with `false`, and any other option without one has
/// no default. The input also keeps the option's description and bounds.
/// (An option whose name a later option or `dry_run` takes over is
/// replaced by that one.)
pub proof fn law_option_default_published(t: TaskView, i: int)
    requires
        0 <= i < t.options.len(),
        forall|j: int| i < j < t.options.len() ==> #[trigger] t.options[j].name != t.options[i].name,
        t.options[i].name != "dry_run"@,
    ensures
        ({
            let o = t.options[i];
            let props = tool_spec(t).input_schema.properties;
            &&& props.contains_key(o.name)
            &&& props[o.name].description == o.description
            &&& props[o.name].minimum == o.minimum
            &&& props[o.name].maximum == o.maximum
            &&& o.default != JsonVal::Null ==> props[o.name].default == Some(o.default)
            &&& (o.default == JsonVal::Null && o.option_type == OptionType::Boolean) ==> props[o.name].default == Some(
                JsonVal::Bool(false),
            )
            &&& (o.default == JsonVal::Null && o.option_type != OptionType::Boolean) ==> props[o.name].default is None
        }),
{
    let base = param_properties(t.params, t.params.len() as int);
    lemma_option_property_at(t.options, t.options.len() as int, base, i);
}

} // verus!
