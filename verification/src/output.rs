//! The text rt shows people: usage lines, task help, the task list and
//! warnings. Printing, colour and terminal detection stay with the caller.
use vstd::prelude::*;
use crate::json::json_text;
use crate::metadata::{
    task_names, GemRequirement, GemView, Metadata, OptionType, OptionView, Param, ParamView, Source, Task, TaskOption,
    TaskView,
};
use crate::sort::{stable_order, stable_sort_by_name};
use crate::text::{decimal, decimal_text, join, join_strings, lemma_views_push, lossy_text, path_text, push_char, views};
use vstd::string::StringExecFns;
use vstd::string::StrSliceExecFns;
use vstd::utf8::encode_utf8;

verus! {

/// ` <name>` for a required param, ` [name]` for an optional one.
pub open spec fn param_usage(p: ParamView) -> Seq<char> {
    if p.required {
        " <"@ + p.name + ">"@
    } else {
        " ["@ + p.name + "]"@
    }
}

/// The usage fragments of a list of params.
pub open spec fn params_usage(params: Seq<ParamView>) -> Seq<char>
    decreases params.len(),
{
    if params.len() == 0 {
        seq![]
    } else {
        params_usage(params.drop_last()) + param_usage(params.last())
    }
}

/// The usage fragments ` [--name]` of a list of options.
pub open spec fn options_usage(options: Seq<OptionView>) -> Seq<char>
    decreases options.len(),
{
    if options.len() == 0 {
        seq![]
    } else {
        options_usage(options.drop_last()) + " [--"@ + options.last().name + "]"@
    }
}

/// The one-line usage of a task used in validation messages.
pub open spec fn usage_text(t: TaskView) -> Seq<char> {
    "rt run "@ + t.name + params_usage(t.params) + options_usage(t.options)
}

/// Appends the usage fragments of the task's params.
pub fn push_params_usage(out: &mut String, task: &Task)
    ensures
        final(out)@ == old(out)@ + params_usage(task@.params),
{
    let ghost start = out@;
    let ghost params = task@.params;
    let mut i: usize = 0;
    while i < task.params.len()
        invariant
            i <= task.params@.len(),
            params == task@.params,
            params.len() == task.params@.len(),
            out@ == start + params_usage(params.take(i as int)),
        decreases task.params@.len() - i,
    {
        let p = &task.params[i];
        assert(params[i as int] == p@);
        if p.required {
            out.append(" <");
            out.append(p.name.as_str());
            out.append(">");
        } else {
            out.append(" [");
            out.append(p.name.as_str());
            out.append("]");
        }
        assert(params.take(i + 1).drop_last() =~= params.take(i as int));
        assert(out@ =~= start + params_usage(params.take(i + 1)));
        i = i + 1;
    }
    assert(params.take(task.params@.len() as int) =~= params);
}

/// Build a one-line usage string for validation error messages.
pub fn usage_line(task: &Task) -> (r: String)
    ensures
        r@ == usage_text(task@),
{
    let mut usage = String::from_str("rt run ");
    usage.append(task.name.as_str());
    push_params_usage(&mut usage, task);
    let ghost start = usage@;
    let ghost options = task@.options;
    let mut i: usize = 0;
    while i < task.options.len()
        invariant
            i <= task.options@.len(),
            options == task@.options,
            options.len() == task.options@.len(),
            usage@ == start + options_usage(options.take(i as int)),
        decreases task.options@.len() - i,
    {
        assert(options[i as int] == task.options@[i as int]@);
        usage.append(" [--");
        usage.append(task.options[i].name.as_str());
        usage.append("]");
        assert(options.take(i + 1).drop_last() =~= options.take(i as int));
        assert(usage@ =~= start + options_usage(options.take(i + 1)));
        i = i + 1;
    }
    assert(options.take(task.options@.len() as int) =~= options);
    usage
}

/// ` (a, b)`-style text of a list, or nothing when it is empty.
pub open spec fn gem_text(g: GemView) -> Seq<char> {
    if g.requirements.len() == 0 {
        g.name
    } else {
        g.name + " ("@ + join(g.requirements, ", "@) + ")"@
    }
}

/// The name of an option type as help shows it.
pub open spec fn option_type_name(t: OptionType) -> Seq<char> {
    match t {
        OptionType::String => "string"@,
        OptionType::Integer => "integer"@,
        OptionType::Boolean => "boolean"@,
    }
}

/// ` [range: lo..hi]` for an integer option with bounds; an open side is
/// left empty.
pub open spec fn range_part(minimum: Option<i64>, maximum: Option<i64>) -> Seq<char> {
    match (minimum, maximum) {
        (Some(lo), Some(hi)) => " [range: "@ + decimal(lo as int) + ".."@ + decimal(hi as int) + "]"@,
        (Some(lo), None) => " [range: "@ + decimal(lo as int) + "..]"@,
        (None, Some(hi)) => " [range: .."@ + decimal(hi as int) + "]"@,
        (None, None) => seq![],
    }
}

/// ` (default: json)` unless the default is `null`.
pub open spec fn default_part(v: crate::json::JsonVal) -> Seq<char> {
    if v == crate::json::JsonVal::Null {
        seq![]
    } else {
        " (default: "@ + json_text(v) + ")"@
    }
}

/// ` - description` when there is one.
pub open spec fn description_part(d: Option<Seq<char>>) -> Seq<char> {
    match d {
        Some(text) => " - "@ + text,
        None => seq![],
    }
}

/// A param's line in task help.
pub open spec fn param_line(p: ParamView) -> Seq<char> {
    "  "@ + p.name + (if p.required { " (required)"@ } else { seq![] }) + (match p.enum_values {
        Some(values) => " ["@ + join(values, ", "@) + "]"@,
        None => seq![],
    }) + default_part(p.default) + description_part(p.description)
}

/// An option's line in task help.
pub open spec fn option_line(o: OptionView) -> Seq<char> {
    "  --"@ + o.name + " <"@ + option_type_name(o.option_type) + ">"@ + range_part(o.minimum, o.maximum) + default_part(o.default)
        + description_part(o.description)
}

/// The line every task with options ends its help with.
pub open spec fn dry_run_line() -> Seq<char> {
    "  --dry-run  Preview without side effects"@
}

/// The usage line of task help.
pub open spec fn help_usage(t: TaskView) -> Seq<char> {
    "Usage: rt run "@ + t.name + params_usage(t.params) + (if t.options.len() > 0 { " [options]"@ } else { seq![] })
}

/// The description block of task help.
pub open spec fn description_block(t: TaskView) -> Seq<Seq<char>> {
    match t.description {
        Some(d) => seq![seq![], d],
        None => seq![],
    }
}

/// Where a global task lives, in task help.
pub open spec fn source_block(t: TaskView, source_path: Option<Seq<u8>>) -> Seq<Seq<char>> {
    match t.source {
        Source::Global => seq![
            match source_path {
                Some(p) => "Source: global ("@ + lossy_text(p) + ")"@,
                None => "Source: global"@,
            },
        ],
        Source::Project => seq![],
    }
}

/// The gems and requirements of task help.
pub open spec fn needs_block(t: TaskView) -> Seq<Seq<char>> {
    (if t.gems.len() > 0 {
        seq!["Gems: "@ + join(t.gems.map_values(|g: GemView| gem_text(g)), ", "@)]
    } else {
        seq![]
    }) + (if t.requirements.len() > 0 {
        seq!["Requires: "@ + join(t.requirements, ", "@)]
    } else {
        seq![]
    })
}

/// The params block of task help.
pub open spec fn params_block(t: TaskView) -> Seq<Seq<char>> {
    if t.params.len() > 0 {
        seq![seq![], "Params:"@] + t.params.map_values(|p: ParamView| param_line(p))
    } else {
        seq![]
    }
}

/// The options block of task help.
pub open spec fn options_block(t: TaskView) -> Seq<Seq<char>> {
    if t.options.len() > 0 {
        seq![seq![], "Options:"@] + t.options.map_values(|o: OptionView| option_line(o)) + seq![dry_run_line()]
    } else {
        seq![]
    }
}

/// The lines of `rt help <task>`, given the root of a global task.
pub open spec fn help_spec(t: TaskView, source_path: Option<Seq<u8>>) -> Seq<Seq<char>> {
    seq![help_usage(t)] + description_block(t) + source_block(t, source_path) + needs_block(t) + params_block(t)
        + options_block(t)
}

fn gem_line_text(g: &GemRequirement) -> (r: String)
    ensures
        r@ == gem_text(g@),
{
    let mut s = crate::text::copy_string(&g.name);
    if g.requirements.len() > 0 {
        s.append(" (");
        let reqs = join_strings(&g.requirements, ", ");
        s.append(reqs.as_str());
        s.append(")");
    }
    s
}

fn append_default(s: &mut String, v: &crate::json::JsonValue)
    ensures
        final(s)@ == old(s)@ + default_part(v@),
{
    if !v.is_null() {
        s.append(" (default: ");
        let t = v.to_json_text();
        s.append(t.as_str());
        s.append(")");
    }
}

fn append_description(s: &mut String, d: &Option<String>)
    ensures
        final(s)@ == old(s)@ + description_part(crate::metadata::opt_view(*d)),
{
    if let Some(text) = d {
        s.append(" - ");
        s.append(text.as_str());
    }
}

fn param_help_line(p: &Param) -> (r: String)
    ensures
        r@ == param_line(p@),
{
    let mut s = String::from_str("  ");
    s.append(p.name.as_str());
    if p.required {
        s.append(" (required)");
    }
    if let Some(values) = &p.enum_values {
        s.append(" [");
        let listed = join_strings(values, ", ");
        s.append(listed.as_str());
        s.append("]");
    }
    append_default(&mut s, &p.default);
    append_description(&mut s, &p.description);
    s
}

fn append_range(s: &mut String, minimum: Option<i64>, maximum: Option<i64>)
    ensures
        final(s)@ == old(s)@ + range_part(minimum, maximum),
{
    match (minimum, maximum) {
        (Some(lo), Some(hi)) => {
            s.append(" [range: ");
            let a = decimal_text(lo);
            s.append(a.as_str());
            s.append("..");
            let b = decimal_text(hi);
            s.append(b.as_str());
            s.append("]");
        },
        (Some(lo), None) => {
            s.append(" [range: ");
            let a = decimal_text(lo);
            s.append(a.as_str());
            s.append("..]");
        },
        (None, Some(hi)) => {
            s.append(" [range: ..");
            let b = decimal_text(hi);
            s.append(b.as_str());
            s.append("]");
        },
        (None, None) => {},
    }
}

fn option_help_line(o: &TaskOption) -> (r: String)
    ensures
        r@ == option_line(o@),
{
    let mut s = String::from_str("  --");
    s.append(o.name.as_str());
    s.append(" <");
    match o.option_type {
        OptionType::String => s.append("string"),
        OptionType::Integer => s.append("integer"),
        OptionType::Boolean => s.append("boolean"),
    }
    s.append(">");
    append_range(&mut s, o.minimum, o.maximum);
    append_default(&mut s, &o.default);
    append_description(&mut s, &o.description);
    s
}

fn push_line(lines: &mut Vec<String>, line: String)
    ensures
        views(final(lines)@) == views(old(lines)@).push(line@),
{
    let ghost before = lines@;
    lines.push(line);
    proof { lemma_views_push(before, line); }
}

fn push_head(lines: &mut Vec<String>, task: &Task, source_path: Option<&[u8]>)
    ensures
        views(final(lines)@) == views(old(lines)@) + seq![help_usage(task@)] + description_block(task@) + source_block(
            task@,
            match source_path { Some(p) => Some(p@), None => None },
        ),
{
    let ghost start = views(lines@);
    let mut usage = String::from_str("Usage: rt run ");
    usage.append(task.name.as_str());
    push_params_usage(&mut usage, task);
    if task.options.len() > 0 {
        usage.append(" [options]");
    }
    push_line(lines, usage);
    if let Some(d) = &task.description {
        push_line(lines, String::new());
        push_line(lines, crate::text::copy_string(d));
    }
    match task.source {
        Source::Global => {
            match source_path {
                Some(p) => {
                    let mut line = String::from_str("Source: global (");
                    let shown = path_text(p);
                    line.append(shown.as_str());
                    line.append(")");
                    push_line(lines, line);
                },
                None => push_line(lines, String::from_str("Source: global")),
            }
        },
        Source::Project => {},
    }
    assert(views(lines@) =~= start + seq![help_usage(task@)] + description_block(task@) + source_block(
        task@,
        match source_path { Some(p) => Some(p@), None => None },
    ));
}

fn push_needs(lines: &mut Vec<String>, task: &Task)
    ensures
        views(final(lines)@) == views(old(lines)@) + needs_block(task@),
{
    let ghost start = views(lines@);
    let ghost t = task@;
    if task.gems.len() > 0 {
        let ghost gv = t.gems.map_values(|g: GemView| gem_text(g));
        let mut gems: Vec<String> = Vec::new();
        let mut i: usize = 0;
        while i < task.gems.len()
            invariant
                i <= task.gems@.len(),
                t == task@,
                gv == t.gems.map_values(|g: GemView| gem_text(g)),
                views(gems@) == gv.take(i as int),
            decreases task.gems@.len() - i,
        {
            let g = gem_line_text(&task.gems[i]);
            assert(t.gems[i as int] == task.gems@[i as int]@);
            let ghost before = gems@;
            gems.push(g);
            proof {
                lemma_views_push(before, g);
                assert(gv.take(i + 1) =~= gv.take(i as int).push(gv[i as int]));
            }
            i = i + 1;
        }
        assert(gv.take(i as int) =~= gv);
        let mut line = String::from_str("Gems: ");
        let listed = join_strings(&gems, ", ");
        line.append(listed.as_str());
        push_line(lines, line);
    }
    if task.requirements.len() > 0 {
        let mut line = String::from_str("Requires: ");
        let listed = join_strings(&task.requirements, ", ");
        line.append(listed.as_str());
        push_line(lines, line);
    }
    assert(views(lines@) =~= start + needs_block(t));
}

fn push_params_block(lines: &mut Vec<String>, task: &Task)
    ensures
        views(final(lines)@) == views(old(lines)@) + params_block(task@),
{
    let ghost start = views(lines@);
    let ghost t = task@;
    if task.params.len() > 0 {
        push_line(lines, String::new());
        push_line(lines, String::from_str("Params:"));
        let ghost head = views(lines@);
        let ghost pl = t.params.map_values(|p: ParamView| param_line(p));
        let mut i: usize = 0;
        while i < task.params.len()
            invariant
                i <= task.params@.len(),
                t == task@,
                pl == t.params.map_values(|p: ParamView| param_line(p)),
                views(lines@) == head + pl.take(i as int),
            decreases task.params@.len() - i,
        {
            let line = param_help_line(&task.params[i]);
            assert(t.params[i as int] == task.params@[i as int]@);
            push_line(lines, line);
            assert(pl.take(i + 1) =~= pl.take(i as int).push(pl[i as int]));
            i = i + 1;
        }
        assert(pl.take(i as int) =~= pl);
    }
    assert(views(lines@) =~= start + params_block(t));
}

fn push_options_block(lines: &mut Vec<String>, task: &Task)
    ensures
        views(final(lines)@) == views(old(lines)@) + options_block(task@),
{
    let ghost start = views(lines@);
    let ghost t = task@;
    if task.options.len() > 0 {
        push_line(lines, String::new());
        push_line(lines, String::from_str("Options:"));
        let ghost head = views(lines@);
        let ghost ol = t.options.map_values(|o: OptionView| option_line(o));
        let mut i: usize = 0;
        while i < task.options.len()
            invariant
                i <= task.options@.len(),
                t == task@,
                ol == t.options.map_values(|o: OptionView| option_line(o)),
                views(lines@) == head + ol.take(i as int),
            decreases task.options@.len() - i,
        {
            let line = option_help_line(&task.options[i]);
            assert(t.options[i as int] == task.options@[i as int]@);
            push_line(lines, line);
            assert(ol.take(i + 1) =~= ol.take(i as int).push(ol[i as int]));
            i = i + 1;
        }
        assert(ol.take(i as int) =~= ol);
        push_line(lines, String::from_str("  --dry-run  Preview without side effects"));
    }
    assert(views(lines@) =~= start + options_block(t));
}

/// The lines of `rt help <task>`: usage, description, where a global task
/// lives, its gems and requirements, then its params and options.
pub fn help_lines(task: &Task, source_path: Option<&[u8]>) -> (r: Vec<String>)
    ensures
        views(r@) == help_spec(task@, match source_path { Some(p) => Some(p@), None => None }),
{
    let mut lines: Vec<String> = Vec::new();
    assert(views(lines@) =~= seq![]);
    push_head(&mut lines, task, source_path);
    push_needs(&mut lines, task);
    push_params_block(&mut lines, task);
    push_options_block(&mut lines, task);
    assert(views(lines@) =~= help_spec(task@, match source_path { Some(p) => Some(p@), None => None }));
    lines
}

/// The number of bytes of a name's UTF-8 encoding.
pub open spec fn byte_len(s: Seq<char>) -> int {
    encode_utf8(s).len() as int
}

/// The widest task name, in bytes; the task list pads names to it.
pub open spec fn name_width(ts: Seq<TaskView>) -> int
    decreases ts.len(),
{
    if ts.len() == 0 {
        0
    } else {
        let w = name_width(ts.drop_last());
        let b = byte_len(ts.last().name);
        if b > w { b } else { w }
    }
}

/// `n` spaces, none when `n` is not positive.
pub open spec fn spaces(n: int) -> Seq<char> {
    Seq::new(if n > 0 { n as nat } else { 0 }, |i: int| ' ')
}

/// A task's row in the task list: its name padded to `width` characters
/// and its description.
pub open spec fn row_text(t: TaskView, width: int) -> Seq<char> {
    "  "@ + t.name + spaces(width - t.name.len()) + "  "@ + match t.description {
        Some(d) => d,
        None => seq![],
    }
}

/// The tasks of one source, in order.
pub open spec fn section(ts: Seq<TaskView>, s: Source) -> Seq<TaskView>
    decreases ts.len(),
{
    if ts.len() == 0 {
        seq![]
    } else if ts.last().source == s {
        section(ts.drop_last(), s).push(ts.last())
    } else {
        section(ts.drop_last(), s)
    }
}

/// The rows of a section in the order `idx`.
pub open spec fn rows(ts: Seq<TaskView>, idx: Seq<usize>, width: int) -> Seq<Seq<char>> {
    idx.map_values(|i: usize| row_text(ts[i as int], width))
}

/// The lines of `rt list`, given the name order of each section. Sections
/// are labelled only when both have tasks.
pub open spec fn list_spec(ts: Seq<TaskView>, project_order: Seq<usize>, global_order: Seq<usize>) -> Seq<Seq<char>> {
    if ts.len() == 0 {
        seq!["No tasks defined."@]
    } else {
        let w = name_width(ts);
        let p = section(ts, Source::Project);
        let g = section(ts, Source::Global);
        let labeled = p.len() > 0 && g.len() > 0;
        (if labeled { seq!["Project tasks:"@] } else { seq![] }) + rows(p, project_order, w) + (if labeled {
            seq![seq![], "Global tasks:"@]
        } else {
            seq![]
        }) + rows(g, global_order, w)
    }
}

fn row_line(t: &Task, width: usize) -> (r: String)
    ensures
        r@ == row_text(t@, width as int),
{
    let mut s = String::from_str("  ");
    s.append(t.name.as_str());
    let n = t.name.as_str().unicode_len();
    let ghost head = s@;
    let pad: usize = if width > n { width - n } else { 0 };
    let mut k: usize = 0;
    while k < pad
        invariant
            k <= pad,
            s@ == head + spaces(k as int),
        decreases pad - k,
    {
        push_char(&mut s, ' ');
        assert(s@ =~= head + spaces(k + 1));
        k = k + 1;
    }
    assert(spaces(pad as int) =~= spaces(width - t@.name.len()));
    s.append("  ");
    if let Some(d) = &t.description {
        s.append(d.as_str());
    }
    s
}

/// The positions and names of the tasks of one source.
fn section_of(meta: &Metadata, src: Source) -> (r: (Vec<usize>, Vec<String>))
    ensures
        r.0@.len() == section(meta@.tasks, src).len(),
        forall|k: int| 0 <= k < r.0@.len() ==> #[trigger] r.0@[k] < meta.tasks@.len()
            && meta@.tasks[r.0@[k] as int] == section(meta@.tasks, src)[k],
        views(r.1@) == task_names(section(meta@.tasks, src)),
{
    let ghost ts = meta@.tasks;
    let mut pos: Vec<usize> = Vec::new();
    let mut names: Vec<String> = Vec::new();
    let mut i: usize = 0;
    while i < meta.tasks.len()
        invariant
            i <= meta.tasks@.len(),
            ts == meta@.tasks,
            ts.len() == meta.tasks@.len(),
            pos@.len() == section(ts.take(i as int), src).len(),
            forall|k: int| 0 <= k < pos@.len() ==> #[trigger] pos@[k] < meta.tasks@.len()
                && ts[pos@[k] as int] == section(ts.take(i as int), src)[k],
            views(names@) == task_names(section(ts.take(i as int), src)),
        decreases meta.tasks@.len() - i,
    {
        assert(ts.take(i + 1).drop_last() =~= ts.take(i as int));
        assert(ts.take(i + 1).last() == ts[i as int]);
        assert(ts[i as int] == meta.tasks@[i as int]@);
        if meta.tasks[i].source == src {
            let ghost before = names@;
            let name = crate::text::copy_string(&meta.tasks[i].name);
            pos.push(i);
            names.push(name);
            proof {
                lemma_views_push(before, name);
                let sec = section(ts.take(i + 1), src);
                assert(sec == section(ts.take(i as int), src).push(ts[i as int]));
                assert(task_names(sec) =~= task_names(section(ts.take(i as int), src)).push(ts[i as int].name));
            }
        }
        i = i + 1;
    }
    assert(ts.take(i as int) =~= ts);
    (pos, names)
}

fn push_rows(lines: &mut Vec<String>, meta: &Metadata, pos: &Vec<usize>, order: &Vec<usize>, width: usize)
    requires
        forall|k: int| 0 <= k < pos@.len() ==> #[trigger] pos@[k] < meta.tasks@.len(),
        forall|k: int| 0 <= k < order@.len() ==> #[trigger] order@[k] < pos@.len(),
    ensures
        views(final(lines)@) == views(old(lines)@) + order@.map_values(
            |i: usize| row_text(meta@.tasks[pos@[i as int] as int], width as int),
        ),
{
    let ghost start = views(lines@);
    let ghost want = order@.map_values(|i: usize| row_text(meta@.tasks[pos@[i as int] as int], width as int));
    let mut k: usize = 0;
    while k < order.len()
        invariant
            k <= order@.len(),
            forall|j: int| 0 <= j < pos@.len() ==> #[trigger] pos@[j] < meta.tasks@.len(),
            forall|j: int| 0 <= j < order@.len() ==> #[trigger] order@[j] < pos@.len(),
            want == order@.map_values(|i: usize| row_text(meta@.tasks[pos@[i as int] as int], width as int)),
            views(lines@) == start + want.take(k as int),
        decreases order@.len() - k,
    {
        let j = order[k];
        assert(order@[k as int] < pos@.len());
        let p = pos[j];
        assert(pos@[j as int] < meta.tasks@.len());
        let line = row_line(&meta.tasks[p], width);
        assert(meta@.tasks[p as int] == meta.tasks@[p as int]@);
        push_line(lines, line);
        assert(want.take(k + 1) =~= want.take(k as int).push(want[k as int]));
        k = k + 1;
    }
    assert(want.take(k as int) =~= want);
}

/// The lines of `rt list`: "No tasks defined." when there are none; else
/// one row per task sorted by name, under `Project tasks:` and `Global
/// tasks:` headings when both sources have tasks.
pub fn list_lines(meta: &Metadata) -> (r: Vec<String>)
    ensures
        exists|po: Seq<usize>, go: Seq<usize>|
            stable_order(task_names(section(meta@.tasks, Source::Project)), po) && stable_order(
                task_names(section(meta@.tasks, Source::Global)),
                go,
            ) && views(r@) == list_spec(meta@.tasks, po, go),
{
    let ghost ts = meta@.tasks;
    let mut lines: Vec<String> = Vec::new();
    let (ppos, pnames) = section_of(meta, Source::Project);
    let (gpos, gnames) = section_of(meta, Source::Global);
    let porder = stable_sort_by_name(&pnames);
    let gorder = stable_sort_by_name(&gnames);
    if meta.tasks.len() == 0 {
        push_line(&mut lines, String::from_str("No tasks defined."));
        assert(views(lines@) =~= list_spec(ts, porder@, gorder@));
        return lines;
    }
    let mut width: usize = 0;
    let mut i: usize = 0;
    while i < meta.tasks.len()
        invariant
            i <= meta.tasks@.len(),
            ts == meta@.tasks,
            width == name_width(ts.take(i as int)),
        decreases meta.tasks@.len() - i,
    {
        let b = meta.tasks[i].name.as_str().as_bytes().len();
        assert(ts.take(i + 1).drop_last() =~= ts.take(i as int));
        assert(ts[i as int] == meta.tasks@[i as int]@);
        if b > width {
            width = b;
        }
        i = i + 1;
    }
    assert(ts.take(i as int) =~= ts);
    let ghost p = section(ts, Source::Project);
    let ghost g = section(ts, Source::Global);
    assert(pnames@.len() == p.len() && gnames@.len() == g.len()) by {
        assert(views(pnames@).len() == pnames@.len());
        assert(views(gnames@).len() == gnames@.len());
    }
    let labeled = ppos.len() > 0 && gpos.len() > 0;
    assert forall|k: int| 0 <= k < porder@.len() implies #[trigger] porder@[k] < ppos@.len() by {
        assert(porder@[k] < task_names(p).len());
    }
    assert forall|k: int| 0 <= k < gorder@.len() implies #[trigger] gorder@[k] < gpos@.len() by {
        assert(gorder@[k] < task_names(g).len());
    }
    if labeled {
        push_line(&mut lines, String::from_str("Project tasks:"));
    }
    push_rows(&mut lines, meta, &ppos, &porder, width);
    assert(porder@.map_values(|i: usize| row_text(meta@.tasks[ppos@[i as int] as int], width as int)) =~= rows(
        p,
        porder@,
        width as int,
    ));
    if labeled {
        push_line(&mut lines, String::new());
        push_line(&mut lines, String::from_str("Global tasks:"));
    }
    push_rows(&mut lines, meta, &gpos, &gorder, width);
    assert(gorder@.map_values(|i: usize| row_text(meta@.tasks[gpos@[i as int] as int], width as int)) =~= rows(
        g,
        gorder@,
        width as int,
    ));
    assert(views(lines@) =~= list_spec(ts, porder@, gorder@));
    lines
}

/// A load error as a warning: `file (class): message`.
pub open spec fn load_error_warning_text(e: crate::metadata::LoadErrorView) -> Seq<char> {
    e.file + " ("@ + e.class + "): "@ + e.message
}

/// The warnings rt prints for the load errors of discovery, one per error.
pub fn load_error_warnings(meta: &Metadata) -> (r: Vec<String>)
    ensures
        views(r@) == meta@.errors.map_values(|e: crate::metadata::LoadErrorView| load_error_warning_text(e)),
{
    let ghost want = meta@.errors.map_values(|e: crate::metadata::LoadErrorView| load_error_warning_text(e));
    let mut lines: Vec<String> = Vec::new();
    let mut i: usize = 0;
    while i < meta.errors.len()
        invariant
            i <= meta.errors@.len(),
            want == meta@.errors.map_values(|e: crate::metadata::LoadErrorView| load_error_warning_text(e)),
            want.len() == meta.errors@.len(),
            views(lines@) == want.take(i as int),
        decreases meta.errors@.len() - i,
    {
        let e = &meta.errors[i];
        let mut line = crate::text::copy_string(&e.file);
        line.append(" (");
        line.append(e.class.as_str());
        line.append("): ");
        line.append(e.message.as_str());
        assert(want[i as int] == load_error_warning_text(e@));
        push_line(&mut lines, line);
        assert(want.take(i + 1) =~= want.take(i as int).push(want[i as int]));
        i = i + 1;
    }
    assert(want.take(i as int) =~= want);
    lines
}

/// An option's help line ends with ` - ` and its description whenever it
/// has one, whatever its type, range or default: the line with a
/// description is the line without it followed by that text.
pub proof fn law_option_line_shows_description(o: OptionView)
    ensures
        o.description matches Some(d) ==> option_line(o) == option_line(OptionView { description: None, ..o }) + " - "@ + d,
        o.description is None ==> option_line(o) == "  --"@ + o.name + " <"@ + option_type_name(o.option_type) + ">"@
            + range_part(o.minimum, o.maximum) + default_part(o.default),
{
    if let Some(d) = o.description {
        assert(option_line(o) =~= option_line(OptionView { description: None, ..o }) + " - "@ + d);
    } else {
        assert(option_line(o) =~= "  --"@ + o.name + " <"@ + option_type_name(o.option_type) + ">"@
            + range_part(o.minimum, o.maximum) + default_part(o.default));
    }
}

/// A param's help line likewise ends with ` - ` and its description
/// whenever it has one, whatever else it shows.
pub proof fn law_param_line_shows_description(p: ParamView)
    ensures
        p.description matches Some(d) ==> param_line(p) == param_line(ParamView { description: None, ..p }) + " - "@ + d,
{
    if let Some(d) = p.description {
        assert(param_line(p) =~= param_line(ParamView { description: None, ..p }) + " - "@ + d);
    }
}

/// The two sources split the tasks between them.
proof fn lemma_sections_split(ts: Seq<TaskView>)
    ensures
        section(ts, Source::Project).len() + section(ts, Source::Global).len() == ts.len(),
    decreases ts.len(),
{
    if ts.len() > 0 {
        lemma_sections_split(ts.drop_last());
    }
}

/// A source with a task has a non-empty section.
proof fn lemma_section_has(ts: Seq<TaskView>, s: Source, i: int)
    requires
        0 <= i < ts.len(),
        ts[i].source == s,
    ensures
        section(ts, s).len() > 0,
    decreases ts.len(),
{
    if ts.last().source != s {
        lemma_section_has(ts.drop_last(), s, i);
    }
}

/// When every task comes from one source, its section is all of them.
proof fn lemma_section_whole(ts: Seq<TaskView>, s: Source)
    requires
        forall|i: int| 0 <= i < ts.len() ==> #[trigger] ts[i].source == s,
    ensures
        section(ts, s) == ts,
    decreases ts.len(),
{
    if ts.len() > 0 {
        let d = ts.drop_last();
        assert forall|i: int| 0 <= i < d.len() implies #[trigger] d[i].source == s by {
            assert(d[i] == ts[i]);
        }
        lemma_section_whole(d, s);
        assert(d.push(ts.last()) =~= ts);
    }
}

/// `rt list` puts headings over its sections exactly when both sources have
/// tasks: then the lines are `Project tasks:`, the project rows, an empty
/// line, `Global tasks:` and the global rows. When only one source has
/// tasks, the lines are just one row per task, in name order, with no
/// heading.
pub proof fn law_list_headings_only_with_both_sources(ts: Seq<TaskView>, po: Seq<usize>, go: Seq<usize>)
    requires
        ts.len() > 0,
        stable_order(task_names(section(ts, Source::Project)), po),
        stable_order(task_names(section(ts, Source::Global)), go),
    ensures
        ({
            let lines = list_spec(ts, po, go);
            let np = section(ts, Source::Project).len() as int;
            let has_project = exists|i: int| 0 <= i < ts.len() && ts[i].source == Source::Project;
            let has_global = exists|i: int| 0 <= i < ts.len() && ts[i].source == Source::Global;
            &&& (has_project && has_global) ==> (lines.len() == ts.len() + 3 && lines[0] == "Project tasks:"@
                && lines[np + 1] == Seq::<char>::empty() && lines[np + 2] == "Global tasks:"@)
            &&& !has_global ==> (lines.len() == ts.len() && stable_order(task_names(ts), po) && forall|k: int|
                0 <= k < lines.len() ==> #[trigger] lines[k] == row_text(ts[po[k] as int], name_width(ts)))
            &&& !has_project ==> (lines.len() == ts.len() && stable_order(task_names(ts), go) && forall|k: int|
                0 <= k < lines.len() ==> #[trigger] lines[k] == row_text(ts[go[k] as int], name_width(ts)))
        }),
{
    let lines = list_spec(ts, po, go);
    let w = name_width(ts);
    let p = section(ts, Source::Project);
    let g = section(ts, Source::Global);
    let has_project = exists|i: int| 0 <= i < ts.len() && ts[i].source == Source::Project;
    let has_global = exists|i: int| 0 <= i < ts.len() && ts[i].source == Source::Global;
    lemma_sections_split(ts);
    assert(po.len() == p.len() && go.len() == g.len());
    assert(rows(p, po, w).len() == p.len());
    assert(rows(g, go, w).len() == g.len());
    if has_project && has_global {
        let i = choose|i: int| 0 <= i < ts.len() && ts[i].source == Source::Project;
        let j = choose|j: int| 0 <= j < ts.len() && ts[j].source == Source::Global;
        lemma_section_has(ts, Source::Project, i);
        lemma_section_has(ts, Source::Global, j);
        let head = seq!["Project tasks:"@];
        let mid = seq![Seq::<char>::empty(), "Global tasks:"@];
        assert(lines == head + rows(p, po, w) + mid + rows(g, go, w));
        assert((head + rows(p, po, w) + mid + rows(g, go, w))[p.len() + 1int] == mid[0]);
        assert((head + rows(p, po, w) + mid + rows(g, go, w))[p.len() + 2int] == mid[1]);
    }
    if !has_global {
        assert forall|i: int| 0 <= i < ts.len() implies #[trigger] ts[i].source == Source::Project by {
            if ts[i].source == Source::Global {
                assert(has_global);
            }
        }
        lemma_section_whole(ts, Source::Project);
        assert(g.len() == 0);
        assert(lines =~= rows(ts, po, w));
    }
    if !has_project {
        assert forall|i: int| 0 <= i < ts.len() implies #[trigger] ts[i].source == Source::Global by {
            if ts[i].source == Source::Project {
                assert(has_project);
            }
        }
        lemma_section_whole(ts, Source::Global);
        assert(p.len() == 0);
        assert(lines =~= rows(ts, go, w));
    }
}

} // verus!
