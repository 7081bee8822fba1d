//! Decisions around running tasks: merging project and global metadata,
//! naming an unknown task, and preparing a run.
use vstd::prelude::*;
use crate::args::{parse, parse_spec, usage_error_text, ParsedArgs};
use crate::error::{failure_error, spec_exit_code, HarnessFailure, RtError};
use crate::json::{entry_keys, json_escape, json_quoted, object_text};
use crate::ruby::{isolated_ruby, RubyCommand, RubyView};
use crate::run_result::{capture_of, failed, plain_error, run_error_spec, succeeded, CapturedBytes, ErrorKind, RunResult, RunStatus};
use crate::metadata::{
    task_names, task_views, error_views, lemma_task_views_push, lemma_task_views_skip1,
    lemma_error_views_push, lemma_error_views_skip1, copy_load_errors, first_match, LoadError, LoadErrorView, Metadata, MetadataView, Source, Task, TaskView,
    METADATA_SCHEMA_VERSION,
};
use crate::output::{help_lines, help_spec};
use crate::sort::{stable_order, stable_sort_by_name};
use crate::text::{copy_string, debug_quoted, debug_text, join, lemma_views_push, str_eq, views};
use vstd::string::StringExecFns;

verus! {

/// Tasks with their origin set.
pub open spec fn tagged_tasks(ts: Seq<TaskView>, s: Source) -> Seq<TaskView> {
    ts.map_values(|t: TaskView| TaskView { source: s, ..t })
}

/// Load errors with their origin set.
pub open spec fn tagged_errors(es: Seq<LoadErrorView>, s: Source) -> Seq<LoadErrorView> {
    es.map_values(|e: LoadErrorView| LoadErrorView { source: s, ..e })
}

/// The warning recorded for a global task hidden by a project task.
pub open spec fn shadow_error(t: TaskView) -> LoadErrorView {
    LoadErrorView {
        file: t.file,
        class: "ShadowedTask"@,
        message: "global task "@ + debug_text(t.name) + " is hidden by a project task of the same name"@,
        source: Source::Global,
    }
}

/// Global tasks kept and the warnings for those dropped: a global task is
/// dropped when its name is already taken by a project task or an earlier
/// global task.
pub open spec fn global_pass(gt: Seq<TaskView>, taken: Seq<Seq<char>>) -> (Seq<TaskView>, Seq<LoadErrorView>)
    decreases gt.len(),
{
    if gt.len() == 0 {
        (seq![], seq![])
    } else {
        let (kept, shadowed) = global_pass(gt.drop_last(), taken);
        let t = TaskView { source: Source::Global, ..gt.last() };
        if (taken + task_names(kept)).contains(t.name) {
            (kept, shadowed.push(shadow_error(t)))
        } else {
            (kept.push(t), shadowed)
        }
    }
}

/// Project and global metadata merged into one name-unique task list:
/// project tasks first, then the global tasks whose names are still free;
/// project errors, then one `ShadowedTask` warning per dropped global task,
/// then global errors. Every entry carries its origin.
pub open spec fn merge_spec(project: Option<MetadataView>, global: Option<MetadataView>) -> MetadataView {
    let pt = match project {
        Some(m) => tagged_tasks(m.tasks, Source::Project),
        None => seq![],
    };
    let pe = match project {
        Some(m) => tagged_errors(m.errors, Source::Project),
        None => seq![],
    };
    let gp = match global {
        Some(m) => global_pass(m.tasks, task_names(pt)),
        None => (seq![], seq![]),
    };
    let ge = match global {
        Some(m) => tagged_errors(m.errors, Source::Global),
        None => seq![],
    };
    MetadataView { schema_version: METADATA_SCHEMA_VERSION, tasks: pt + gp.0, errors: pe + gp.1 + ge }
}

/// The view of an optional metadata document.
pub open spec fn opt_meta_view(m: Option<Metadata>) -> Option<MetadataView> {
    match m {
        Some(v) => Some(v@),
        None => None,
    }
}

fn contains_name(names: &Vec<String>, name: &str) -> (r: bool)
    ensures
        r == views(names@).contains(name@),
{
    let mut i: usize = 0;
    while i < names.len()
        invariant
            i <= names@.len(),
            forall|k: int| 0 <= k < i ==> names@[k]@ != name@,
        decreases names@.len() - i,
    {
        if str_eq(names[i].as_str(), name) {
            assert(views(names@)[i as int] == name@);
            return true;
        }
        i = i + 1;
    }
    assert forall|k: int| 0 <= k < views(names@).len() implies views(names@)[k] != name@ by {
        assert(views(names@)[k] == names@[k]@);
    }
    false
}

/// Moves errors into `out`, tagging each with `source`.
fn push_tagged_errors(out: &mut Vec<LoadError>, errors: Vec<LoadError>, source: Source)
    ensures
        final(out)@.map_values(|e: LoadError| e@) == old(out)@.map_values(|e: LoadError| e@)
            + tagged_errors(error_views(errors@), source),
{
    let ghost orig = error_views(errors@);
    let ghost start = error_views(out@);
    let mut rest = errors;
    let ghost mut k: int = 0;
    assert(orig.skip(0) =~= orig);
    assert(orig.take(0) =~= seq![]);
    assert(tagged_errors(seq![], source) =~= seq![]);
    assert(error_views(out@) =~= start + tagged_errors(orig.take(0), source));
    while rest.len() > 0
        invariant
            0 <= k <= orig.len(),
            rest@.len() + k == orig.len(),
            error_views(rest@) == orig.skip(k as int),
            error_views(out@) == start + tagged_errors(orig.take(k as int), source),
        decreases rest@.len(),
    {
        let ghost before = rest@;
        let ghost before_out = out@;
        let mut e = rest.remove(0);
        proof {
            lemma_error_views_skip1(before);
            assert(rest@ =~= before.skip(1));
            assert(orig.skip(k as int)[0] == orig[k as int]);
            assert(orig.skip(k as int).skip(1) =~= orig.skip(k + 1));
        }
        e.source = source;
        let ghost ev = e@;
        out.push(e);
        proof {
            lemma_error_views_push(before_out, e);
            assert(orig.take(k + 1) =~= orig.take(k as int).push(orig[k as int]));
            assert(tagged_errors(orig.take(k + 1), source) =~= tagged_errors(orig.take(k as int), source).push(ev));
            assert(error_views(out@) =~= start + tagged_errors(orig.take(k + 1), source));
            k = k + 1;
        }
    }
    assert(orig.skip(k as int).len() == 0);
    assert(orig.take(k as int) =~= orig);
}

/// The `ShadowedTask` warning for a global task hidden by a project task.
fn shadowed_task_error(t: &Task) -> (r: LoadError)
    ensures
        r@ == shadow_error(TaskView { source: Source::Global, ..t@ }),
{
    let mut message = String::from_str("global task ");
    let quoted = debug_quoted(t.name.as_str());
    message.append(quoted.as_str());
    message.append(" is hidden by a project task of the same name");
    LoadError {
        file: copy_string(&t.file),
        class: String::from_str("ShadowedTask"),
        message,
        source: Source::Global,
    }
}

/// Merge project and global metadata into a single name-unique task list.
/// Project wins name collisions; the hidden global task is dropped and
/// recorded as a `ShadowedTask` warning.
pub fn merge(project: Option<Metadata>, global: Option<Metadata>) -> (r: Metadata)
    ensures
        r@ == merge_spec(opt_meta_view(project), opt_meta_view(global)),
{
    let ghost spec = merge_spec(opt_meta_view(project), opt_meta_view(global));
    let mut tasks: Vec<Task> = Vec::new();
    let mut errors: Vec<LoadError> = Vec::new();
    let mut names: Vec<String> = Vec::new();
    let ghost pt: Seq<TaskView> = seq![];
    let ghost pe: Seq<LoadErrorView> = seq![];
    let mut global_errors: Vec<LoadError> = Vec::new();
    if let Some(m) = project {
        let ghost orig = m@.tasks;
        proof {
            pt = tagged_tasks(orig, Source::Project);
            pe = tagged_errors(m@.errors, Source::Project);
        }
        let mut rest = m.tasks;
        let ghost mut k: int = 0;
        assert(orig.skip(0) =~= orig);
        assert(orig.take(0) =~= seq![]);
        assert(tagged_tasks(seq![], Source::Project) =~= seq![]);
        assert(task_views(tasks@) =~= tagged_tasks(orig.take(0), Source::Project));
        assert(views(names@) =~= task_names(tagged_tasks(orig.take(0), Source::Project)));
        while rest.len() > 0
            invariant
                0 <= k <= orig.len(),
                pt == tagged_tasks(orig, Source::Project),
                rest@.len() + k == orig.len(),
                task_views(rest@) == orig.skip(k as int),
                task_views(tasks@) == tagged_tasks(orig.take(k as int), Source::Project),
                views(names@) == task_names(tagged_tasks(orig.take(k as int), Source::Project)),
            decreases rest@.len(),
        {
            let ghost before = rest@;
            let ghost before_tasks = tasks@;
            let ghost before_names = names@;
            let mut t = rest.remove(0);
            proof {
                lemma_task_views_skip1(before);
                assert(rest@ =~= before.skip(1));
                assert(orig.skip(k as int)[0] == orig[k as int]);
                assert(orig.skip(k as int).skip(1) =~= orig.skip(k + 1));
            }
            t.source = Source::Project;
            let ghost tv = t@;
            let name = copy_string(&t.name);
            names.push(name);
            tasks.push(t);
            proof {
                lemma_task_views_push(before_tasks, t);
                lemma_views_push(before_names, name);
                assert(orig.take(k + 1) =~= orig.take(k as int).push(orig[k as int]));
                assert(tagged_tasks(orig.take(k + 1), Source::Project) =~= tagged_tasks(orig.take(k as int), Source::Project).push(tv));
                assert(task_names(tagged_tasks(orig.take(k + 1), Source::Project)) =~= task_names(tagged_tasks(orig.take(k as int), Source::Project)).push(tv.name));
            }
            proof {
                k = k + 1;
            }
        }
        assert(orig.skip(k as int).len() == 0);
        assert(orig.take(k as int) =~= orig);
        push_tagged_errors(&mut errors, m.errors, Source::Project);
        assert(error_views(errors@) =~= pe);
    } else {
        assert(task_views(tasks@) =~= pt);
        assert(error_views(errors@) =~= pe);
        assert(views(names@) =~= task_names(pt));
    }
    let ghost taken = task_names(pt);
    assert(views(names@) == taken);
    if let Some(m) = global {
        let ghost orig = m@.tasks;
        let mut rest = m.tasks;
        let ghost mut k: int = 0;
        assert(orig.skip(0) =~= orig);
        assert(orig.take(0) =~= seq![]);
        assert(global_pass(orig.take(0), taken) == (Seq::<TaskView>::empty(), Seq::<LoadErrorView>::empty()));
        assert(task_views(tasks@) =~= pt + global_pass(orig.take(0), taken).0);
        assert(error_views(errors@) =~= pe + global_pass(orig.take(0), taken).1);
        assert(views(names@) =~= taken + task_names(global_pass(orig.take(0), taken).0));
        while rest.len() > 0
            invariant
                0 <= k <= orig.len(),
                rest@.len() + k == orig.len(),
                task_views(rest@) == orig.skip(k as int),
                task_views(tasks@) == pt + global_pass(orig.take(k as int), taken).0,
                error_views(errors@) == pe + global_pass(orig.take(k as int), taken).1,
                views(names@) == taken + task_names(global_pass(orig.take(k as int), taken).0),
            decreases rest@.len(),
        {
            let ghost before = rest@;
            let ghost before_tasks = tasks@;
            let ghost before_errors = errors@;
            let ghost before_names = names@;
            let ghost prev = global_pass(orig.take(k as int), taken);
            let mut t = rest.remove(0);
            proof {
                lemma_task_views_skip1(before);
                assert(rest@ =~= before.skip(1));
                assert(orig.skip(k as int)[0] == orig[k as int]);
                assert(orig.skip(k as int).skip(1) =~= orig.skip(k + 1));
                assert(orig.take(k + 1).drop_last() =~= orig.take(k as int));
                assert(orig.take(k + 1).last() == orig[k as int]);
            }
            t.source = Source::Global;
            let ghost tv = t@;
            assert(tv == TaskView { source: Source::Global, ..orig[k as int] });
            if contains_name(&names, t.name.as_str()) {
                let shadow = shadowed_task_error(&t);
                errors.push(shadow);
                proof {
                    lemma_error_views_push(before_errors, shadow);
                    assert(error_views(errors@) =~= pe + global_pass(orig.take(k + 1), taken).1);
                }
            } else {
                let name = copy_string(&t.name);
                names.push(name);
                tasks.push(t);
                proof {
                    lemma_task_views_push(before_tasks, t);
                    lemma_views_push(before_names, name);
                    assert(task_names(prev.0.push(tv)) =~= task_names(prev.0).push(tv.name));
                    assert(task_views(tasks@) =~= pt + global_pass(orig.take(k + 1), taken).0);
                    assert(views(names@) =~= taken + task_names(global_pass(orig.take(k + 1), taken).0));
                }
            }
            proof {
                k = k + 1;
            }
        }
        assert(orig.skip(k as int).len() == 0);
        assert(orig.take(k as int) =~= orig);
        global_errors = m.errors;
    } else {
        assert(task_views(tasks@) =~= pt + spec.tasks.skip(pt.len() as int));
    }
    let ghost ge_orig = error_views(global_errors@);
    push_tagged_errors(&mut errors, global_errors, Source::Global);
    let r = Metadata { schema_version: METADATA_SCHEMA_VERSION, tasks, errors };
    assert(r@.tasks =~= spec.tasks);
    assert(r@.errors =~= spec.errors);
    r
}

/// The usage error for a task name that no discovered task has: it lists
/// the available task names in sorted order.
pub open spec fn unknown_task_text(names: Seq<Seq<char>>, idx: Seq<usize>, task: Seq<char>) -> Seq<char> {
    "unknown task "@ + debug_text(task) + ". Available tasks: "@ + join(idx.map_values(|i: usize| names[i as int]), ", "@)
}

/// The usage error for an unknown task name.
pub fn unknown_task(meta: &Metadata, task: &str) -> (r: RtError)
    ensures
        exists|idx: Seq<usize>| stable_order(task_names(meta@.tasks), idx)
            && (r matches RtError::Usage(m) && m@ == unknown_task_text(task_names(meta@.tasks), idx, task@)),
{
    let ghost all = task_names(meta@.tasks);
    let mut names: Vec<String> = Vec::new();
    let mut i: usize = 0;
    while i < meta.tasks.len()
        invariant
            i <= meta.tasks@.len(),
            all == task_names(meta@.tasks),
            views(names@) == all.take(i as int),
        decreases meta.tasks@.len() - i,
    {
        let ghost before = names@;
        let name = copy_string(&meta.tasks[i].name);
        names.push(name);
        proof {
            lemma_views_push(before, name);
            assert(all[i as int] == meta.tasks@[i as int].name@);
            assert(all.take(i + 1) =~= all.take(i as int).push(all[i as int]));
        }
        i = i + 1;
    }
    assert(all.take(i as int) =~= all);
    let idx = stable_sort_by_name(&names);
    let mut sorted: Vec<String> = Vec::new();
    let mut k: usize = 0;
    while k < idx.len()
        invariant
            k <= idx@.len(),
            stable_order(all, idx@),
            views(names@) == all,
            views(sorted@) == idx@.take(k as int).map_values(|i: usize| all[i as int]),
        decreases idx@.len() - k,
    {
        let j = idx[k];
        assert(idx@[k as int] < all.len());
        assert(views(names@)[j as int] == names@[j as int]@);
        let ghost before = sorted@;
        let name = copy_string(&names[j]);
        sorted.push(name);
        proof {
            lemma_views_push(before, name);
            assert(idx@.take(k + 1) =~= idx@.take(k as int).push(j));
            assert(idx@.take(k + 1).map_values(|i: usize| all[i as int]) =~= idx@.take(k as int).map_values(|i: usize| all[i as int]).push(all[j as int]));
        }
        k = k + 1;
    }
    assert(idx@.take(k as int) =~= idx@);
    let mut message = String::from_str("unknown task ");
    let quoted = debug_quoted(task);
    message.append(quoted.as_str());
    message.append(". Available tasks: ");
    let listed = crate::text::join_strings(&sorted, ", ");
    message.append(listed.as_str());
    RtError::Usage(message)
}

/// Whether no two names in a list are equal.
pub open spec fn distinct_names(names: Seq<Seq<char>>) -> bool {
    forall|i: int, j: int| 0 <= i < j < names.len() ==> names[i] != names[j]
}

/// A global task tagged with its origin.
pub open spec fn as_global(t: TaskView) -> TaskView {
    TaskView { source: Source::Global, ..t }
}

proof fn lemma_global_pass(gt: Seq<TaskView>, taken: Seq<Seq<char>>)
    ensures
        forall|k: int| #![trigger global_pass(gt, taken).0[k]] 0 <= k < global_pass(gt, taken).0.len() ==> !taken.contains(global_pass(gt, taken).0[k].name)
            && global_pass(gt, taken).0[k].source == Source::Global,
        distinct_names(task_names(global_pass(gt, taken).0)),
        forall|i: int| 0 <= i < gt.len() ==> (taken + task_names(global_pass(gt, taken).0)).contains(#[trigger] gt[i].name),
        forall|i: int| 0 <= i < gt.len() && taken.contains(#[trigger] gt[i].name) ==> global_pass(gt, taken).1.contains(shadow_error(as_global(gt[i]))),
    decreases gt.len(),
{
    if gt.len() > 0 {
        let prefix = gt.drop_last();
        lemma_global_pass(prefix, taken);
        let (kept, shadowed) = global_pass(prefix, taken);
        assert forall|k: int| #![trigger kept[k]] 0 <= k < kept.len() implies !taken.contains(kept[k].name)
            && kept[k].source == Source::Global by {
            assert(kept[k] == global_pass(prefix, taken).0[k]);
        }
        let t = as_global(gt.last());
        let names = task_names(kept);
        if (taken + names).contains(t.name) {
            assert(global_pass(gt, taken) == (kept, shadowed.push(shadow_error(t))));
            assert forall|k: int| #![trigger global_pass(gt, taken).0[k]] 0 <= k < global_pass(gt, taken).0.len() implies !taken.contains(global_pass(gt, taken).0[k].name)
                && global_pass(gt, taken).0[k].source == Source::Global by {
                assert(global_pass(gt, taken).0[k] == kept[k]);
                assert(!taken.contains(kept[k].name));
            }
            assert forall|i: int| 0 <= i < gt.len() implies (taken + task_names(global_pass(gt, taken).0)).contains(#[trigger] gt[i].name) by {
                if i < gt.len() - 1 {
                    assert(gt[i] == prefix[i]);
                }
            }
            assert forall|i: int| 0 <= i < gt.len() && taken.contains(#[trigger] gt[i].name) implies global_pass(gt, taken).1.contains(shadow_error(as_global(gt[i]))) by {
                if i < gt.len() - 1 {
                    assert(gt[i] == prefix[i]);
                    let w = choose|w: int| 0 <= w < shadowed.len() && shadowed[w] == shadow_error(as_global(prefix[i]));
                    assert(shadowed.push(shadow_error(t))[w] == shadowed[w]);
                } else {
                    assert(shadowed.push(shadow_error(t))[shadowed.len() as int] == shadow_error(t));
                }
            }
        } else {
            let kept2 = kept.push(t);
            assert(global_pass(gt, taken) == (kept2, shadowed));
            assert(task_names(kept2) =~= names.push(t.name));
            assert(!taken.contains(t.name)) by {
                if taken.contains(t.name) {
                    let w = choose|w: int| 0 <= w < taken.len() && taken[w] == t.name;
                    assert((taken + names)[w] == t.name);
                }
            }
            assert(!names.contains(t.name)) by {
                if names.contains(t.name) {
                    let w = choose|w: int| 0 <= w < names.len() && names[w] == t.name;
                    assert((taken + names)[(taken.len() + w) as int] == t.name);
                }
            }
            assert forall|k: int| #![trigger kept2[k]] 0 <= k < kept2.len() implies !taken.contains(kept2[k].name)
                && kept2[k].source == Source::Global by {
                if k < kept.len() {
                    assert(kept2[k] == kept[k]);
                    assert(!taken.contains(kept[k].name));
                } else {
                    assert(kept2[k] == t);
                }
            }
            assert forall|k: int| #![trigger global_pass(gt, taken).0[k]] 0 <= k < global_pass(gt, taken).0.len() implies !taken.contains(global_pass(gt, taken).0[k].name)
                && global_pass(gt, taken).0[k].source == Source::Global by {
                assert(global_pass(gt, taken).0[k] == kept2[k]);
                assert(!taken.contains(kept2[k].name));
            }
            assert(distinct_names(task_names(kept2))) by {
                assert forall|i: int, j: int| 0 <= i < j < task_names(kept2).len() implies task_names(kept2)[i] != task_names(kept2)[j] by {
                    if j == kept.len() {
                        assert(task_names(kept2)[i] == names[i]);
                    } else {
                        assert(task_names(kept2)[i] == names[i] && task_names(kept2)[j] == names[j]);
                    }
                }
            }
            assert forall|i: int| 0 <= i < gt.len() implies (taken + task_names(kept2)).contains(#[trigger] gt[i].name) by {
                if i < gt.len() - 1 {
                    assert(gt[i] == prefix[i]);
                    let w = choose|w: int| 0 <= w < (taken + names).len() && (taken + names)[w] == prefix[i].name;
                    assert((taken + task_names(kept2))[w] == (taken + names)[w]);
                } else {
                    assert((taken + task_names(kept2))[(taken.len() + kept.len()) as int] == t.name);
                }
            }
            assert forall|i: int| 0 <= i < gt.len() && taken.contains(#[trigger] gt[i].name) implies global_pass(gt, taken).1.contains(shadow_error(as_global(gt[i]))) by {
                if i < gt.len() - 1 {
                    assert(gt[i] == prefix[i]);
                }
            }
        }
    } else {
        assert(global_pass(gt, taken).0 =~= Seq::<TaskView>::empty());
    }
}

/// Project tasks win name collisions: every project task is kept, first and
/// in order, and no global task in the merged list shares its name with a
/// project task.
pub proof fn law_project_tasks_win(project: MetadataView, global: MetadataView)
    ensures
        merge_spec(Some(project), Some(global)).tasks.take(project.tasks.len() as int) == tagged_tasks(
            project.tasks,
            Source::Project,
        ),
        forall|k: int| 0 <= k < merge_spec(Some(project), Some(global)).tasks.len()
            && (#[trigger] merge_spec(Some(project), Some(global)).tasks[k]).source == Source::Global
            ==> !task_names(project.tasks).contains(merge_spec(Some(project), Some(global)).tasks[k].name),
{
    let pt = tagged_tasks(project.tasks, Source::Project);
    assert(task_names(pt) =~= task_names(project.tasks));
    lemma_global_pass(global.tasks, task_names(pt));
    let merged = merge_spec(Some(project), Some(global));
    assert forall|k: int| 0 <= k < merged.tasks.len() && (#[trigger] merged.tasks[k]).source == Source::Global
        implies !task_names(project.tasks).contains(merged.tasks[k].name) by {
        if k >= pt.len() {
            assert(merged.tasks[k] == global_pass(global.tasks, task_names(pt)).0[k - pt.len()]);
        }
    }
    assert(merged.tasks.take(project.tasks.len() as int) =~= pt);
}

/// When project task names are distinct, the merged task list holds each
/// name at most once.
pub proof fn law_merged_names_unique(project: Option<MetadataView>, global: Option<MetadataView>)
    requires
        project matches Some(p) ==> distinct_names(task_names(p.tasks)),
    ensures
        distinct_names(task_names(merge_spec(project, global).tasks)),
{
    let pt = match project {
        Some(m) => tagged_tasks(m.tasks, Source::Project),
        None => seq![],
    };
    match project {
        Some(m) => { assert(task_names(pt) =~= task_names(m.tasks)); },
        None => {},
    }
    let taken = task_names(pt);
    let kept = match global {
        Some(m) => global_pass(m.tasks, taken).0,
        None => seq![],
    };
    match global {
        Some(m) => { lemma_global_pass(m.tasks, taken); },
        None => {},
    }
    let all = task_names(merge_spec(project, global).tasks);
    assert(all =~= taken + task_names(kept));
    assert forall|i: int, j: int| 0 <= i < j < all.len() implies all[i] != all[j] by {
        if j < taken.len() {
        } else if i < taken.len() {
            let k = j - taken.len();
            assert(all[j] == kept[k].name);
            assert(!taken.contains(kept[k].name));
            assert(taken[i] == all[i]);
        } else {
            assert(all[i] == task_names(kept)[i - taken.len()]);
            assert(all[j] == task_names(kept)[j - taken.len()]);
        }
    }
}

/// No task name is lost: every global task's name is in the merged list,
/// and a global task hidden by a project task is reported as a
/// `ShadowedTask` load error.
pub proof fn law_shadowed_tasks_are_reported(project: MetadataView, global: MetadataView)
    ensures
        forall|i: int| 0 <= i < global.tasks.len() ==> task_names(merge_spec(Some(project), Some(global)).tasks).contains(
            #[trigger] global.tasks[i].name,
        ),
        forall|i: int| 0 <= i < global.tasks.len() && task_names(project.tasks).contains(#[trigger] global.tasks[i].name)
            ==> merge_spec(Some(project), Some(global)).errors.contains(shadow_error(as_global(global.tasks[i]))),
{
    let pt = tagged_tasks(project.tasks, Source::Project);
    let taken = task_names(pt);
    assert(taken =~= task_names(project.tasks));
    lemma_global_pass(global.tasks, taken);
    let merged = merge_spec(Some(project), Some(global));
    let (kept, shadowed) = global_pass(global.tasks, taken);
    assert(task_names(merged.tasks) =~= taken + task_names(kept));
    assert forall|i: int| 0 <= i < global.tasks.len() && task_names(project.tasks).contains(#[trigger] global.tasks[i].name)
        implies merged.errors.contains(shadow_error(as_global(global.tasks[i]))) by {
        let pe = tagged_errors(project.errors, Source::Project);
        let ge = tagged_errors(global.errors, Source::Global);
        assert(merged.errors == pe + shadowed + ge);
        let w = choose|w: int| 0 <= w < shadowed.len() && shadowed[w] == shadow_error(as_global(global.tasks[i]));
        assert(merged.errors[(pe.len() + w) as int] == shadowed[w]);
    }
}

/// Metadata merged across roots, with the root and the interpreter that
/// produced each root's metadata (a task runs with the same Ruby that
/// discovered it).
#[derive(Debug)]
pub struct Loaded {
    pub meta: Metadata,
    pub project: Option<(Vec<u8>, RubyCommand)>,
    pub global: Option<(Vec<u8>, RubyCommand)>,
}

/// Everything needed to start a task.
#[derive(Debug)]
pub struct PreparedRun {
    pub root: Vec<u8>,
    /// Where the task was discovered, which decides where its home is.
    pub source: Source,
    pub ruby: RubyCommand,
    pub task: String,
    pub args: ParsedArgs,
    pub load_errors: Vec<LoadError>,
}

/// Why a run could not be prepared, with the load errors known so far.
#[derive(Debug)]
pub struct PrepareError {
    pub error: RtError,
    pub load_errors: Vec<LoadError>,
}

/// The root and interpreter behind tasks of a source.
pub open spec fn backing(loaded: Loaded, s: Source) -> Option<(Vec<u8>, RubyCommand)> {
    match s {
        Source::Project => loaded.project,
        Source::Global => loaded.global,
    }
}

/// The message when a task's source has no root behind it.
pub open spec fn no_backing_root_text() -> Seq<char> {
    "resolved task has no backing root"@
}

/// The interpreter a task runs with: the one that discovered it, except
/// that a task declaring gems runs under isolated plain Ruby.
pub open spec fn run_ruby(t: TaskView, discovered: RubyView, rt_ruby: Option<Seq<char>>) -> RubyView {
    if t.gems.len() == 0 {
        discovered
    } else {
        isolated_ruby(rt_ruby)
    }
}

/// What preparing a run of `task_name` with `raw_args` must give.
pub open spec fn prepare_spec(
    loaded: Loaded,
    task_name: Seq<char>,
    raw_args: Seq<Seq<char>>,
    rt_ruby: Option<Seq<char>>,
    r: Result<PreparedRun, PrepareError>,
) -> bool {
    let errors = error_views(loaded.meta.errors@);
    match first_match(task_names(loaded.meta@.tasks), task_name) {
        None => r matches Err(e) && error_views(e.load_errors@) == errors
            && exists|idx: Seq<usize>| stable_order(task_names(loaded.meta@.tasks), idx)
                && (e.error matches RtError::Usage(m) && m@ == unknown_task_text(task_names(loaded.meta@.tasks), idx, task_name)),
        Some(i) => {
            let t = loaded.meta.tasks@[i]@;
            match backing(loaded, t.source) {
                None => r matches Err(e) && error_views(e.load_errors@) == errors
                    && (e.error matches RtError::Internal(m) && m@ == no_backing_root_text()),
                Some((root, ruby)) => match parse_spec(t, raw_args) {
                    Err(f) => r matches Err(e) && error_views(e.load_errors@) == errors
                        && (e.error matches RtError::Usage(m) && m@ == usage_error_text(f, t)),
                    Ok(v) => r matches Ok(p) && p.root@ == root@ && p.source == t.source && p.task@ == task_name && p.args.wf()
                        && p.args@ == v && error_views(p.load_errors@) == errors
                        && p.ruby@ == run_ruby(t, ruby@, rt_ruby),
                },
            }
        },
    }
}

/// Finds the task, the root and interpreter it was discovered with, and
/// parses its arguments. `rt_ruby` is the `RT_RUBY` setting, used when the
/// task declares gems.
pub fn prepare_run(loaded: Loaded, task_name: &str, raw_args: &[String], rt_ruby: Option<String>) -> (r: Result<
    PreparedRun,
    PrepareError,
>)
    ensures
        prepare_spec(loaded, task_name@, views(raw_args@), match rt_ruby { Some(p) => Some(p@), None => None }, r),
{
    let Loaded { meta, project, global } = loaded;
    let load_errors = copy_load_errors(&meta.errors);
    let found = meta.find_task(task_name);
    let task = match found {
        Some(t) => t,
        None => {
            let error = unknown_task(&meta, task_name);
            return Err(PrepareError { error, load_errors });
        },
    };
    let chosen = match task.source {
        Source::Project => project,
        Source::Global => global,
    };
    let (root, ruby) = match chosen {
        Some(b) => b,
        None => {
            return Err(PrepareError {
                error: RtError::Internal(String::from_str("resolved task has no backing root")),
                load_errors,
            });
        },
    };
    let parsed = match parse(task, raw_args) {
        Ok(p) => p,
        Err(error) => {
            return Err(PrepareError { error, load_errors });
        },
    };
    let ruby = if task.gems.len() == 0 {
        ruby
    } else {
        RubyCommand::plain_isolated(rt_ruby)
    };
    Ok(PreparedRun { root, source: task.source, ruby, task: String::from_str(task_name), args: parsed, load_errors })
}

/// The JSON document a task reads on its standard input, as `serde_json`
/// writes an object: keys sorted (`dry_run`, `options`, `params`, `task`),
/// and the members of params and options in the key orders `params_order`
/// and `options_order`.
pub open spec fn run_input_spec(task: Seq<char>, args: ParsedArgs, params_order: Seq<usize>, options_order: Seq<usize>) -> Seq<char> {
    "{\"dry_run\":"@ + (if args.dry_run { "true"@ } else { "false"@ }) + ",\"options\":"@ + object_text(
        args.options.entries@,
        options_order,
    ) + ",\"params\":"@ + object_text(args.params.entries@, params_order) + ",\"task\":"@ + seq!['"']
        + json_escape(task) + seq!['"'] + "}"@
}

impl PreparedRun {
    /// The task's input: the dry-run flag, its options, its params and its
    /// name, every object's members sorted by key.
    pub fn run_input(&self) -> (r: String)
        ensures
            exists|po: Seq<usize>, oo: Seq<usize>|
                stable_order(entry_keys(self.args.params.entries@), po) && stable_order(
                    entry_keys(self.args.options.entries@),
                    oo,
                ) && r@ == run_input_spec(self.task@, self.args, po, oo),
    {
        let mut s = String::from_str("{\"dry_run\":");
        if self.args.dry_run {
            s.append("true");
        } else {
            s.append("false");
        }
        s.append(",\"options\":");
        let options = self.args.options.to_json_text();
        let ghost oo = choose|idx: Seq<usize>| stable_order(entry_keys(self.args.options.entries@), idx)
            && options@ == object_text(self.args.options.entries@, idx);
        s.append(options.as_str());
        s.append(",\"params\":");
        let params = self.args.params.to_json_text();
        let ghost po = choose|idx: Seq<usize>| stable_order(entry_keys(self.args.params.entries@), idx)
            && params@ == object_text(self.args.params.entries@, idx);
        s.append(params.as_str());
        s.append(",\"task\":");
        let name = json_quoted(self.task.as_str());
        s.append(name.as_str());
        s.append("}");
        assert(s@ =~= run_input_spec(self.task@, self.args, po, oo));
        s
    }
}

/// What a task process left behind: its exit code (`None` when a signal
/// ended it), its captured output, and the failure its harness reported.
#[derive(Debug)]
pub struct CapturedRun {
    pub code: Option<i32>,
    pub stdout: CapturedBytes,
    pub stderr: CapturedBytes,
    pub failure: Option<HarnessFailure>,
}

/// The message for a task ended by a signal.
pub open spec fn signal_text() -> Seq<char> {
    "task terminated by signal"@
}

/// The outcome of a task run in the foreground: the failure its harness
/// reported, else its exit code, with a signal as an internal error.
pub open spec fn run_spec(code: Option<i32>, failure: Option<HarnessFailure>, r: Result<(), RtError>) -> bool {
    match failure {
        Some(f) => r matches Err(e) && e == failure_error(f),
        None => match code {
            Some(c) => if c == 0 { r is Ok } else { r matches Err(RtError::TaskExit(n)) && n == c },
            None => r matches Err(RtError::Internal(m)) && m@ == signal_text(),
        },
    }
}

/// The outcome of a task run in the foreground, from its exit code and the
/// failure its harness reported: success only for exit code 0 without a
/// reported failure.
pub fn run(code: Option<i32>, failure: Option<HarnessFailure>) -> (r: Result<(), RtError>)
    ensures
        run_spec(code, failure, r),
{
    if let Some(f) = failure {
        return Err(f.into_rt_error());
    }
    match code {
        Some(0) => Ok(()),
        Some(n) => Err(RtError::TaskExit(n)),
        None => Err(RtError::Internal(String::from_str("task terminated by signal"))),
    }
}

/// The result of `rt run --json` for a run that could not be prepared.
pub fn prepare_failure_result(task_name: &str, failure: PrepareError) -> (r: RunResult)
    ensures
        failed(
            r,
            task_name@,
            spec_exit_code(failure.error),
            run_error_spec(failure.error),
            capture_of(Seq::empty()),
            capture_of(Seq::empty()),
            failure.load_errors@,
        ),
{
    let PrepareError { error, load_errors } = failure;
    RunResult::error(task_name, error, CapturedBytes::empty(), CapturedBytes::empty(), load_errors)
}

/// What `rt run --json` reports for a prepared run of `task` whose
/// `outcome` is what the task process left behind, or why it could not be
/// started.
pub open spec fn run_json_spec(r: RunResult, task: Seq<char>, load_errors: Seq<LoadError>, outcome: Result<CapturedRun, RtError>) -> bool {
    match outcome {
        Err(e) => failed(
            r,
            task,
            spec_exit_code(e),
            run_error_spec(e),
            capture_of(Seq::empty()),
            capture_of(Seq::empty()),
            load_errors,
        ),
        Ok(c) => match c.failure {
            Some(f) => failed(
                r,
                task,
                spec_exit_code(failure_error(f)),
                run_error_spec(failure_error(f)),
                c.stdout.state(),
                c.stderr.state(),
                load_errors,
            ),
            None => match c.code {
                Some(n) => if n == 0 {
                    succeeded(r, task, c.stdout.state(), c.stderr.state(), load_errors)
                } else {
                    failed(r, task, n, run_error_spec(RtError::TaskExit(n)), c.stdout.state(), c.stderr.state(), load_errors)
                },
                None => failed(
                    r,
                    task,
                    70,
                    plain_error(ErrorKind::Internal, "internal error: "@ + signal_text()),
                    c.stdout.state(),
                    c.stderr.state(),
                    load_errors,
                ),
            },
        },
    }
}

/// The result of `rt run --json` for a prepared run: `outcome` is what the
/// task process left behind, or why it could not be started. A failure the
/// harness reported decides the result; otherwise exit code 0 is success, any
/// other code is reported with that code, and a signal is an internal error.
pub fn run_json(task_name: &str, load_errors: Vec<LoadError>, outcome: Result<CapturedRun, RtError>) -> (r: RunResult)
    requires
        outcome matches Ok(c) ==> c.stdout.wf() && c.stderr.wf(),
    ensures
        run_json_spec(r, task_name@, load_errors@, outcome),
{
    match outcome {
        Err(error) => RunResult::error(task_name, error, CapturedBytes::empty(), CapturedBytes::empty(), load_errors),
        Ok(captured) => {
            let CapturedRun { code, stdout, stderr, failure } = captured;
            match failure {
                Some(f) => RunResult::error(task_name, f.into_rt_error(), stdout, stderr, load_errors),
                None => match code {
                    Some(0) => RunResult::success(task_name, stdout, stderr, load_errors),
                    Some(n) => RunResult::error(task_name, RtError::TaskExit(n), stdout, stderr, load_errors),
                    None => RunResult::error(
                        task_name,
                        RtError::Internal(String::from_str("task terminated by signal")),
                        stdout,
                        stderr,
                        load_errors,
                    ),
                },
            }
        },
    }
}

/// The root a global task's help names, if its source is global.
pub open spec fn help_source(loaded: Loaded, s: Source) -> Option<Seq<u8>> {
    match s {
        Source::Global => match loaded.global {
            Some((root, _)) => Some(root@),
            None => None,
        },
        Source::Project => None,
    }
}

/// The lines of `rt help <task>`: the first task of that name, with the
/// global root when it is a global task; an unknown name is a usage error.
pub fn help_text(loaded: &Loaded, task: &str) -> (r: Result<Vec<String>, RtError>)
    ensures
        match first_match(task_names(loaded.meta@.tasks), task@) {
            None => exists|idx: Seq<usize>| stable_order(task_names(loaded.meta@.tasks), idx)
                && (r matches Err(RtError::Usage(m)) && m@ == unknown_task_text(task_names(loaded.meta@.tasks), idx, task@)),
            Some(i) => r matches Ok(lines) && views(lines@) == help_spec(
                loaded.meta@.tasks[i],
                help_source(*loaded, loaded.meta@.tasks[i].source),
            ),
        },
{
    match loaded.meta.find_task(task) {
        None => Err(unknown_task(&loaded.meta, task)),
        Some(t) => {
            let ghost i = first_match(task_names(loaded.meta@.tasks), task@)->Some_0;
            proof { crate::metadata::lemma_first_match_some(task_names(loaded.meta@.tasks), task@); }
            assert(loaded.meta@.tasks[i] == loaded.meta.tasks@[i]@);
            let source_path: Option<&[u8]> = match t.source {
                Source::Global => match &loaded.global {
                    Some((root, _)) => Some(root.as_slice()),
                    None => None,
                },
                Source::Project => None,
            };
            Ok(help_lines(t, source_path))
        },
    }
}

/// A run result is a success exactly when its exit code is 0, and only a
/// success carries no error. (A start failure that is itself an exit code 0
/// is left out: it would be an error reported with code 0.)
pub proof fn law_success_iff_exit_zero(r: RunResult, task: Seq<char>, load_errors: Seq<LoadError>, outcome: Result<CapturedRun, RtError>)
    requires
        run_json_spec(r, task, load_errors, outcome),
        !(outcome matches Err(RtError::TaskExit(code)) && code == 0),
    ensures
        (r.status == RunStatus::Success) <==> (r.exit_code == 0),
        (r.status == RunStatus::Success) <==> (r.error is None),
{
}

/// A task run in the foreground succeeds exactly when it exits with code 0
/// and its harness reports no failure.
pub proof fn law_foreground_success(code: Option<i32>, failure: Option<HarnessFailure>, r: Result<(), RtError>)
    requires
        run_spec(code, failure, r),
    ensures
        r is Ok <==> (code == Some(0i32) && failure is None),
{
}

/// A task runs against the root it was discovered in: a prepared run of a
/// global task has the global root, and the global root's interpreter when
/// the task declares no gems, even when a project is loaded too; a project
/// task has the project's root and interpreter.
pub proof fn law_run_uses_its_own_root(
    loaded: Loaded,
    task_name: Seq<char>,
    raw_args: Seq<Seq<char>>,
    rt_ruby: Option<Seq<char>>,
    r: Result<PreparedRun, PrepareError>,
)
    requires
        prepare_spec(loaded, task_name, raw_args, rt_ruby, r),
    ensures
        r matches Ok(p) ==> {
            &&& first_match(task_names(loaded.meta@.tasks), task_name) is Some
            &&& ({
                let t = loaded.meta.tasks@[first_match(task_names(loaded.meta@.tasks), task_name)->Some_0]@;
                &&& p.source == t.source
                &&& t.source == Source::Global ==> (loaded.global matches Some((root, ruby)) && p.root@ == root@ && (
                t.gems.len() == 0 ==> p.ruby@ == ruby@))
                &&& t.source == Source::Project ==> (loaded.project matches Some((root, ruby)) && p.root@ == root@ && (
                t.gems.len() == 0 ==> p.ruby@ == ruby@))
            })
        },
{
}

} // verus!
