//! Where rt looks for tasks: the project root (a directory holding `.rt/`)
//! and the global config dir. Paths are carried as the bytes of the
//! operating system's path, so any path works.
use vstd::prelude::*;
use crate::error::RtError;
use crate::metadata::Source;
use crate::text::{lossy_text, path_text};
use vstd::string::StringExecFns;

verus! {

/// The task roots rt will search. Either may be absent, not both.
#[derive(Debug, Clone)]
pub struct Roots {
    pub project: Option<Vec<u8>>,
    pub global: Option<Vec<u8>>,
}

/// The view of an optional path.
pub open spec fn opt_bytes(p: Option<Vec<u8>>) -> Option<Seq<u8>> {
    match p {
        Some(v) => Some(v@),
        None => None,
    }
}

/// `base` joined with a relative path component, as `Path::join` does it: a
/// `/` goes between them unless `base` is empty or already ends in `/`.
pub open spec fn path_join(base: Seq<u8>, component: Seq<u8>) -> Seq<u8> {
    if base.len() == 0 || base.last() == 47u8 {
        base + component
    } else {
        base.push(47u8) + component
    }
}

/// The bytes of the directory name `rt`.
pub open spec fn rt_name() -> Seq<u8> {
    seq![114u8, 116u8]
}

/// The bytes of the directory name `.config`.
pub open spec fn dot_config_name() -> Seq<u8> {
    seq![46u8, 99u8, 111u8, 110u8, 102u8, 105u8, 103u8]
}

/// A set, non-empty environment value.
pub open spec fn present(v: Option<Seq<u8>>) -> bool {
    v matches Some(s) && s.len() > 0
}

/// The global config dir: `RT_CONFIG_DIR`, else `$XDG_CONFIG_HOME/rt`,
/// else `$HOME/.config/rt`; empty values count as unset.
pub open spec fn config_dir_spec(rt_config_dir: Option<Seq<u8>>, xdg_config_home: Option<Seq<u8>>, home: Option<Seq<u8>>) -> Option<Seq<u8>> {
    if present(rt_config_dir) {
        rt_config_dir
    } else if present(xdg_config_home) {
        Some(path_join(xdg_config_home->Some_0, rt_name()))
    } else if present(home) {
        Some(path_join(path_join(home->Some_0, dot_config_name()), rt_name()))
    } else {
        None
    }
}

fn push_bytes(out: &mut Vec<u8>, more: &[u8])
    ensures
        final(out)@ == old(out)@ + more@,
{
    let ghost start = out@;
    let mut i: usize = 0;
    while i < more.len()
        invariant
            i <= more@.len(),
            out@ == start + more@.take(i as int),
        decreases more@.len() - i,
    {
        out.push(more[i]);
        assert(more@.take(i + 1) =~= more@.take(i as int).push(more@[i as int]));
        i = i + 1;
    }
    assert(more@.take(i as int) =~= more@);
}

/// `base` joined with a relative component.
pub fn join_path(base: Vec<u8>, component: &[u8]) -> (r: Vec<u8>)
    ensures
        r@ == path_join(base@, component@),
{
    let mut out = base;
    let n = out.len();
    if n > 0 && out[n - 1] != 47u8 {
        out.push(47u8);
    }
    push_bytes(&mut out, component);
    out
}

fn is_present(v: &Option<Vec<u8>>) -> (r: bool)
    ensures
        r == present(opt_bytes(*v)),
{
    match v {
        Some(s) => s.len() > 0,
        None => false,
    }
}

/// Resolution order: `RT_CONFIG_DIR`, then `$XDG_CONFIG_HOME/rt`, then
/// `$HOME/.config/rt`.
pub fn config_dir(rt_config_dir: Option<Vec<u8>>, xdg_config_home: Option<Vec<u8>>, home: Option<Vec<u8>>) -> (r: Option<Vec<u8>>)
    ensures
        opt_bytes(r) == config_dir_spec(opt_bytes(rt_config_dir), opt_bytes(xdg_config_home), opt_bytes(home)),
{
    let mut rt_bytes: Vec<u8> = Vec::new();
    rt_bytes.push(114u8);
    rt_bytes.push(116u8);
    let mut config_bytes: Vec<u8> = Vec::new();
    config_bytes.push(46u8);
    config_bytes.push(99u8);
    config_bytes.push(111u8);
    config_bytes.push(110u8);
    config_bytes.push(102u8);
    config_bytes.push(105u8);
    config_bytes.push(103u8);
    assert(rt_bytes@ =~= rt_name());
    assert(config_bytes@ =~= dot_config_name());
    if is_present(&rt_config_dir) {
        return rt_config_dir;
    }
    if is_present(&xdg_config_home) {
        if let Some(x) = xdg_config_home {
            return Some(join_path(x, rt_bytes.as_slice()));
        }
    }
    if is_present(&home) {
        if let Some(h) = home {
            let c = join_path(h, config_bytes.as_slice());
            return Some(join_path(c, rt_bytes.as_slice()));
        }
    }
    None
}

/// The project root rt uses: `RT_ROOT` when set, which must hold `.rt/`;
/// otherwise the first of the working directory and its ancestors (nearest
/// first) that holds `.rt/`, if any.
pub open spec fn find_project_spec(rt_root: Option<(Seq<u8>, bool)>, ancestors: Seq<(Seq<u8>, bool)>) -> Result<Option<Seq<u8>>, Seq<char>> {
    match rt_root {
        Some((root, marked)) => if marked {
            Ok(Some(root))
        } else {
            Err("RT_ROOT is set to "@ + lossy_text(root) + " but no .rt/ directory was found there"@)
        },
        None => if exists|k: int| 0 <= k < ancestors.len() && ancestors[k].1 {
            let k = choose|k: int| 0 <= k < ancestors.len() && ancestors[k].1 && forall|j: int| 0 <= j < k ==> !ancestors[j].1;
            Ok(Some(ancestors[k].0))
        } else {
            Ok(None)
        },
    }
}

/// Each directory with its mark, by view.
pub open spec fn dir_views(dirs: Seq<(Vec<u8>, bool)>) -> Seq<(Seq<u8>, bool)> {
    dirs.map_values(|a: (Vec<u8>, bool)| (a.0@, a.1))
}

/// `RT_ROOT` with its mark, by view.
pub open spec fn root_view(rt_root: Option<(Vec<u8>, bool)>) -> Option<(Seq<u8>, bool)> {
    match rt_root {
        Some((p, m)) => Some((p@, m)),
        None => None,
    }
}

/// The project root, given `RT_ROOT` (with whether it holds `.rt/`) and the
/// working directory's ancestors, nearest first, each with whether it holds
/// `.rt/`. An `RT_ROOT` without `.rt/` is a usage error.
pub fn find_project(rt_root: Option<(Vec<u8>, bool)>, ancestors: Vec<(Vec<u8>, bool)>) -> (r: Result<Option<Vec<u8>>, RtError>)
    ensures
        match find_project_spec(
            root_view(rt_root),
            dir_views(ancestors@),
        ) {
            Ok(p) => r matches Ok(q) && opt_bytes(q) == p,
            Err(m) => r matches Err(RtError::Usage(t)) && t@ == m,
        },
{
    let ghost orig_root = root_view(rt_root);
    if let Some((root, marked)) = rt_root {
        if marked {
            return Ok(Some(root));
        }
        let mut m = String::from_str("RT_ROOT is set to ");
        let shown = path_text(root.as_slice());
        m.append(shown.as_str());
        m.append(" but no .rt/ directory was found there");
        return Err(RtError::Usage(m));
    }
    let ghost av = dir_views(ancestors@);
    let mut i: usize = 0;
    while i < ancestors.len()
        invariant
            i <= ancestors@.len(),
            av == dir_views(ancestors@),
            orig_root is None,
            orig_root == root_view(rt_root),
            forall|j: int| 0 <= j < i ==> !av[j].1,
        decreases ancestors@.len() - i,
    {
        assert(av[i as int] == (ancestors@[i as int].0@, ancestors@[i as int].1));
        if ancestors[i].1 {
            proof {
                let w = choose|w: int| 0 <= w < av.len() && av[w].1 && forall|j: int| 0 <= j < w ==> !av[j].1;
                assert(0 <= i < av.len() && av[i as int].1 && forall|j: int| 0 <= j < i ==> !av[j].1);
                if w < i {
                    assert(!av[w].1);
                } else if w > i {
                    assert(!av[i as int].1);
                }
            }
            let mut found = ancestors;
            let (dir, _) = found.remove(i);
            assert(find_project_spec(None, av) == Ok::<Option<Seq<u8>>, Seq<char>>(Some(av[i as int].0)));
            assert(dir@ == av[i as int].0);
            return Ok(Some(dir));
        }
        i = i + 1;
    }
    Ok(None)
}

/// The message when neither a project nor global tasks exist.
pub open spec fn no_project_text() -> Seq<char> {
    "no rt project found: expected a .rt/ directory here or in a parent directory. To define machine-wide tasks, create a tasks/ directory under your rt config dir (~/.config/rt or $RT_CONFIG_DIR)."@
}

/// Combines the project root and the global root. When both are the same
/// directory only the project root is kept, so no task is discovered twice;
/// when neither exists it is a usage error.
pub fn find_roots(project: Option<Vec<u8>>, global: Option<Vec<u8>>, same_dir: bool) -> (r: Result<Roots, RtError>)
    ensures
        (project is None && global is None) ==> (r matches Err(RtError::Usage(m)) && m@ == no_project_text()),
        !(project is None && global is None) ==> (r matches Ok(roots)
            && opt_bytes(roots.project) == opt_bytes(project)
            && opt_bytes(roots.global) == (if project is Some && same_dir { None } else { opt_bytes(global) })),
{
    let global = if project.is_some() && same_dir { None } else { global };
    if project.is_none() && global.is_none() {
        return Err(RtError::Usage(String::from_str(
            "no rt project found: expected a .rt/ directory here or in a parent directory. To define machine-wide tasks, create a tasks/ directory under your rt config dir (~/.config/rt or $RT_CONFIG_DIR).",
        )));
    }
    Ok(Roots { project, global })
}

/// The bytes of the directory name `.rt`.
pub open spec fn dot_rt_name() -> Seq<u8> {
    seq![46u8, 114u8, 116u8]
}

/// Where a root keeps its tasks, cache and harness: `.rt/` inside a project
/// root; the config dir itself for global tasks.
pub open spec fn task_home_spec(root: Seq<u8>, source: Source) -> Seq<u8> {
    match source {
        Source::Project => path_join(root, dot_rt_name()),
        Source::Global => root,
    }
}

/// The home of a root whose tasks have the given source.
pub fn task_home(root: &Vec<u8>, source: Source) -> (r: Vec<u8>)
    ensures
        r@ == task_home_spec(root@, source),
{
    let mut base: Vec<u8> = Vec::new();
    push_bytes(&mut base, root.as_slice());
    match source {
        Source::Project => {
            let mut name: Vec<u8> = Vec::new();
            name.push(46u8);
            name.push(114u8);
            name.push(116u8);
            assert(name@ =~= dot_rt_name());
            join_path(base, name.as_slice())
        },
        Source::Global => {
            assert(base@ =~= root@);
            base
        },
    }
}

} // verus!
