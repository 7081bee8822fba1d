//! The discovery cache: metadata kept next to the tasks and reused while no
//! task file, the interpreter, or the cache's own format has changed.
use vstd::prelude::*;
use crate::json::{lemma_entries_map_has, lemma_entries_map_keys, KeyedList};
use crate::metadata::{Metadata, MetadataView, HARNESS_PROTOCOL_VERSION, METADATA_SCHEMA_VERSION};
use crate::ruby::{describe_spec, RubyCommand, RubyView};
use crate::text::{has_suffix, str_ends_with};

verus! {

/// Version of the cache file's own layout.
pub const CACHE_FORMAT_VERSION: u32 = 3;

/// What identifies one version of a task file: its modification time in
/// seconds and nanoseconds, and its size in bytes. The size catches a
/// same-second edit on filesystems with one-second timestamps.
#[derive(Debug, Clone, Copy, PartialEq, Eq, Structural)]
pub struct FileStamp {
    pub secs: u64,
    pub nanos: u32,
    pub size: u64,
}

impl View for FileStamp {
    type V = FileStamp;

    open spec fn view(&self) -> FileStamp {
        *self
    }
}

/// Every task file under `tasks/`, by its path relative to the root.
pub type FileSet = KeyedList<FileStamp>;

/// The cached discovery of one root.
#[derive(Debug, Clone)]
pub struct Cache {
    pub cache_format_version: u32,
    pub harness_protocol_version: u32,
    /// How the interpreter that produced `metadata` was described.
    pub ruby_command: String,
    pub files: FileSet,
    pub metadata: Metadata,
}

/// A cache may be used when its format and harness protocol are current,
/// it was produced by the same interpreter, and the task files are exactly
/// the ones on disk now, with the same stamps.
pub open spec fn valid_spec(cache: Cache, ruby_desc: Seq<char>, current: Map<Seq<char>, FileStamp>) -> bool {
    &&& cache.cache_format_version == CACHE_FORMAT_VERSION
    &&& cache.harness_protocol_version == HARNESS_PROTOCOL_VERSION
    &&& cache.ruby_command@ == ruby_desc
    &&& cache.files@ == current
}

/// Whether a file takes part in discovery: its name has the extension `rb`,
/// so it ends in `.rb` and has at least one character before the dot.
pub open spec fn is_task_file_spec(file_name: Seq<char>) -> bool {
    file_name.len() > 3 && has_suffix(file_name, ".rb"@)
}

/// Whether a file named `file_name` is a task file.
pub fn is_task_file(file_name: &str) -> (r: bool)
    ensures
        r == is_task_file_spec(file_name@),
{
    let ext = ".rb";
    proof {
        reveal_strlit(".rb");
    }
    file_name.unicode_len() > 3 && str_ends_with(file_name, ext)
}

/// Whether `m` holds the entry `e`.
pub open spec fn agrees(e: (String, FileStamp), m: Map<Seq<char>, FileStamp>) -> bool {
    m.contains_key(e.0@) && m[e.0@] == e.1
}

/// Whether two file sets hold the same files with the same stamps.
pub fn same_files(a: &FileSet, b: &FileSet) -> (r: bool)
    requires
        a.wf(),
        b.wf(),
    ensures
        r == (a@ == b@),
{
    let mut i: usize = 0;
    while i < a.entries.len()
        invariant
            a.wf(),
            b.wf(),
            i <= a.entries@.len(),
            forall|k: int| 0 <= k < i ==> agrees(a.entries@[k], b@),
        decreases a.entries@.len() - i,
    {
        proof {
            lemma_entries_map_has(a.entries@, i as int);
        }
        match b.get(a.entries[i].0.as_str()) {
            Some(v) => {
                if *v != a.entries[i].1 {
                    assert(a@[a.entries@[i as int].0@] != b@[a.entries@[i as int].0@]);
                    return false;
                }
                assert(agrees(a.entries@[i as int], b@));
            },
            None => {
                assert(a@.contains_key(a.entries@[i as int].0@));
                return false;
            },
        }
        i = i + 1;
    }
    let mut j: usize = 0;
    while j < b.entries.len()
        invariant
            a.wf(),
            b.wf(),
            j <= b.entries@.len(),
            forall|k: int| 0 <= k < j ==> #[trigger] a@.contains_key(b.entries@[k].0@),
        decreases b.entries@.len() - j,
    {
        proof {
            lemma_entries_map_has(b.entries@, j as int);
        }
        if !a.contains_key(b.entries[j].0.as_str()) {
            return false;
        }
        j = j + 1;
    }
    proof {
        assert forall|key: Seq<char>| #[trigger] a@.dom().contains(key) <==> b@.dom().contains(key) by {
            lemma_entries_map_keys(a.entries@, key);
            lemma_entries_map_keys(b.entries@, key);
            if a@.dom().contains(key) {
                let k = choose|k: int| 0 <= k < a.entries@.len() && #[trigger] a.entries@[k].0@ == key;
                assert(agrees(a.entries@[k], b@));
            }
            if b@.dom().contains(key) {
                let k = choose|k: int| 0 <= k < b.entries@.len() && #[trigger] b.entries@[k].0@ == key;
                assert(a@.contains_key(b.entries@[k].0@));
            }
        }
        assert(a@.dom() =~= b@.dom());
        assert forall|key: Seq<char>| #[trigger] a@.dom().contains(key) implies a@[key] == b@[key] by {
            lemma_entries_map_keys(a.entries@, key);
            let k = choose|k: int| 0 <= k < a.entries@.len() && #[trigger] a.entries@[k].0@ == key;
            lemma_entries_map_has(a.entries@, k);
            assert(agrees(a.entries@[k], b@));
        }
        assert(a@ =~= b@);
    }
    true
}

/// Whether `cache` may stand in for a fresh discovery under the interpreter
/// described as `ruby_desc`, with the task files `current` on disk.
pub fn is_valid(cache: &Cache, ruby_desc: &str, current: &FileSet) -> (r: bool)
    requires
        cache.files.wf(),
        current.wf(),
    ensures
        r == valid_spec(*cache, ruby_desc@, current@),
{
    cache.cache_format_version == CACHE_FORMAT_VERSION
        && cache.harness_protocol_version == HARNESS_PROTOCOL_VERSION
        && crate::text::str_eq(cache.ruby_command.as_str(), ruby_desc)
        && same_files(&cache.files, current)
}

/// The metadata a valid cache answers with: what was cached, under the
/// current public schema version.
pub open spec fn refreshed(m: MetadataView) -> MetadataView {
    MetadataView { schema_version: METADATA_SCHEMA_VERSION, ..m }
}

/// What the cache answers for a root whose interpreter is `ruby` and whose
/// task files on disk are `current`; `None` means discovery must run.
pub open spec fn load_spec(cached: Option<Cache>, ruby: RubyView, current: Map<Seq<char>, FileStamp>) -> Option<MetadataView> {
    match cached {
        Some(c) => if valid_spec(c, describe_spec(ruby), current) {
            Some(refreshed(c.metadata@))
        } else {
            None
        },
        None => None,
    }
}

/// `c` is the cache written after discovering `metadata` with the
/// interpreter `used` while the task files were `files`.
pub open spec fn written(c: Cache, used: RubyView, files: Map<Seq<char>, FileStamp>, metadata: MetadataView) -> bool {
    &&& c.cache_format_version == CACHE_FORMAT_VERSION
    &&& c.harness_protocol_version == HARNESS_PROTOCOL_VERSION
    &&& c.ruby_command@ == describe_spec(used)
    &&& c.files@ == files
    &&& c.metadata@ == metadata
}

/// The cache's answer for a root whose interpreter is `ruby` and whose task
/// files on disk are `current`: the cached metadata (under the current
/// public schema version) and the interpreter, when the cache is valid;
/// `None` when discovery must run again.
pub fn load(cached: Option<Cache>, ruby: &RubyCommand, current: &FileSet) -> (r: Option<(Metadata, RubyCommand)>)
    requires
        cached matches Some(c) ==> c.files.wf(),
        current.wf(),
    ensures
        r is Some <==> load_spec(cached, ruby@, current@) is Some,
        r matches Some((m, used)) ==> Some(m@) == load_spec(cached, ruby@, current@) && used@ == ruby@,
{
    match cached {
        Some(c) => {
            let desc = ruby.describe();
            if is_valid(&c, desc.as_str(), current) {
                let Cache { metadata, .. } = c;
                let Metadata { schema_version: _, tasks, errors } = metadata;
                let m = Metadata { schema_version: METADATA_SCHEMA_VERSION, tasks, errors };
                Some((m, ruby.copy()))
            } else {
                None
            }
        },
        None => None,
    }
}

/// The cache to write after discovering `metadata` with the interpreter
/// `used`, while the task files were `files`.
pub fn fresh(used: &RubyCommand, files: FileSet, metadata: Metadata) -> (r: Cache)
    requires
        files.wf(),
    ensures
        written(r, used@, files@, metadata@),
        r.files.wf(),
{
    Cache {
        cache_format_version: CACHE_FORMAT_VERSION,
        harness_protocol_version: HARNESS_PROTOCOL_VERSION,
        ruby_command: used.describe(),
        files,
        metadata,
    }
}

/// A cache written for an interpreter and a set of task files answers the
/// next run with the same interpreter and the same files, with the metadata
/// it holds.
pub proof fn law_written_cache_is_reused(c: Cache, used: RubyView, files: Map<Seq<char>, FileStamp>, metadata: MetadataView)
    requires
        written(c, used, files, metadata),
    ensures
        load_spec(Some(c), used, files) == Some(refreshed(metadata)),
{
}

/// A cache is not used once a task file was added, removed, or changed its
/// modification time or size.
pub proof fn law_changed_files_invalidate(
    c: Cache,
    used: RubyView,
    files: Map<Seq<char>, FileStamp>,
    metadata: MetadataView,
    now: Map<Seq<char>, FileStamp>,
)
    requires
        written(c, used, files, metadata),
        now != files,
    ensures
        load_spec(Some(c), used, now) is None,
{
}

/// A cache is not used once the interpreter is described differently, for
/// example after a Gemfile appears or `RT_RUBY` changes.
pub proof fn law_changed_interpreter_invalidates(
    c: Cache,
    used: RubyView,
    files: Map<Seq<char>, FileStamp>,
    metadata: MetadataView,
    now: RubyView,
)
    requires
        written(c, used, files, metadata),
        describe_spec(now) != describe_spec(used),
    ensures
        load_spec(Some(c), now, files) is None,
{
}

/// A stale cache is never used: one of an older format or harness protocol,
/// of another interpreter, or for other task files answers nothing, so
/// discovery runs again.
pub proof fn law_stale_cache_is_not_used(c: Cache, ruby: RubyView, current: Map<Seq<char>, FileStamp>)
    requires
        !valid_spec(c, describe_spec(ruby), current),
    ensures
        load_spec(Some(c), ruby, current) is None,
{
}

} // verus!
