use rt::cache::{fresh, is_task_file, is_valid, load, Cache, FileSet, FileStamp, CACHE_FORMAT_VERSION};
use rt::json::KeyedList;
use rt::metadata::{LoadError, Metadata, Source, Task, HARNESS_PROTOCOL_VERSION, METADATA_SCHEMA_VERSION};
use rt::ruby::RubyCommand;

fn sample_metadata() -> Metadata {
    Metadata { schema_version: METADATA_SCHEMA_VERSION, tasks: Vec::new(), errors: Vec::new() }
}

fn cache_with(files: FileSet, ruby: &str) -> Cache {
    Cache {
        cache_format_version: CACHE_FORMAT_VERSION,
        harness_protocol_version: HARNESS_PROTOCOL_VERSION,
        ruby_command: ruby.to_string(),
        files,
        metadata: sample_metadata(),
    }
}

fn stamp(secs: u64, nanos: u32, size: u64) -> FileStamp {
    FileStamp { secs, nanos, size }
}

fn files(pairs: &[(&str, FileStamp)]) -> FileSet {
    let mut set = KeyedList::new();
    for (k, v) in pairs {
        set.insert(k.to_string(), *v);
    }
    set
}

#[test]
fn valid_when_everything_matches() {
    let f = files(&[("tasks/a.rb", stamp(10, 0, 100))]);
    let c = cache_with(f.clone(), "ruby");
    assert!(is_valid(&c, "ruby", &f));
}

#[test]
fn invalid_on_ruby_command_change() {
    let f = files(&[("tasks/a.rb", stamp(10, 0, 100))]);
    let c = cache_with(f.clone(), "ruby");
    assert!(!is_valid(&c, "bundle exec ruby", &f));
}

#[test]
fn invalid_on_mtime_change() {
    let c = cache_with(files(&[("tasks/a.rb", stamp(10, 0, 100))]), "ruby");
    let changed = files(&[("tasks/a.rb", stamp(10, 5, 100))]);
    assert!(!is_valid(&c, "ruby", &changed));
}

#[test]
fn invalid_on_size_change_at_same_mtime() {
    let c = cache_with(files(&[("tasks/a.rb", stamp(10, 0, 100))]), "ruby");
    let changed = files(&[("tasks/a.rb", stamp(10, 0, 101))]);
    assert!(!is_valid(&c, "ruby", &changed));
}

#[test]
fn invalid_on_file_set_change() {
    let c = cache_with(files(&[("tasks/a.rb", stamp(10, 0, 100))]), "ruby");
    let added = files(&[("tasks/a.rb", stamp(10, 0, 100)), ("tasks/b.rb", stamp(11, 0, 50))]);
    assert!(!is_valid(&c, "ruby", &added));
}

#[test]
fn invalid_on_cache_version_bump() {
    let f = files(&[("tasks/a.rb", stamp(10, 0, 100))]);
    let mut c = cache_with(f.clone(), "ruby");
    c.cache_format_version = CACHE_FORMAT_VERSION + 1;
    assert!(!is_valid(&c, "ruby", &f));
}

#[test]
fn invalid_on_protocol_version_mismatch() {
    let f = files(&[("tasks/a.rb", stamp(10, 0, 100))]);
    let mut c = cache_with(f.clone(), "ruby");
    c.harness_protocol_version = HARNESS_PROTOCOL_VERSION + 1;
    assert!(!is_valid(&c, "ruby", &f));
}

#[test]
fn valid_regardless_of_file_order() {
    let a = files(&[("tasks/a.rb", stamp(1, 0, 1)), ("tasks/b.rb", stamp(2, 0, 2))]);
    let b = files(&[("tasks/b.rb", stamp(2, 0, 2)), ("tasks/a.rb", stamp(1, 0, 1))]);
    let c = cache_with(a, "ruby");
    assert!(is_valid(&c, "ruby", &b));
}

#[test]
fn invalid_on_removed_file() {
    let c = cache_with(files(&[("tasks/a.rb", stamp(1, 0, 1)), ("tasks/b.rb", stamp(2, 0, 2))]), "ruby");
    let now = files(&[("tasks/a.rb", stamp(1, 0, 1))]);
    assert!(!is_valid(&c, "ruby", &now));
}

fn ghost_metadata(schema: u32) -> Metadata {
    Metadata {
        schema_version: schema,
        tasks: vec![Task {
            name: "ghost".to_string(),
            description: None,
            file: "tasks/ghost.rb".to_string(),
            params: Vec::new(),
            options: Vec::new(),
            gems: Vec::new(),
            requirements: Vec::new(),
            source: Source::Project,
        }],
        errors: vec![LoadError {
            file: "tasks/bad.rb".to_string(),
            class: "SyntaxError".to_string(),
            message: "oops".to_string(),
            source: Source::Project,
        }],
    }
}

#[test]
fn plain_ruby_is_described_as_unbundled() {
    assert_eq!(RubyCommand::plain().describe(), "ruby [unbundled]");
}

#[test]
fn cache_hit_refreshes_the_public_schema_version() {
    let current = files(&[]);
    let mut c = cache_with(current.clone(), "ruby [unbundled]");
    c.metadata = ghost_metadata(1);
    let (m, used) = load(Some(c), &RubyCommand::plain(), &current).expect("cache hit");
    assert_eq!(m.schema_version, METADATA_SCHEMA_VERSION);
    assert_eq!(m.tasks.len(), 1);
    assert_eq!(m.tasks[0].name, "ghost");
    assert_eq!(m.errors.len(), 1);
    assert_eq!(used.describe(), "ruby [unbundled]");
}

#[test]
fn cache_from_another_interpreter_misses() {
    let current = files(&[]);
    let c = cache_with(current.clone(), "ruby");
    assert!(load(Some(c), &RubyCommand::plain(), &current).is_none());
    assert!(load(None, &RubyCommand::plain(), &current).is_none());
}

#[test]
fn written_cache_is_reused_until_a_file_changes() {
    let ruby = RubyCommand::plain();
    let current = files(&[("tasks/a.rb", stamp(10, 0, 100))]);
    let written = fresh(&ruby, current.clone(), ghost_metadata(METADATA_SCHEMA_VERSION));
    assert_eq!(written.cache_format_version, CACHE_FORMAT_VERSION);
    assert_eq!(written.harness_protocol_version, HARNESS_PROTOCOL_VERSION);
    assert_eq!(written.ruby_command, "ruby [unbundled]");
    assert!(load(Some(written.clone()), &ruby, &current).is_some());
    let touched = files(&[("tasks/a.rb", stamp(10, 1, 100))]);
    assert!(load(Some(written), &ruby, &touched).is_none());
}

#[test]
fn only_rb_files_with_a_stem_are_task_files() {
    assert!(is_task_file("greet.rb"));
    assert!(is_task_file("a.rb"));
    assert!(is_task_file("..rb"));
    assert!(!is_task_file(".rb"));
    assert!(!is_task_file("greet.rbx"));
    assert!(!is_task_file("greet.RB"));
    assert!(!is_task_file("README.md"));
    assert!(!is_task_file("rb"));
}
