use rt::args::ParsedArgs;
use rt::cli::{json_run_requested, run_task_name};
use rt::error::RtError;
use rt::json::{JsonValue, KeyedList};
use rt::metadata::{GemRequirement, LoadError, Metadata, OptionType, Param, Source, Task, TaskOption};
use rt::project::{config_dir, find_project, find_roots, join_path};
use rt::ruby::{discovery_failure, environment_error, gitignore_update, RubyCommand};
use rt::runner::{merge, prepare_run, unknown_task, Loaded, PreparedRun};
use rt::tool_catalog::{JsonType, ToolCatalog, ToolDefinition};

fn task(name: &str) -> Task {
    Task {
        name: name.to_string(),
        description: None,
        file: format!("tasks/{}.rb", name),
        params: Vec::new(),
        options: Vec::new(),
        gems: Vec::new(),
        requirements: Vec::new(),
        source: Source::Project,
    }
}

fn meta(tasks: Vec<Task>) -> Metadata {
    Metadata { schema_version: 4, tasks, errors: Vec::new() }
}

fn words(list: &[&str]) -> Vec<String> {
    list.iter().map(|s| s.to_string()).collect()
}

#[test]
fn project_task_shadows_global_of_same_name() {
    let project = meta(vec![task("greet")]);
    let mut global = meta(vec![task("greet"), task("ggreet")]);
    global.errors.push(LoadError {
        file: "tasks/bad.rb".to_string(),
        class: "SyntaxError".to_string(),
        message: "oops".to_string(),
        source: Source::Project,
    });
    let merged = merge(Some(project), Some(global));
    assert_eq!(merged.schema_version, 4);
    let names: Vec<&str> = merged.tasks.iter().map(|t| t.name.as_str()).collect();
    assert_eq!(names, vec!["greet", "ggreet"]);
    assert_eq!(merged.tasks[0].source, Source::Project);
    assert_eq!(merged.tasks[1].source, Source::Global);
    assert_eq!(merged.errors.len(), 2);
    assert_eq!(merged.errors[0].class, "ShadowedTask");
    assert_eq!(merged.errors[0].source, Source::Global);
    assert_eq!(merged.errors[0].file, "tasks/greet.rb");
    assert_eq!(merged.errors[0].message, "global task \"greet\" is hidden by a project task of the same name");
    assert_eq!(merged.errors[1].class, "SyntaxError");
    assert_eq!(merged.errors[1].source, Source::Global);
}

#[test]
fn merge_of_global_only_tags_global() {
    let merged = merge(None, Some(meta(vec![task("a")])));
    assert_eq!(merged.tasks.len(), 1);
    assert_eq!(merged.tasks[0].source, Source::Global);
    let empty = merge(None, None);
    assert!(empty.tasks.is_empty() && empty.errors.is_empty());
}

#[test]
fn unknown_task_lists_sorted_names() {
    let m = meta(vec![task("zeta"), task("alpha"), task("mid")]);
    match unknown_task(&m, "nope") {
        RtError::Usage(msg) => assert_eq!(msg, "unknown task \"nope\". Available tasks: alpha, mid, zeta"),
        other => panic!("unexpected {:?}", other),
    }
}

fn loaded(tasks: Vec<Task>, with_project: bool) -> Loaded {
    Loaded {
        meta: meta(tasks),
        project: if with_project { Some((b"/work".to_vec(), RubyCommand::plain())) } else { None },
        global: None,
    }
}

fn deploy_task() -> Task {
    let mut t = task("deploy");
    t.params = vec![Param {
        name: "environment".to_string(),
        required: true,
        default: JsonValue::Null,
        enum_values: None,
        description: None,
    }];
    t.options = vec![TaskOption {
        name: "workers".to_string(),
        option_type: OptionType::Integer,
        default: JsonValue::Int(4),
        minimum: Some(1),
        maximum: Some(16),
        description: None,
    }];
    t
}

#[test]
fn prepared_run_carries_root_interpreter_and_input() {
    let p: PreparedRun = prepare_run(loaded(vec![deploy_task()], true), "deploy", &words(&["staging"]), None).unwrap();
    assert_eq!(p.root, b"/work".to_vec());
    assert_eq!(p.source, Source::Project);
    assert_eq!(p.ruby.describe(), "ruby [unbundled]");
    assert_eq!(p.task, "deploy");
    assert_eq!(
        p.run_input(),
        "{\"dry_run\":false,\"options\":{\"workers\":4},\"params\":{\"environment\":\"staging\"},\"task\":\"deploy\"}"
    );
}

#[test]
fn out_of_range_option_is_refused() {
    let e = prepare_run(loaded(vec![deploy_task()], true), "deploy", &words(&["staging", "--workers", "17"]), None)
        .unwrap_err();
    assert_eq!(e.error.exit_code(), 2);
    assert_eq!(
        e.error.to_text(),
        "option --workers must be within 1..16, got 17\n\nusage: rt run deploy <environment> [--workers]"
    );
}

#[test]
fn unknown_and_unbacked_tasks_are_refused() {
    let e = prepare_run(loaded(vec![deploy_task()], true), "nope", &words(&[]), None).unwrap_err();
    assert_eq!(e.error.to_text(), "unknown task \"nope\". Available tasks: deploy");
    let e = prepare_run(loaded(vec![deploy_task()], false), "deploy", &words(&["staging"]), None).unwrap_err();
    assert_eq!(e.error.exit_code(), 70);
    assert_eq!(e.error.to_text(), "internal error: resolved task has no backing root");
}

#[test]
fn gem_task_runs_under_isolated_ruby() {
    let mut t = task("with_rake");
    t.gems = vec![GemRequirement { name: "rake".to_string(), requirements: Vec::new() }];
    let p = prepare_run(loaded(vec![t.clone()], true), "with_rake", &words(&[]), Some("/opt/ruby".to_string())).unwrap();
    assert!(p.ruby.isolated);
    assert_eq!(p.ruby.program, "/opt/ruby");
    let p = prepare_run(loaded(vec![t], true), "with_rake", &words(&[]), None).unwrap();
    assert_eq!(p.ruby.program, "ruby");
    assert!(p.ruby.bundle_gemfile.is_none());
}

#[test]
fn run_input_escapes_and_keeps_dry_run() {
    let mut params = KeyedList::new();
    params.insert("msg".to_string(), JsonValue::Str("a \"q\"\n".to_string()));
    let p = PreparedRun {
        root: Vec::new(),
        source: Source::Project,
        ruby: RubyCommand::plain(),
        task: "t".to_string(),
        args: ParsedArgs { params, options: KeyedList::new(), dry_run: true },
        load_errors: Vec::new(),
    };
    assert_eq!(p.run_input(), "{\"dry_run\":true,\"options\":{},\"params\":{\"msg\":\"a \\\"q\\\"\\n\"},\"task\":\"t\"}");
}

#[test]
fn catalog_preserves_raw_task_name_and_schema() {
    let mut t = deploy_task();
    t.name = "deploy:prod/v1".to_string();
    t.requirements = vec!["rails".to_string()];
    t.options.push(TaskOption {
        name: "force".to_string(),
        option_type: OptionType::Boolean,
        default: JsonValue::Null,
        minimum: None,
        maximum: None,
        description: None,
    });
    let tool = ToolDefinition::from_task(&t);
    assert_eq!(tool.task, "deploy:prod/v1");
    assert_eq!(tool.requirements, vec!["rails".to_string()]);
    let schema = &tool.input_schema;
    assert_eq!(schema.schema_type, JsonType::Object);
    assert!(!schema.additional_properties);
    assert_eq!(schema.required, vec!["environment".to_string()]);
    let env = schema.properties.get("environment").unwrap();
    assert_eq!(env.schema_type, JsonType::String);
    assert!(env.default.is_none());
    let workers = schema.properties.get("workers").unwrap();
    assert_eq!(workers.schema_type, JsonType::Integer);
    assert_eq!(workers.minimum, Some(1));
    assert_eq!(workers.maximum, Some(16));
    assert_eq!(workers.default, Some(JsonValue::Int(4)));
    let force = schema.properties.get("force").unwrap();
    assert_eq!(force.default, Some(JsonValue::Bool(false)));
    let dry = schema.properties.get("dry_run").unwrap();
    assert_eq!(dry.schema_type, JsonType::Boolean);
    assert_eq!(dry.description.as_deref(), Some("Set the task's dry-run flag"));
    assert_eq!(dry.default, Some(JsonValue::Bool(false)));
    assert_eq!(schema.properties.entries.len(), 4);
}

#[test]
fn catalog_for_one_task_keeps_the_shape() {
    let mut m = meta(vec![task("a"), task("b")]);
    m.errors.push(LoadError {
        file: "tasks/x.rb".to_string(),
        class: "SyntaxError".to_string(),
        message: "m".to_string(),
        source: Source::Project,
    });
    let all = ToolCatalog::from_metadata(&m);
    assert_eq!(all.schema_version, 3);
    assert_eq!(all.tools.len(), 2);
    assert_eq!(all.errors.len(), 1);
    let one = ToolCatalog::for_task(&m, "b").unwrap();
    assert_eq!(one.tools.len(), 1);
    assert_eq!(one.tools[0].task, "b");
    assert_eq!(one.errors.len(), 1);
    match ToolCatalog::for_task(&m, "zzz") {
        Err(e) => {
            assert_eq!(e.exit_code(), 2);
            assert_eq!(e.to_text(), "unknown task \"zzz\". Available tasks: a, b");
        },
        Ok(_) => panic!("unknown task accepted"),
    }
}

#[test]
fn json_run_is_recognised_before_or_after_the_task() {
    assert!(json_run_requested(&words(&["rt", "run", "--json", "greet"])));
    assert!(json_run_requested(&words(&["rt", "run", "greet", "--json"])));
    assert!(!json_run_requested(&words(&["rt", "run", "greet", "--", "--json"])));
    assert!(!json_run_requested(&words(&["rt", "list", "--json"])));
    assert!(!json_run_requested(&words(&["rt"])));
}

#[test]
fn run_task_name_skips_flags() {
    assert_eq!(run_task_name(&words(&["rt", "run", "--json", "greet", "x"])), "greet");
    assert_eq!(run_task_name(&words(&["rt", "run", "--json"])), "");
    assert_eq!(run_task_name(&words(&["rt", "run", "--", "greet"])), "");
    assert_eq!(run_task_name(&words(&["rt"])), "");
}

#[test]
fn config_dir_resolution_order() {
    let some = |s: &str| Some(s.as_bytes().to_vec());
    assert_eq!(config_dir(some("/cfg"), some("/xdg"), some("/home/me")), some("/cfg"));
    assert_eq!(config_dir(some(""), some("/xdg"), some("/home/me")), some("/xdg/rt"));
    assert_eq!(config_dir(None, some("/xdg/"), None), some("/xdg/rt"));
    assert_eq!(config_dir(None, None, some("/home/me")), some("/home/me/.config/rt"));
    assert_eq!(config_dir(None, some(""), some("")), None);
    assert_eq!(join_path(b"/a".to_vec(), b"b"), b"/a/b".to_vec());
}

#[test]
fn project_is_the_nearest_marked_ancestor() {
    let dirs = vec![
        (b"/w/sub/deeper".to_vec(), false),
        (b"/w/sub".to_vec(), false),
        (b"/w".to_vec(), true),
        (b"/".to_vec(), true),
    ];
    assert_eq!(find_project(None, dirs).unwrap(), Some(b"/w".to_vec()));
    assert_eq!(find_project(None, vec![(b"/x".to_vec(), false)]).unwrap(), None);
    assert_eq!(find_project(Some((b"/r".to_vec(), true)), Vec::new()).unwrap(), Some(b"/r".to_vec()));
    let e = find_project(Some((b"/r".to_vec(), false)), Vec::new()).unwrap_err();
    assert_eq!(e.exit_code(), 2);
    assert_eq!(e.to_text(), "RT_ROOT is set to /r but no .rt/ directory was found there");
}

#[test]
fn missing_project_and_global_is_a_usage_error() {
    let e = find_roots(None, None, false).unwrap_err();
    assert_eq!(e.exit_code(), 2);
    assert!(e.to_text().contains("no rt project found"));
    assert!(e.to_text().contains(".rt/"));
    let r = find_roots(Some(b"/w".to_vec()), Some(b"/w".to_vec()), true).unwrap();
    assert_eq!(r.project, Some(b"/w".to_vec()));
    assert_eq!(r.global, None);
    let r = find_roots(None, Some(b"/g".to_vec()), false).unwrap();
    assert_eq!(r.global, Some(b"/g".to_vec()));
}

#[test]
fn ruby_resolution() {
    let (r, w) = RubyCommand::resolve(Some("/usr/bin/ruby".to_string()), Some(b"/w/Gemfile".to_vec()), true);
    assert_eq!(r.describe(), "/usr/bin/ruby [unbundled]");
    assert!(w.is_none());
    let (r, w) = RubyCommand::resolve(None, Some(b"/w/Gemfile".to_vec()), true);
    assert_eq!(r.describe(), "bundle exec ruby @/w/Gemfile");
    assert!(r.is_bundle());
    assert_eq!(r.program(), "bundle");
    assert!(w.is_none());
    let (r, w) = RubyCommand::resolve(None, Some(b"/w/Gemfile".to_vec()), false);
    assert_eq!(r.describe(), "ruby [unbundled]");
    assert_eq!(w.as_deref(), Some("found a Gemfile but `bundle` is not on PATH; falling back to plain ruby"));
    let (r, _) = RubyCommand::resolve(None, None, true);
    assert!(!r.is_bundle());
}

#[test]
fn bundled_discovery_failure_falls_back_once() {
    let (bundled, _) = RubyCommand::resolve(None, Some(b"/w/Gemfile".to_vec()), true);
    let err = discovery_failure("  could not find gem  \n");
    assert_eq!(err.to_text(), "internal error: harness failed during discovery: could not find gem");
    let (plain, warning) = bundled.fallback_after(&err).unwrap();
    assert_eq!(plain.describe(), "ruby [unbundled]");
    assert_eq!(
        warning,
        "`bundle exec ruby` failed (internal error: harness failed during discovery: could not find gem); retrying with plain ruby"
    );
    assert!(plain.fallback_after(&err).is_none());
}

#[test]
fn missing_ruby_is_environment_error() {
    let e = environment_error(&RubyCommand::plain(), "No such file or directory (os error 2)");
    assert_eq!(e.exit_code(), 74);
    assert_eq!(
        e.to_text(),
        "could not start Ruby (ruby): No such file or directory (os error 2). Install Ruby or set RT_RUBY to a Ruby interpreter."
    );
}

#[test]
fn generated_gitignore_anchors_patterns_to_the_home() {
    assert_eq!(gitignore_update(None).as_deref(), Some("/cache.json\n/harness-*.rb\n/*.tmp\n"));
    assert_eq!(gitignore_update(Some("*\n")).as_deref(), Some("/cache.json\n/harness-*.rb\n/*.tmp\n"));
    assert_eq!(gitignore_update(Some("/cache.json\n/my-scratch/\n")), None);
}

#[test]
fn launch_plan_scrubs_the_environment() {
    let inherited = vec![b"PATH".to_vec(), b"BUNDLE_PATH".to_vec(), b"BUNDLER_VERSION".to_vec(), b"BUNDLE_BIN_PATH".to_vec()];
    let (bundled, _) = RubyCommand::resolve(None, Some(b"/w/Gemfile".to_vec()), true);
    let plan = bundled.launch_plan(&inherited);
    assert_eq!(plan.program, "bundle");
    assert_eq!(plan.args, vec!["exec".to_string(), "ruby".to_string()]);
    assert_eq!(plan.gemfile, Some(b"/w/Gemfile".to_vec()));
    assert_eq!(plan.remove_env, vec![b"RUBYOPT".to_vec(), b"RUBYLIB".to_vec()]);
    let isolated = RubyCommand::plain_isolated(None);
    let plan = isolated.launch_plan(&inherited);
    assert_eq!(plan.program, "ruby");
    assert!(plan.args.is_empty());
    assert_eq!(plan.gemfile, None);
    assert_eq!(
        plan.remove_env,
        vec![
            b"RUBYOPT".to_vec(),
            b"RUBYLIB".to_vec(),
            b"BUNDLE_GEMFILE".to_vec(),
            b"GEM_HOME".to_vec(),
            b"GEM_PATH".to_vec(),
            b"BUNDLE_PATH".to_vec(),
            b"BUNDLE_BIN_PATH".to_vec(),
        ]
    );
}

#[test]
fn harness_file_names_use_sixteen_hex_digits() {
    assert_eq!(rt::ruby::harness_file_name(0xdeadbeef), "harness-00000000deadbeef.rb");
    assert_eq!(rt::ruby::harness_file_name(u64::MAX), "harness-ffffffffffffffff.rb");
    assert_eq!(rt::ruby::harness_file_name(0x0123456789abcdef), format!("harness-{:016x}.rb", 0x0123456789abcdefu64));
}

#[test]
fn help_names_the_global_root() {
    let mut g = task("ggreet");
    g.source = Source::Global;
    let loaded = Loaded {
        meta: meta(vec![task("greet"), g]),
        project: Some((b"/w".to_vec(), RubyCommand::plain())),
        global: Some((b"/home/me/.config/rt".to_vec(), RubyCommand::plain())),
    };
    let lines = rt::runner::help_text(&loaded, "ggreet").unwrap();
    assert_eq!(lines, vec!["Usage: rt run ggreet", "Source: global (/home/me/.config/rt)"]);
    assert_eq!(rt::runner::help_text(&loaded, "greet").unwrap(), vec!["Usage: rt run greet"]);
    let e = rt::runner::help_text(&loaded, "nope").unwrap_err();
    assert_eq!(e.to_text(), "unknown task \"nope\". Available tasks: ggreet, greet");
}

#[test]
fn refused_json_run_command_line_is_answered_in_json() {
    let message = "error: the following required arguments were not provided:\n  <TASK>\n\n";
    let r = rt::cli::parse_failure_result(&words(&["rt", "run", "--json"]), message, 2).unwrap();
    assert_eq!(r.task, "");
    assert_eq!(r.exit_code, 2);
    let e = r.error.unwrap();
    assert_eq!(e.kind, rt::run_result::ErrorKind::Usage);
    assert_eq!(e.message, "error: the following required arguments were not provided:\n  <TASK>");
    assert!(rt::cli::parse_failure_result(&words(&["rt", "run", "--json"]), "help", 0).is_none());
    assert!(rt::cli::parse_failure_result(&words(&["rt", "run", "x"]), message, 2).is_none());
}

#[test]
fn task_homes() {
    assert_eq!(rt::project::task_home(&b"/w".to_vec(), Source::Project), b"/w/.rt".to_vec());
    assert_eq!(rt::project::task_home(&b"/w/".to_vec(), Source::Project), b"/w/.rt".to_vec());
    assert_eq!(rt::project::task_home(&b"/cfg/rt".to_vec(), Source::Global), b"/cfg/rt".to_vec());
}

#[test]
fn run_input_is_what_serde_json_writes() {
    let mut params = KeyedList::new();
    params.insert("zeta".to_string(), JsonValue::Str("z\u{1}é".to_string()));
    params.insert("alpha".to_string(), JsonValue::Null);
    params.insert("Mid".to_string(), JsonValue::Raw("[1.5,{\"a\":2}]".to_string()));
    let mut options = KeyedList::new();
    options.insert("workers".to_string(), JsonValue::Int(-3));
    options.insert("force".to_string(), JsonValue::Bool(true));
    options.insert("ärger".to_string(), JsonValue::Str("x".to_string()));
    let p = PreparedRun {
        root: Vec::new(),
        source: Source::Project,
        ruby: RubyCommand::plain(),
        task: "deploy:prod/v1".to_string(),
        args: ParsedArgs { params, options, dry_run: false },
        load_errors: Vec::new(),
    };
    let mut expected_params = serde_json::Map::new();
    expected_params.insert("zeta".to_string(), serde_json::Value::String("z\u{1}é".to_string()));
    expected_params.insert("alpha".to_string(), serde_json::Value::Null);
    expected_params.insert("Mid".to_string(), serde_json::from_str("[1.5,{\"a\":2}]").unwrap());
    let mut expected_options = serde_json::Map::new();
    expected_options.insert("workers".to_string(), serde_json::Value::from(-3i64));
    expected_options.insert("force".to_string(), serde_json::Value::Bool(true));
    expected_options.insert("ärger".to_string(), serde_json::Value::String("x".to_string()));
    let mut doc = serde_json::Map::new();
    doc.insert("task".to_string(), serde_json::Value::String("deploy:prod/v1".to_string()));
    doc.insert("params".to_string(), serde_json::Value::Object(expected_params));
    doc.insert("options".to_string(), serde_json::Value::Object(expected_options));
    doc.insert("dry_run".to_string(), serde_json::Value::Bool(false));
    let expected = serde_json::to_vec(&serde_json::Value::Object(doc)).unwrap();
    assert_eq!(p.run_input().into_bytes(), expected);
}
