use rt::json::JsonValue;
use rt::metadata::{GemRequirement, LoadError, Metadata, OptionType, Param, Source, Task, TaskOption};
use rt::output::{help_lines, list_lines, load_error_warnings, usage_line};

fn task(name: &str, source: Source) -> Task {
    Task {
        name: name.to_string(),
        description: None,
        file: format!("tasks/{}.rb", name),
        params: Vec::new(),
        options: Vec::new(),
        gems: Vec::new(),
        requirements: Vec::new(),
        source,
    }
}

fn deploy() -> Task {
    let mut t = task("deploy", Source::Project);
    t.description = Some("Deploy the application".to_string());
    t.params = vec![
        Param {
            name: "environment".to_string(),
            required: true,
            default: JsonValue::Null,
            enum_values: Some(vec!["staging".to_string(), "production".to_string()]),
            description: Some("Target environment".to_string()),
        },
        Param {
            name: "revision".to_string(),
            required: false,
            default: JsonValue::Str("main".to_string()),
            enum_values: None,
            description: None,
        },
    ];
    t.options = vec![
        TaskOption {
            name: "workers".to_string(),
            option_type: OptionType::Integer,
            default: JsonValue::Int(4),
            minimum: Some(1),
            maximum: Some(16),
            description: Some("Worker count".to_string()),
        },
        TaskOption {
            name: "force".to_string(),
            option_type: OptionType::Boolean,
            default: JsonValue::Null,
            minimum: None,
            maximum: None,
            description: None,
        },
    ];
    t
}

#[test]
fn help_shows_usage_params_and_options() {
    let lines = help_lines(&deploy(), None);
    assert_eq!(
        lines,
        vec![
            "Usage: rt run deploy <environment> [revision] [options]",
            "",
            "Deploy the application",
            "",
            "Params:",
            "  environment (required) [staging, production] - Target environment",
            "  revision (default: \"main\")",
            "",
            "Options:",
            "  --workers <integer> [range: 1..16] (default: 4) - Worker count",
            "  --force <boolean>",
            "  --dry-run  Preview without side effects",
        ]
    );
}

#[test]
fn help_of_the_getting_started_task() {
    let mut t = task("greet", Source::Project);
    t.description = Some("Greet someone by name".to_string());
    t.options = vec![TaskOption {
        name: "name".to_string(),
        option_type: OptionType::String,
        default: JsonValue::Str("world".to_string()),
        minimum: None,
        maximum: None,
        description: Some("who to greet".to_string()),
    }];
    assert_eq!(
        help_lines(&t, None),
        vec![
            "Usage: rt run greet [options]",
            "",
            "Greet someone by name",
            "",
            "Options:",
            "  --name <string> (default: \"world\") - who to greet",
            "  --dry-run  Preview without side effects",
        ]
    );
}

#[test]
fn help_shows_global_source_gems_and_requirements() {
    let mut t = task("ggreet", Source::Global);
    t.gems = vec![
        GemRequirement { name: "rake".to_string(), requirements: Vec::new() },
        GemRequirement { name: "octokit".to_string(), requirements: vec!["~> 8.0".to_string(), ">= 8.1".to_string()] },
    ];
    t.requirements = vec!["rails".to_string()];
    let lines = help_lines(&t, Some(b"/home/me/.config/rt".as_slice()));
    assert_eq!(
        lines,
        vec![
            "Usage: rt run ggreet",
            "Source: global (/home/me/.config/rt)",
            "Gems: rake, octokit (~> 8.0, >= 8.1)",
            "Requires: rails",
        ]
    );
    assert_eq!(help_lines(&t, None)[1], "Source: global");
}

#[test]
fn one_sided_ranges_are_shown_open() {
    let mut t = task("scale", Source::Project);
    t.options = vec![
        TaskOption {
            name: "min".to_string(),
            option_type: OptionType::Integer,
            default: JsonValue::Null,
            minimum: Some(-3),
            maximum: None,
            description: None,
        },
        TaskOption {
            name: "max".to_string(),
            option_type: OptionType::Integer,
            default: JsonValue::Null,
            minimum: None,
            maximum: Some(9),
            description: None,
        },
    ];
    let lines = help_lines(&t, None);
    assert_eq!(lines[3], "  --min <integer> [range: -3..]");
    assert_eq!(lines[4], "  --max <integer> [range: ..9]");
}

#[test]
fn usage_line_lists_params_and_options() {
    assert_eq!(usage_line(&deploy()), "rt run deploy <environment> [revision] [--workers] [--force]");
}

#[test]
fn empty_list_says_so() {
    let meta = Metadata { schema_version: 4, tasks: Vec::new(), errors: Vec::new() };
    assert_eq!(list_lines(&meta), vec!["No tasks defined."]);
}

#[test]
fn single_source_list_is_sorted_and_aligned() {
    let mut greet = task("greet", Source::Project);
    greet.description = Some("Greet someone by name".to_string());
    let mut build = task("build", Source::Project);
    build.description = Some("Build it".to_string());
    let deploy_all = task("deploy:all", Source::Project);
    let meta = Metadata { schema_version: 4, tasks: vec![greet, build, deploy_all], errors: Vec::new() };
    assert_eq!(
        list_lines(&meta),
        vec!["  build       Build it", "  deploy:all  ", "  greet       Greet someone by name"]
    );
}

#[test]
fn project_and_global_tasks_list_in_two_sections() {
    let mut greet = task("greet", Source::Project);
    greet.description = Some("Hi".to_string());
    let mut ggreet = task("ggreet", Source::Global);
    ggreet.description = Some("Global hi".to_string());
    let meta = Metadata { schema_version: 4, tasks: vec![ggreet, greet], errors: Vec::new() };
    assert_eq!(
        list_lines(&meta),
        vec!["Project tasks:", "  greet   Hi", "", "Global tasks:", "  ggreet  Global hi"]
    );
}

#[test]
fn list_pads_by_bytes_like_the_width_is_measured() {
    let mut wide = task("héllo", Source::Project);
    wide.description = Some("x".to_string());
    let mut short = task("ab", Source::Project);
    short.description = Some("y".to_string());
    let meta = Metadata { schema_version: 4, tasks: vec![wide, short], errors: Vec::new() };
    assert_eq!(list_lines(&meta), vec!["  ab      y", "  héllo   x"]);
}

#[test]
fn load_errors_become_warnings() {
    let meta = Metadata {
        schema_version: 4,
        tasks: Vec::new(),
        errors: vec![LoadError {
            file: "tasks/broken.rb".to_string(),
            class: "SyntaxError".to_string(),
            message: "unexpected end-of-input".to_string(),
            source: Source::Project,
        }],
    };
    assert_eq!(load_error_warnings(&meta), vec!["tasks/broken.rb (SyntaxError): unexpected end-of-input"]);
}
