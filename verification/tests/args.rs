use rt::args::{parse, ParsedArgs};
use rt::error::RtError;
use rt::json::JsonValue;
use rt::metadata::{OptionType, Param, Source, Task, TaskOption};

fn task() -> Task {
    Task {
        name: "deploy".to_string(),
        description: None,
        file: "tasks/deploy.rb".to_string(),
        params: vec![Param {
            name: "environment".to_string(),
            required: true,
            default: JsonValue::Null,
            enum_values: Some(vec!["staging".to_string(), "production".to_string()]),
            description: None,
        }],
        options: vec![
            TaskOption {
                name: "workers".to_string(),
                option_type: OptionType::Integer,
                default: JsonValue::Int(2),
                minimum: None,
                maximum: None,
                description: None,
            },
            TaskOption {
                name: "force".to_string(),
                option_type: OptionType::Boolean,
                default: JsonValue::Bool(false),
                minimum: None,
                maximum: None,
                description: None,
            },
            TaskOption {
                name: "tag".to_string(),
                option_type: OptionType::String,
                default: JsonValue::Null,
                minimum: None,
                maximum: None,
                description: None,
            },
        ],
        gems: Vec::new(),
        requirements: Vec::new(),
        source: Source::Project,
    }
}

fn owned(args: &[&str]) -> Vec<String> {
    args.iter().map(|s| s.to_string()).collect()
}

fn parse_ok(args: &[&str]) -> ParsedArgs {
    parse(&task(), &owned(args)).unwrap()
}

fn parse_err(args: &[&str]) -> RtError {
    parse(&task(), &owned(args)).unwrap_err()
}

fn param(p: &ParsedArgs, name: &str) -> JsonValue {
    p.params.get(name).cloned().expect("param present")
}

fn option(p: &ParsedArgs, name: &str) -> JsonValue {
    p.options.get(name).cloned().expect("option present")
}

#[test]
fn positional_param_and_defaults() {
    let p = parse_ok(&["staging"]);
    assert_eq!(param(&p, "environment"), JsonValue::Str("staging".to_string()));
    assert_eq!(option(&p, "workers"), JsonValue::Int(2));
    assert_eq!(option(&p, "force"), JsonValue::Bool(false));
    assert_eq!(option(&p, "tag"), JsonValue::Null);
    assert!(!p.dry_run);
}

#[test]
fn separate_and_equals_option_forms() {
    let a = parse_ok(&["staging", "--workers", "8"]);
    assert_eq!(option(&a, "workers"), JsonValue::Int(8));
    let b = parse_ok(&["staging", "--workers=8"]);
    assert_eq!(option(&b, "workers"), JsonValue::Int(8));
}

#[test]
fn boolean_flag_and_explicit_value() {
    assert_eq!(option(&parse_ok(&["staging", "--force"]), "force"), JsonValue::Bool(true));
    assert_eq!(option(&parse_ok(&["staging", "--force=false"]), "force"), JsonValue::Bool(false));
}

#[test]
fn dry_run_flag() {
    assert!(parse_ok(&["staging", "--dry-run"]).dry_run);
}

#[test]
fn string_option() {
    assert_eq!(option(&parse_ok(&["staging", "--tag", "v1"]), "tag"), JsonValue::Str("v1".to_string()));
}

#[test]
fn missing_required_param_is_usage_error() {
    let e = parse_err(&[]);
    assert_eq!(e.exit_code(), 2);
    assert!(e.to_text().contains("missing required argument"));
    assert!(e.to_text().contains("usage:"));
}

#[test]
fn enum_violation_is_usage_error() {
    let e = parse_err(&["dev"]);
    assert_eq!(e.exit_code(), 2);
    assert!(e.to_text().contains("must be one of"));
}

#[test]
fn bad_integer_is_usage_error() {
    let e = parse_err(&["staging", "--workers", "lots"]);
    assert_eq!(e.exit_code(), 2);
    assert!(e.to_text().contains("integer"));
}

#[test]
fn unknown_option_is_usage_error() {
    let e = parse_err(&["staging", "--nope"]);
    assert_eq!(e.exit_code(), 2);
    assert!(e.to_text().contains("unknown option"));
}

#[test]
fn extra_positional_is_usage_error() {
    let e = parse_err(&["staging", "extra"]);
    assert_eq!(e.exit_code(), 2);
    assert!(e.to_text().contains("unexpected argument"));
}

#[test]
fn missing_value_for_option_is_usage_error() {
    let e = parse_err(&["staging", "--workers"]);
    assert_eq!(e.exit_code(), 2);
    assert!(e.to_text().contains("requires a value"));
}

#[test]
fn accepted_command_line_gives_exactly_the_declared_inputs() {
    let p = parse_ok(&["production", "--tag=v2", "--force"]);
    let mut option_keys: Vec<&str> = p.options.entries.iter().map(|(k, _)| k.as_str()).collect();
    option_keys.sort();
    assert_eq!(option_keys, vec!["force", "tag", "workers"]);
    let param_keys: Vec<&str> = p.params.entries.iter().map(|(k, _)| k.as_str()).collect();
    assert_eq!(param_keys, vec!["environment"]);
}

#[test]
fn out_of_range_and_bad_boolean_messages() {
    let mut t = task();
    t.options[0].minimum = Some(1);
    t.options[0].maximum = Some(16);
    let e = parse(&t, &owned(&["staging", "--workers", "17"])).unwrap_err();
    assert_eq!(
        e.to_text(),
        "option --workers must be within 1..16, got 17\n\nusage: rt run deploy <environment> [--workers] [--force] [--tag]"
    );
    t.options[0].maximum = None;
    let e = parse(&t, &owned(&["staging", "--workers=0"])).unwrap_err();
    assert!(e.to_text().starts_with("option --workers must be at least 1, got 0\n"));
    let e = parse_err(&["staging", "--force=maybe"]);
    assert!(e.to_text().starts_with("option --force expects true or false, got \"maybe\"\n"));
    let e = parse_err(&["dev"]);
    assert!(e.to_text().starts_with("argument \"dev\" for <environment> must be one of: staging, production\n"));
}

#[test]
fn value_after_option_may_look_like_a_flag() {
    let p = parse_ok(&["staging", "--tag", "--dry-run"]);
    assert_eq!(option(&p, "tag"), JsonValue::Str("--dry-run".to_string()));
    assert!(!p.dry_run);
}

#[test]
fn separate_and_inline_forms_agree_after_self_contained_tokens() {
    let cases: Vec<(Vec<&str>, Vec<&str>)> = vec![
        (vec!["staging", "--force", "--workers", "3", "--tag=x"], vec!["staging", "--force", "--workers=3", "--tag=x"]),
        (vec!["--dry-run", "--tag", "v9", "staging"], vec!["--dry-run", "--tag=v9", "staging"]),
        (vec!["staging", "--workers", "lots"], vec!["staging", "--workers=lots"]),
        (vec!["staging", "--workers", "5", "extra"], vec!["staging", "--workers=5", "extra"]),
        (vec!["staging", "--nope=1", "v"], vec!["staging", "--nope=1=v"]),
        (vec!["staging", "--nope", "v"], vec!["staging", "--nope=v"]),
    ];
    for (separate, inline) in cases {
        let a = parse(&task(), &owned(&separate));
        let b = parse(&task(), &owned(&inline));
        match (a, b) {
            (Ok(x), Ok(y)) => {
                assert_eq!(x.dry_run, y.dry_run);
                for name in ["workers", "force", "tag"] {
                    assert_eq!(option(&x, name), option(&y, name));
                }
                assert_eq!(param(&x, "environment"), param(&y, "environment"));
            },
            (Err(x), Err(y)) => assert_eq!(x.to_text(), y.to_text()),
            (x, y) => panic!("forms disagree: {:?} / {:?}", x.is_ok(), y.is_ok()),
        }
    }
}
