use rt::json::JsonValue;
use rt::metadata::{LoadError, Metadata, OptionType, Param, Source, Task, TaskOption, METADATA_SCHEMA_VERSION};
use rt::tool_catalog::{InputProperty, JsonType, ToolCatalog};

fn property(p: &InputProperty) -> (JsonType, Option<&str>, Option<Vec<&str>>, Option<JsonValue>) {
    (
        p.schema_type,
        p.description.as_deref(),
        p.enum_values.as_ref().map(|v| v.iter().map(|s| s.as_str()).collect()),
        p.default.clone(),
    )
}

#[test]
fn complete_catalog_json_contract_preserves_raw_task_name() {
    let metadata = Metadata {
        schema_version: METADATA_SCHEMA_VERSION,
        tasks: vec![Task {
            name: "deploy:prod/v1".to_string(),
            description: Some("Deploy the application".to_string()),
            file: "tasks/deploy.rb".to_string(),
            params: vec![
                Param {
                    name: "environment".to_string(),
                    required: true,
                    default: JsonValue::Null,
                    enum_values: Some(vec!["staging".to_string(), "production".to_string()]),
                    description: Some("Target environment".to_string()),
                },
                Param {
                    name: "revision".to_string(),
                    required: false,
                    default: JsonValue::Str("main".to_string()),
                    enum_values: None,
                    description: None,
                },
            ],
            options: vec![
                TaskOption {
                    name: "workers".to_string(),
                    option_type: OptionType::Integer,
                    default: JsonValue::Int(2),
                    minimum: None,
                    maximum: None,
                    description: Some("Worker count".to_string()),
                },
                TaskOption {
                    name: "force".to_string(),
                    option_type: OptionType::Boolean,
                    default: JsonValue::Null,
                    minimum: None,
                    maximum: None,
                    description: None,
                },
                TaskOption {
                    name: "label".to_string(),
                    option_type: OptionType::String,
                    default: JsonValue::Null,
                    minimum: None,
                    maximum: None,
                    description: None,
                },
            ],
            gems: Vec::new(),
            requirements: Vec::new(),
            source: Source::Global,
        }],
        errors: vec![LoadError {
            file: "tasks/broken.rb".to_string(),
            class: "SyntaxError".to_string(),
            message: "unexpected end-of-input".to_string(),
            source: Source::Global,
        }],
    };

    let catalog = ToolCatalog::from_metadata(&metadata);
    assert_eq!(catalog.schema_version, 3);
    assert_eq!(catalog.tools.len(), 1);
    let tool = &catalog.tools[0];
    assert_eq!(tool.task, "deploy:prod/v1");
    assert_eq!(tool.description.as_deref(), Some("Deploy the application"));
    assert_eq!(tool.source, Source::Global);
    assert!(tool.requirements.is_empty());
    let schema = &tool.input_schema;
    assert_eq!(schema.schema_type, JsonType::Object);
    let mut names: Vec<&str> = schema.properties.entries.iter().map(|(k, _)| k.as_str()).collect();
    names.sort();
    assert_eq!(names, vec!["dry_run", "environment", "force", "label", "revision", "workers"]);
    let get = |name: &str| property(schema.properties.get(name).unwrap());
    assert_eq!(
        get("environment"),
        (JsonType::String, Some("Target environment"), Some(vec!["staging", "production"]), None)
    );
    assert_eq!(get("revision"), (JsonType::String, None, None, Some(JsonValue::Str("main".to_string()))));
    assert_eq!(get("workers"), (JsonType::Integer, Some("Worker count"), None, Some(JsonValue::Int(2))));
    assert_eq!(get("force"), (JsonType::Boolean, None, None, Some(JsonValue::Bool(false))));
    assert_eq!(get("label"), (JsonType::String, None, None, None));
    assert_eq!(
        get("dry_run"),
        (JsonType::Boolean, Some("Set the task's dry-run flag"), None, Some(JsonValue::Bool(false)))
    );
    for name in ["environment", "revision", "workers", "force", "label", "dry_run"] {
        let p = schema.properties.get(name).unwrap();
        assert_eq!((p.minimum, p.maximum), (None, None));
    }
    assert_eq!(schema.required, vec!["environment".to_string()]);
    assert!(!schema.additional_properties);
    assert_eq!(catalog.errors.len(), 1);
    let e = &catalog.errors[0];
    assert_eq!(
        (e.file.as_str(), e.class.as_str(), e.message.as_str(), e.source),
        ("tasks/broken.rb", "SyntaxError", "unexpected end-of-input", Source::Global)
    );
}
