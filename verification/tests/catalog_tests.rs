use encapure::catalog::CatalogDoc;
use encapure::catalog::EncapureTool;
use encapure::catalog::ParamSpec;
use encapure::catalog::SchemaSpec;
use encapure::catalog::ToolSpec;
use encapure::catalog::atomize_tools;
use encapure::catalog::build_inference_view;
use encapure::catalog::build_param_summary;
use encapure::catalog::truncate_description;
use encapure::catalog::MAX_DESCRIPTION_LENGTH;

fn b(s: &str) -> Vec<u8> {
    s.as_bytes().to_vec()
}

fn s(v: &[u8]) -> String {
    String::from_utf8(v.to_vec()).unwrap()
}

fn param(name: &str, ty: Option<&str>, desc: Option<&str>) -> ParamSpec {
    ParamSpec {
        name: b(name),
        declared_type: ty.map(b),
        description: desc.map(b),
    }
}

#[test]
fn test_atomize_valid_mcp_response() {
    let doc = CatalogDoc {
        tools: Some(vec![ToolSpec {
            name: Some(b("calculate_sum")),
            description: Some(b("Add two numbers.")),
            input_schema: Some(SchemaSpec {
                properties: vec![
                    param("a", Some("number"), Some("First number")),
                    param("b", Some("number"), None),
                ],
                required: vec![b("a"), b("b")],
            }),
            raw_definition: b("{\"name\":\"calculate_sum\"}"),
        }]),
    };

    let tools = atomize_tools(&doc, &b("math_server")).unwrap();

    assert_eq!(tools.len(), 1);
    assert_eq!(s(&tools[0].name), "calculate_sum");
    assert_eq!(s(&tools[0].server_origin), "math_server");
    let view = s(&tools[0].inference_view);
    assert!(view.contains("TOOL: calculate_sum"));
    assert!(view.contains("CONTEXT: math_server"));
    assert!(view.contains("a*: number"));
    assert!(view.contains("b*: number"));
}

#[test]
fn test_atomize_missing_result_returns_error() {
    let doc = CatalogDoc { tools: None };
    let result = atomize_tools(&doc, &b("server"));

    assert!(result.is_err());
}

#[test]
fn test_atomize_null_description_uses_empty() {
    let doc = CatalogDoc {
        tools: Some(vec![ToolSpec {
            name: Some(b("no_desc_tool")),
            description: None,
            input_schema: Some(SchemaSpec { properties: vec![], required: vec![] }),
            raw_definition: b("{}"),
        }]),
    };

    let tools = atomize_tools(&doc, &b("server")).unwrap();
    assert!(s(&tools[0].inference_view).contains("FUNC:  |"));
}

#[test]
fn test_atomize_missing_name_skips_tool() {
    let doc = CatalogDoc {
        tools: Some(vec![
            ToolSpec {
                name: None,
                description: Some(b("No name here")),
                input_schema: None,
                raw_definition: b("{}"),
            },
            ToolSpec {
                name: Some(b("valid_tool")),
                description: Some(b("Has name")),
                input_schema: None,
                raw_definition: b("{}"),
            },
        ]),
    };

    let tools = atomize_tools(&doc, &b("server")).unwrap();
    assert_eq!(tools.len(), 1);
    assert_eq!(s(&tools[0].name), "valid_tool");
}

#[test]
fn test_atomize_all_failed_is_error() {
    let doc = CatalogDoc {
        tools: Some(vec![ToolSpec {
            name: None,
            description: Some(b("nameless")),
            input_schema: None,
            raw_definition: b("{}"),
        }]),
    };

    let result = atomize_tools(&doc, &b("server"));
    assert!(result.is_err());
}

#[test]
fn test_truncate_long_description() {
    let long_desc = b(&"A".repeat(600));
    let truncated = truncate_description(&long_desc);

    assert!(truncated.len() <= MAX_DESCRIPTION_LENGTH + 3);
    assert!(s(&truncated).ends_with("..."));
}

#[test]
fn test_truncate_short_description() {
    let short_desc = b("Short description");
    let result = truncate_description(&short_desc);

    assert_eq!(result, short_desc);
}

#[test]
fn test_truncate_prefers_word_boundary() {
    // 460 letters, a space, then enough letters to cross the limit: the cut
    // lands on the space, inside the final fifty bytes.
    let mut text = "B".repeat(460);
    text.push(' ');
    text.push_str(&"C".repeat(60));
    let truncated = truncate_description(&b(&text));

    assert_eq!(s(&truncated), format!("{}...", "B".repeat(460)));
}

#[test]
fn test_build_param_summary_no_schema() {
    let summary = build_param_summary(&None);
    assert_eq!(s(&summary), "none");
}

#[test]
fn test_build_param_summary_empty_properties() {
    let schema = Some(SchemaSpec { properties: vec![], required: vec![] });
    let summary = build_param_summary(&schema);
    assert_eq!(s(&summary), "none");
}

#[test]
fn test_build_param_summary_marks_required() {
    let schema = Some(SchemaSpec {
        properties: vec![
            param("required_param", Some("string"), None),
            param("optional_param", Some("number"), None),
        ],
        required: vec![b("required_param")],
    });

    let summary = s(&build_param_summary(&schema));
    assert!(summary.contains("required_param*: string"));
    assert!(summary.contains("optional_param: number"));
    assert!(!summary.contains("optional_param*"));
}

#[test]
fn test_inference_view_format() {
    let view = build_inference_view(
        &b("my_tool"),
        &b("my_server"),
        &b("Does things"),
        &b("x: int, y: str"),
    );
    assert_eq!(
        s(&view),
        "TOOL: my_tool | CONTEXT: my_server | FUNC: Does things | INPUTS: x: int, y: str"
    );
}

#[test]
fn test_empty_tools_array_returns_empty_vec() {
    let doc = CatalogDoc { tools: Some(vec![]) };
    let tools = atomize_tools(&doc, &b("server")).unwrap();
    assert!(tools.is_empty());
}

#[test]
fn test_nested_input_schema_types() {
    let doc = CatalogDoc {
        tools: Some(vec![ToolSpec {
            name: Some(b("complex_tool")),
            description: None,
            input_schema: Some(SchemaSpec {
                properties: vec![
                    param("config", Some("object"), None),
                    param("items", Some("array"), None),
                ],
                required: vec![],
            }),
            raw_definition: b("{}"),
        }]),
    };

    let tools = atomize_tools(&doc, &b("server")).unwrap();
    let view = s(&tools[0].inference_view);
    assert!(view.contains("config: object"));
    assert!(view.contains("items: array"));
}

#[test]
fn test_param_description_truncation() {
    let schema = Some(SchemaSpec {
        properties: vec![param(
            "verbose_param",
            Some("string"),
            Some("This is a very long description that should be truncated at the first period. It continues with more text."),
        )],
        required: vec![],
    });

    let summary = s(&build_param_summary(&schema));
    assert!(summary.contains("verbose_param: string"));
    // The first period sits past the length limit, so the cut lands at the
    // limit instead.
    assert!(summary.contains("This is a very long description that should be tr"));
    assert!(!summary.contains("It continues"));
}

#[test]
fn test_param_missing_type_is_any() {
    let schema = Some(SchemaSpec {
        properties: vec![param("loose", None, None)],
        required: vec![],
    });
    let summary = s(&build_param_summary(&schema));
    assert!(summary.contains("loose: any"));
}

#[test]
fn test_atomize_twice_is_identical() {
    let doc = CatalogDoc {
        tools: Some(vec![ToolSpec {
            name: Some(b("repeat_tool")),
            description: Some(b("Same every time.")),
            input_schema: Some(SchemaSpec {
                properties: vec![param("x", Some("integer"), Some("The input"))],
                required: vec![b("x")],
            }),
            raw_definition: b("{\"name\":\"repeat_tool\"}"),
        }]),
    };

    let first = atomize_tools(&doc, &b("server")).unwrap();
    let second = atomize_tools(&doc, &b("server")).unwrap();

    assert_eq!(first.len(), second.len());
    for (a, c) in first.iter().zip(second.iter()) {
        assert_eq!(a.name, c.name);
        assert_eq!(a.server_origin, c.server_origin);
        assert_eq!(a.inference_view, c.inference_view);
        assert_eq!(a.raw_definition, c.raw_definition);
    }
}

#[test]
fn test_encapure_tool_new_keeps_fields() {
    let tool = EncapureTool::new(b("n"), b("o"), b("v"), b("r"));
    assert_eq!(s(&tool.name), "n");
    assert_eq!(s(&tool.server_origin), "o");
    assert_eq!(s(&tool.inference_view), "v");
    assert_eq!(s(&tool.raw_definition), "r");
}
