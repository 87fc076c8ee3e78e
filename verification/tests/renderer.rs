use json_tree_viewer::json::JsonValue;
use json_tree_viewer::paginator::{get_page_size, page_json};
use json_tree_viewer::renderer::{view_file, view_json_property, view_json_value, DisplayNode};
use json_tree_viewer::state::FileDetails;
use json_tree_viewer::text::usize_to_string;

fn text(class: &str, body: &str) -> DisplayNode {
    DisplayNode::Text(class.to_string(), body.to_string())
}

fn num(n: i64) -> JsonValue {
    JsonValue::Number(n.to_string())
}

#[test]
fn decimal_rendering_is_exact() {
    assert_eq!(usize_to_string(0).as_str(), "0");
    assert_eq!(usize_to_string(9).as_str(), "9");
    assert_eq!(usize_to_string(10).as_str(), "10");
    assert_eq!(usize_to_string(12345).as_str(), "12345");
    assert_eq!(usize_to_string(usize::MAX), usize::MAX.to_string());
}

#[test]
fn scalars_render_as_canonical_text() {
    assert_eq!(view_json_value(&JsonValue::Null), text("", "null"));
    assert_eq!(view_json_value(&JsonValue::Bool(true)), text("", "true"));
    assert_eq!(view_json_value(&JsonValue::Bool(false)), text("", "false"));
    assert_eq!(view_json_value(&num(17)), text("", "17"));
}

#[test]
fn nested_strings_render_quoted() {
    assert_eq!(
        view_json_value(&JsonValue::Text("hi".to_string())),
        text("json-string", "\"hi\"")
    );
}

#[test]
fn properties_render_key_separator_value() {
    assert_eq!(
        view_json_property("x", &num(1)),
        DisplayNode::Group(
            "json-property".to_string(),
            vec![text("json-key", "x"), text("json-separator", ": "), text("", "1")],
        )
    );
}

#[test]
fn arrays_render_brackets_and_indexed_items() {
    let doc = JsonValue::Array(vec![
        JsonValue::Text("a".to_string()),
        JsonValue::Bool(false),
    ]);
    let item = |i: usize, inner: DisplayNode| {
        DisplayNode::Group(
            "json-array-item".to_string(),
            vec![
                text("json-array-item-idx", &format!("{}: ", i)),
                DisplayNode::Group("json-array-item-value".to_string(), vec![inner]),
            ],
        )
    };
    assert_eq!(
        view_json_value(&doc),
        DisplayNode::Group(
            "json-array".to_string(),
            vec![
                text("f-brackets", "["),
                item(0, text("json-string", "\"a\"")),
                item(1, text("", "false")),
                text("l-brackets", "]"),
            ],
        )
    );
}

#[test]
fn objects_render_property_lists() {
    let doc = JsonValue::Object(vec![
        ("x".to_string(), num(1)),
        ("y".to_string(), JsonValue::Null),
    ]);
    assert_eq!(
        view_json_value(&doc),
        DisplayNode::Group(
            "json-object".to_string(),
            vec![
                DisplayNode::Group(
                    "json-property".to_string(),
                    vec![text("json-key", "x"), text("json-separator", ": "), text("", "1")],
                ),
                DisplayNode::Group(
                    "json-property".to_string(),
                    vec![
                        text("json-key", "y"),
                        text("json-separator", ": "),
                        text("", "null"),
                    ],
                ),
            ],
        )
    );
}

#[test]
fn small_document_shows_one_property_and_no_pagination() {
    let file = FileDetails {
        name: "a.json".to_string(),
        file_type: "application/json".to_string(),
        data: JsonValue::Object(vec![("x".to_string(), num(1))]),
    };
    let page_size = get_page_size(&file.data);
    assert_eq!(page_size, 1);
    let tree = view_file(&file, 0, page_size);
    assert_eq!(
        tree,
        DisplayNode::Group(
            "json".to_string(),
            vec![
                text("json-title", "a.json"),
                DisplayNode::Group(
                    "json-content lazy".to_string(),
                    vec![DisplayNode::Group(
                        "json-object".to_string(),
                        vec![DisplayNode::Group(
                            "json-property".to_string(),
                            vec![
                                text("json-key", "x"),
                                text("json-separator", ": "),
                                text("", "1"),
                            ],
                        )],
                    )],
                ),
            ],
        )
    );
}

#[test]
fn root_string_renders_unquoted() {
    let file = FileDetails {
        name: "s.json".to_string(),
        file_type: "application/json".to_string(),
        data: JsonValue::Text("hello".to_string()),
    };
    let tree = view_file(&file, 0, 1);
    assert_eq!(
        tree,
        DisplayNode::Group(
            "json".to_string(),
            vec![
                text("json-title", "s.json"),
                DisplayNode::Group(
                    "json-content lazy".to_string(),
                    vec![text("json-string", "hello")],
                ),
            ],
        )
    );
}

#[test]
fn large_array_paginates_with_caption() {
    let mut items = Vec::new();
    for i in 0..25 {
        items.push(num(i));
    }
    let file = FileDetails {
        name: "big.json".to_string(),
        file_type: "application/json".to_string(),
        data: JsonValue::Array(items),
    };
    let page_size = get_page_size(&file.data);
    assert_eq!(page_size, 25);
    assert!(page_size > 10);
    let tree = view_file(&file, 0, page_size);
    assert_eq!(
        tree,
        DisplayNode::Group(
            "json".to_string(),
            vec![
                text("json-title", "big.json"),
                DisplayNode::Group("json-content lazy".to_string(), vec![text("", "0")]),
                DisplayNode::Group(
                    "json-pagination-stats".to_string(),
                    vec![text("", "Page 1 of 25")],
                ),
            ],
        )
    );
    let last = view_file(&file, 24, page_size);
    match last {
        DisplayNode::Group(_, children) => {
            assert_eq!(
                children[2],
                DisplayNode::Group(
                    "json-pagination-stats".to_string(),
                    vec![text("", "Page 25 of 25")],
                )
            );
        }
        other => panic!("expected a group, got {:?}", other),
    }
}

#[test]
fn every_page_of_every_shape_renders() {
    let mut items = Vec::new();
    for i in 0..12 {
        items.push(JsonValue::Object(vec![(format!("k{}", i), num(i))]));
    }
    let docs = vec![
        JsonValue::Array(items.clone()),
        JsonValue::Array(vec![JsonValue::Array(items.clone())]),
        JsonValue::Object(vec![("rows".to_string(), JsonValue::Array(items.clone()))]),
        {
            let mut entries = Vec::new();
            for i in 0..25 {
                entries.push((format!("k{}", i), num(i)));
            }
            JsonValue::Object(entries)
        },
    ];
    for doc in &docs {
        let pages = page_json(doc, 10);
        assert!(!pages.is_empty());
        for page in &pages {
            // Rendering any produced page must succeed.
            let _ = view_json_value(page);
        }
    }
}
