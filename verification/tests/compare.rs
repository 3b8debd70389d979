use tessera::tileset::compare::{
    compare_geometric_errors, compare_json_except_geometric_error, format_json_index_path,
    format_json_path, get_member, GeometricErrorCheck, JsonMismatch, JsonNumber, JsonValue,
};

const TOLERANCE: f64 = 1e-9;

fn float(x: f64) -> JsonValue {
    JsonValue::Number(JsonNumber::Float(x.to_bits()))
}

fn text(s: &str) -> JsonValue {
    JsonValue::String(s.to_string())
}

/// An object; members are listed in key order, as a parsed map gives them.
fn object(members: Vec<(&str, JsonValue)>) -> JsonValue {
    JsonValue::Object(members.into_iter().map(|(k, v)| (k.to_string(), v)).collect())
}

fn sphere() -> JsonValue {
    object(vec![(
        "sphere",
        JsonValue::Array(vec![float(0.0), float(0.0), float(0.0), float(1.0)]),
    )])
}

fn as_f64(v: &JsonValue) -> Option<f64> {
    match v {
        JsonValue::Number(JsonNumber::Float(bits)) => Some(f64::from_bits(*bits)),
        JsonValue::Number(JsonNumber::PosInt(u)) => Some(*u as f64),
        JsonValue::Number(JsonNumber::NegInt(i)) => Some(*i as f64),
        _ => None,
    }
}

/// The path of the first check that fails at the given tolerance.
fn first_failing_check(checks: &[GeometricErrorCheck<'_>], tolerance: f64) -> Option<String> {
    for check in checks {
        match check {
            GeometricErrorCheck::Compare { path, expected, actual } => {
                match (as_f64(expected), as_f64(actual)) {
                    (Some(e), Some(a)) if (e - a).abs() <= tolerance => {}
                    _ => return Some(path.clone()),
                }
            }
            GeometricErrorCheck::Missing(path) | GeometricErrorCheck::Unexpected(path) => {
                return Some(path.clone())
            }
        }
    }
    None
}

fn compare_paths(checks: &[GeometricErrorCheck<'_>]) -> Vec<String> {
    checks
        .iter()
        .map(|c| match c {
            GeometricErrorCheck::Compare { path, .. } => format!("compare {}", path),
            GeometricErrorCheck::Missing(path) => format!("missing {}", path),
            GeometricErrorCheck::Unexpected(path) => format!("unexpected {}", path),
        })
        .collect()
}

#[test]
fn compare_accepts_geometric_error_values_within_tolerance() {
    let expected = object(vec![
        ("asset", object(vec![("version", text("1.0"))])),
        ("geometricError", float(10.0)),
        (
            "root",
            object(vec![
                ("boundingVolume", sphere()),
                (
                    "children",
                    JsonValue::Array(vec![object(vec![
                        ("boundingVolume", sphere()),
                        ("geometricError", float(0.0)),
                    ])]),
                ),
                ("geometricError", float(5.0)),
            ]),
        ),
    ]);
    let actual = object(vec![
        ("asset", object(vec![("version", text("1.0"))])),
        ("geometricError", float(10.0 + 5e-10)),
        (
            "root",
            object(vec![
                ("boundingVolume", sphere()),
                (
                    "children",
                    JsonValue::Array(vec![object(vec![
                        ("boundingVolume", sphere()),
                        ("geometricError", float(0.0)),
                    ])]),
                ),
                ("geometricError", float(5.0 - 5e-10)),
            ]),
        ),
    ]);

    assert!(compare_json_except_geometric_error(&expected, &actual, "$").is_ok());
    let checks = compare_geometric_errors(&expected, &actual, "$");
    assert_eq!(
        compare_paths(&checks),
        vec!["compare $", "compare $.root", "compare $.root.children[0]"]
    );
    assert_eq!(first_failing_check(&checks, TOLERANCE), None);
}

#[test]
fn compare_rejects_geometric_error_values_outside_tolerance() {
    let expected = object(vec![
        ("geometricError", float(10.0)),
        ("root", object(vec![("geometricError", float(5.0))])),
    ]);
    let actual = object(vec![
        ("geometricError", float(10.0)),
        ("root", object(vec![("geometricError", float(5.00000001))])),
    ]);

    assert!(compare_json_except_geometric_error(&expected, &actual, "$").is_ok());
    let checks = compare_geometric_errors(&expected, &actual, "$");
    let failing = first_failing_check(&checks, TOLERANCE).unwrap();
    assert!(failing.contains("$.root"));
}

#[test]
fn compare_rejects_structure_changes() {
    let expected = object(vec![(
        "root",
        object(vec![
            ("children", JsonValue::Array(vec![object(vec![("geometricError", float(0.0))])])),
            ("geometricError", float(1.0)),
        ]),
    )]);
    let actual = object(vec![(
        "root",
        object(vec![
            ("children", JsonValue::Array(vec![])),
            ("geometricError", float(1.0)),
        ]),
    )]);

    match compare_json_except_geometric_error(&expected, &actual, "$") {
        Err(JsonMismatch::ArrayLength { path, expected_len, actual_len }) => {
            assert!(path.contains("children"));
            assert_eq!(path, "$.root.children");
            assert_eq!((expected_len, actual_len), (1, 0));
        }
        other => panic!("unexpected result {:?}", other),
    }
}

#[test]
fn compare_rejects_non_geometric_error_value_changes() {
    let expected = object(vec![
        ("asset", object(vec![("version", text("1.0"))])),
        ("root", object(vec![("geometricError", float(1.0))])),
    ]);
    let actual = object(vec![
        ("asset", object(vec![("version", text("1.1"))])),
        ("root", object(vec![("geometricError", float(1.0))])),
    ]);

    match compare_json_except_geometric_error(&expected, &actual, "$") {
        Err(JsonMismatch::Value { path, expected, actual }) => {
            assert!(path.contains("$.asset.version"));
            assert!(matches!(expected, JsonValue::String(s) if s == "1.0"));
            assert!(matches!(actual, JsonValue::String(s) if s == "1.1"));
        }
        other => panic!("unexpected result {:?}", other),
    }
}

#[test]
fn structure_comparison_reports_missing_key() {
    let expected = object(vec![("a", float(1.0)), ("b", float(2.0))]);
    let actual = object(vec![("a", float(1.0))]);
    match compare_json_except_geometric_error(&expected, &actual, "$") {
        Err(JsonMismatch::MissingKey(path)) => assert_eq!(path, "$.b"),
        other => panic!("unexpected result {:?}", other),
    }
}

#[test]
fn structure_comparison_reports_unexpected_key() {
    let expected = object(vec![("a", float(1.0))]);
    let actual = object(vec![("a", float(1.0)), ("z", JsonValue::Null)]);
    match compare_json_except_geometric_error(&expected, &actual, "$") {
        Err(JsonMismatch::UnexpectedKey(path)) => assert_eq!(path, "$.z"),
        other => panic!("unexpected result {:?}", other),
    }
}

#[test]
fn structure_comparison_ignores_geometric_error_members() {
    let expected = object(vec![("geometricError", float(1.0)), ("x", JsonValue::Bool(true))]);
    let actual = object(vec![("x", JsonValue::Bool(true))]);
    assert!(compare_json_except_geometric_error(&expected, &actual, "$").is_ok());
    let actual = object(vec![("geometricError", text("large")), ("x", JsonValue::Bool(true))]);
    assert!(compare_json_except_geometric_error(&expected, &actual, "$").is_ok());
}

#[test]
fn structure_comparison_reports_first_difference_in_member_order() {
    let expected = object(vec![("a", float(1.0)), ("b", float(2.0))]);
    let actual = object(vec![("a", float(3.0)), ("b", float(4.0))]);
    match compare_json_except_geometric_error(&expected, &actual, "$") {
        Err(JsonMismatch::Value { path, .. }) => assert_eq!(path, "$.a"),
        other => panic!("unexpected result {:?}", other),
    }
}

#[test]
fn structure_comparison_reports_element_path() {
    let expected = JsonValue::Array(vec![float(1.0), text("x")]);
    let actual = JsonValue::Array(vec![float(1.0), text("y")]);
    match compare_json_except_geometric_error(&expected, &actual, "$.list") {
        Err(JsonMismatch::Value { path, .. }) => assert_eq!(path, "$.list[1]"),
        other => panic!("unexpected result {:?}", other),
    }
}

#[test]
fn numbers_compare_by_kind_and_value() {
    let zero = float(0.0);
    let negative_zero = float(-0.0);
    assert!(compare_json_except_geometric_error(&zero, &negative_zero, "$").is_ok());
    let int_one = JsonValue::Number(JsonNumber::PosInt(1));
    let float_one = float(1.0);
    assert!(compare_json_except_geometric_error(&int_one, &float_one, "$").is_err());
    let minus = JsonValue::Number(JsonNumber::NegInt(-2));
    assert!(compare_json_except_geometric_error(&minus, &minus, "$").is_ok());
    let nan = JsonValue::Number(JsonNumber::Float(f64::NAN.to_bits()));
    assert!(compare_json_except_geometric_error(&nan, &nan, "$").is_err());
}

#[test]
fn values_of_different_kinds_differ() {
    let expected = object(vec![]);
    let actual = JsonValue::Array(vec![]);
    match compare_json_except_geometric_error(&expected, &actual, "$") {
        Err(JsonMismatch::Value { path, .. }) => assert_eq!(path, "$"),
        other => panic!("unexpected result {:?}", other),
    }
    assert!(compare_json_except_geometric_error(&JsonValue::Null, &JsonValue::Null, "$").is_ok());
}

#[test]
fn geometric_error_walk_ends_at_missing_value() {
    let expected = object(vec![
        ("a", object(vec![("geometricError", float(1.0))])),
        ("b", object(vec![("geometricError", float(2.0))])),
    ]);
    let actual = object(vec![
        ("a", object(vec![])),
        ("b", object(vec![("geometricError", float(2.0))])),
    ]);
    let checks = compare_geometric_errors(&expected, &actual, "$");
    assert_eq!(compare_paths(&checks), vec!["missing $.a"]);
}

#[test]
fn geometric_error_walk_reports_unexpected_value() {
    let expected = object(vec![("root", object(vec![]))]);
    let actual = object(vec![("root", object(vec![("geometricError", float(2.0))]))]);
    let checks = compare_geometric_errors(&expected, &actual, "$");
    assert_eq!(compare_paths(&checks), vec!["unexpected $.root"]);
}

#[test]
fn geometric_error_walk_follows_shorter_array_and_shared_members() {
    let expected = object(vec![
        (
            "list",
            JsonValue::Array(vec![
                object(vec![("geometricError", float(1.0))]),
                object(vec![("geometricError", float(2.0))]),
            ]),
        ),
        ("only_expected", object(vec![("geometricError", float(3.0))])),
    ]);
    let actual = object(vec![(
        "list",
        JsonValue::Array(vec![object(vec![("geometricError", text("one"))])]),
    )]);
    let checks = compare_geometric_errors(&expected, &actual, "$");
    assert_eq!(compare_paths(&checks), vec!["compare $.list[0]"]);
    match &checks[0] {
        GeometricErrorCheck::Compare { expected, actual, .. } => {
            assert_eq!(as_f64(expected), Some(1.0));
            assert!(matches!(actual, JsonValue::String(s) if s == "one"));
        }
        other => panic!("unexpected check {:?}", other),
    }
}

#[test]
fn identical_documents_compare_equal() {
    let doc = object(vec![
        ("asset", object(vec![("version", text("1.1"))])),
        ("geometricError", float(7.5)),
        (
            "root",
            object(vec![
                ("children", JsonValue::Array(vec![object(vec![("geometricError", float(0.0))])])),
                ("geometricError", float(2.0)),
            ]),
        ),
    ]);
    assert!(compare_json_except_geometric_error(&doc, &doc, "$").is_ok());
    let checks = compare_geometric_errors(&doc, &doc, "$");
    assert_eq!(checks.len(), 3);
    assert_eq!(first_failing_check(&checks, 0.0), None);
}

#[test]
fn member_lookup_takes_first_match() {
    let members = vec![
        ("k".to_string(), float(1.0)),
        ("k".to_string(), float(2.0)),
    ];
    assert_eq!(get_member(&members, "k").and_then(as_f64), Some(1.0));
    assert!(get_member(&members, "missing").is_none());
}

#[test]
fn json_paths_join_members_and_elements() {
    assert_eq!(format_json_path("$.root", "children"), "$.root.children");
    assert_eq!(format_json_index_path("$.root.children", 12), "$.root.children[12]");
}
