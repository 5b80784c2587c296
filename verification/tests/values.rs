use curio_editor::debug_value::{
    finish_braced, finish_sequence, parse_debug_value, parse_tuple_string, reads_as_float, refine_text, vector_or_list,
    word_value, DebugValue,
};
use curio_editor::json::{parse_json, JsonValue};

fn num(t: &str) -> DebugValue {
    DebugValue::Number(t.to_string())
}

fn texts(ts: &[&str]) -> Vec<String> {
    ts.iter().map(|t| t.to_string()).collect()
}

#[test]
fn float_texts_follow_the_grammar() {
    for t in ["1", "-2", "+3", "1.5", ".5", "5.", "1e5", "1E-5", "2.5e+10", "inf", "-Infinity", "NaN", "+nan", "INF"] {
        assert!(reads_as_float(t), "{t}");
    }
    for t in ["", ".", "-", "1e", "e1", "1-2", " 1", "1 ", "infinit", "nana", "1.2.3", "0x10", "1e5.0"] {
        assert!(!reads_as_float(t), "{t}");
    }
}

#[test]
fn tuple_strings() {
    assert_eq!(parse_tuple_string("(1, 2.5, -3)"), Some(texts(&["1", "2.5", "-3"])));
    assert_eq!(parse_tuple_string("  (0,0)  "), Some(texts(&["0", "0"])));
    assert_eq!(parse_tuple_string("(1)"), None);
    assert_eq!(parse_tuple_string("(1,2,3,4,5)"), None);
    assert_eq!(parse_tuple_string("( )"), None);
    assert_eq!(parse_tuple_string("(a, b)"), None);
    assert_eq!(parse_tuple_string("1, 2"), None);
    assert_eq!(refine_text("(1,2)".to_string()), DebugValue::Vector(texts(&["1", "2"]), false));
    assert_eq!(refine_text("hello".to_string()), DebugValue::Str("hello".to_string()));
}

#[test]
fn words() {
    assert_eq!(word_value("true".to_string()), DebugValue::Bool(true));
    assert_eq!(word_value("false".to_string()), DebugValue::Bool(false));
    assert_eq!(word_value("None".to_string()), DebugValue::Null);
    assert_eq!(word_value("inf".to_string()), num("inf"));
    assert_eq!(word_value("Idle".to_string()), DebugValue::Raw("Idle".to_string()));
}

#[test]
fn shapes_of_sequences() {
    assert_eq!(finish_sequence(vec![num("1"), num("2")]), DebugValue::Vector(texts(&["1", "2"]), false));
    assert_eq!(finish_sequence(vec![num("7")]), num("7"));
    assert_eq!(finish_sequence(vec![]), DebugValue::List(vec![]));
    assert_eq!(
        finish_sequence(vec![num("1"), DebugValue::Bool(true)]),
        DebugValue::List(vec![num("1"), DebugValue::Bool(true)])
    );
    assert_eq!(vector_or_list(vec![num("7")]), DebugValue::List(vec![num("7")]));
    assert_eq!(
        finish_braced(vec![("R".to_string(), num("1")), ("g".to_string(), num("0")), ("b".to_string(), num("0.5"))]),
        DebugValue::Vector(texts(&["1", "0", "0.5"]), true)
    );
    let fields = vec![("x".to_string(), num("1")), ("y".to_string(), DebugValue::Null)];
    assert_eq!(
        finish_braced(vec![("x".to_string(), num("1")), ("y".to_string(), DebugValue::Null)]),
        DebugValue::Fields(fields)
    );
}

#[test]
fn debug_text_reads_as_values() {
    assert_eq!(parse_debug_value("Vec3 { x: 1.0, y: 2.5, z: -3 }"), DebugValue::Vector(texts(&["1.0", "2.5", "-3"]), false));
    assert_eq!(parse_debug_value("Color { r: 1, g: 0.5, b: 0, a: 1 }"), DebugValue::Vector(texts(&["1", "0.5", "0", "1"]), true));
    assert_eq!(parse_debug_value("Some(42)"), num("42"));
    assert_eq!(parse_debug_value("[1, 2]"), DebugValue::Vector(texts(&["1", "2"]), false));
    assert_eq!(
        parse_debug_value("[1, \"a\", true]"),
        DebugValue::List(vec![num("1"), DebugValue::Str("a".to_string()), DebugValue::Bool(true)])
    );
    assert_eq!(parse_debug_value("  None "), DebugValue::Null);
    assert_eq!(parse_debug_value("Foo"), DebugValue::Raw("Foo".to_string()));
    assert_eq!(parse_debug_value("1-2"), DebugValue::Raw("1-2".to_string()));
    assert_eq!(parse_debug_value("\"(1, 2, 3)\""), DebugValue::Vector(texts(&["1", "2", "3"]), false));
    assert_eq!(parse_debug_value("\"line\\nnext\""), DebugValue::Str("line\nnext".to_string()));
    assert_eq!(
        parse_debug_value("Player { name: \"hi\", hp: 10 }"),
        DebugValue::Fields(vec![("name".to_string(), DebugValue::Str("hi".to_string())), ("hp".to_string(), num("10"))])
    );
    assert_eq!(parse_debug_value(""), DebugValue::Raw(String::new()));
    assert_eq!(parse_debug_value("@@"), DebugValue::Raw("@@".to_string()));
    assert_eq!(parse_debug_value("(1, 2, 3, 4, 5)"), DebugValue::List(vec![num("1"), num("2"), num("3"), num("4"), num("5")]));
}

#[test]
fn json_text_parses_into_the_library_tree() {
    assert_eq!(
        parse_json("{\"b\": [1, 2.5, \"x\"], \"a\": null}"),
        Some(JsonValue::Object(vec![
            ("a".to_string(), JsonValue::Null),
            (
                "b".to_string(),
                JsonValue::Array(vec![
                    JsonValue::Number("1".to_string()),
                    JsonValue::Number("2.5".to_string()),
                    JsonValue::Str("x".to_string()),
                ]),
            ),
        ]))
    );
    assert_eq!(parse_json("true"), Some(JsonValue::Bool(true)));
    assert_eq!(parse_json("{not json"), None);
    assert_eq!(parse_json(""), None);
}

#[test]
fn quoted_json_reads_as_the_value_it_holds() {
    assert_eq!(refine_text("[1, 2, 3]".to_string()), DebugValue::Vector(texts(&["1", "2", "3"]), false));
    assert_eq!(refine_text("[7]".to_string()), DebugValue::List(vec![num("7")]));
    assert_eq!(
        refine_text("{\"r\": 1, \"g\": 0.5, \"b\": 0}".to_string()),
        DebugValue::Fields(vec![("b".to_string(), num("0")), ("g".to_string(), num("0.5")), ("r".to_string(), num("1"))])
    );
    assert_eq!(
        refine_text("{\"x\": 1, \"y\": 2}".to_string()),
        DebugValue::Vector(texts(&["1", "2"]), false)
    );
    assert_eq!(
        refine_text("{\"pos\": \"(1, 2)\", \"tags\": [\"a\", true, null], \"inner\": \"[3, 4]\"}".to_string()),
        DebugValue::Fields(vec![
            ("inner".to_string(), DebugValue::Vector(texts(&["3", "4"]), false)),
            ("pos".to_string(), DebugValue::Vector(texts(&["1", "2"]), false)),
            (
                "tags".to_string(),
                DebugValue::List(vec![DebugValue::Str("a".to_string()), DebugValue::Bool(true), DebugValue::Null]),
            ),
        ])
    );
    assert_eq!(refine_text("42".to_string()), DebugValue::Str("42".to_string()));
    assert_eq!(refine_text("\"quoted\"".to_string()), DebugValue::Str("\"quoted\"".to_string()));
    assert_eq!(
        parse_debug_value("Meta { data: \"{\\\"k\\\": [1, 2]}\" }"),
        DebugValue::Fields(vec![(
            "data".to_string(),
            DebugValue::Fields(vec![("k".to_string(), DebugValue::Vector(texts(&["1", "2"]), false))])
        )])
    );
}
