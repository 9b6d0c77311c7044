use sentience::sentience_core::ast::{Field, Number, SentienceTokenAst, Span, ThoughtType, Value};
use sentience::sentience_core::canonicalizer::{
    canonicalize, canonicalize_fields, normalize_number, normalize_string, unescape_and_trim,
};

fn s(x: &str) -> Value {
    Value::Str(x.to_string())
}

#[test]
fn test_canonicalize_fields_order() {
    let fields1 = vec![
        Field::new("b".to_string(), Value::Str("value2".to_string())),
        Field::new("a".to_string(), Value::Str("value1".to_string())),
    ];

    let fields2 = vec![
        Field::new("a".to_string(), Value::Str("value1".to_string())),
        Field::new("b".to_string(), Value::Str("value2".to_string())),
    ];

    let canon1 = canonicalize_fields(&fields1);
    let canon2 = canonicalize_fields(&fields2);

    assert_eq!(format!("{:?}", canon1), format!("{:?}", canon2));
    assert_eq!(canon1[0].key, "a");
    assert_eq!(canon1[1].key, "b");
}

#[test]
fn test_normalize_string() {
    assert_eq!(normalize_string("  hello  "), "hello");
    // The escapes resolve to a newline and a tab, which trimming then removes.
    assert_eq!(normalize_string("\\n\\t"), "");
    assert_eq!(normalize_string("\\\"quoted\\\""), "\"quoted\"");
}

#[test]
fn test_normalize_number() {
    assert_eq!(normalize_number(Number::new(10, 1)), Number::integer(1));
    assert_eq!(normalize_number(Number::new(15, 1)), Number::new(15, 1));
    assert_eq!(normalize_number(Number::new(20, 1)), Number::integer(2));
}

#[test]
fn number_folding_one_point_zero_is_one() {
    let a = normalize_number(Number::new(10, 1));
    let b = normalize_number(Number::integer(1));
    assert_eq!(a, b);
    assert_eq!(normalize_number(Number::new(-1500, 3)), Number::new(-15, 1));
    assert_eq!(normalize_number(Number::new(0, 4)), Number::integer(0));
}

#[test]
fn duplicate_key_last_wins() {
    let fields = vec![Field::new("a".to_string(), s("x")), Field::new("a".to_string(), s("y"))];
    let canon = canonicalize_fields(&fields);
    assert_eq!(canon.len(), 1);
    assert_eq!(canon[0].key, "a");
    assert!(matches!(&canon[0].value, Value::Str(v) if v == "y"));
}

#[test]
fn nfc_composes_combining_marks() {
    assert_eq!(normalize_string("e\u{301}"), "\u{e9}");
    assert_eq!(normalize_string("  caf\u{65}\u{301} "), "caf\u{e9}");
}

#[test]
fn escape_resolution_order() {
    assert_eq!(normalize_string("a\\\\nb"), "a\\\nb");
    assert_eq!(normalize_string("\\\\\\\\"), "\\\\");
    assert_eq!(normalize_string(""), "");
}

#[test]
fn nested_values_are_canonicalized() {
    let node = SentienceTokenAst::new(ThoughtType::Concept, Span::new(1, 1, 1, 5))
        .with_field(
            "m".to_string(),
            Value::Dict(vec![
                ("z ".to_string(), s(" 1 ")),
                ("a".to_string(), Value::Num(Number::new(30, 1))),
                (" z".to_string(), Value::Bool(true)),
            ]),
        )
        .with_field("l".to_string(), Value::List(vec![s(" x "), Value::Path(vec![" p ".to_string()])]))
        .with_child(SentienceTokenAst::new(ThoughtType::Goal, Span::single_char(2, 3)).with_field("k".to_string(), s(" v ")));
    let c = canonicalize(&node);
    assert_eq!(c.fields[0].key, "l");
    assert_eq!(c.fields[1].key, "m");
    match &c.fields[1].value {
        Value::Dict(m) => {
            assert_eq!(m.len(), 2);
            assert_eq!(m[0].0, "a");
            assert!(matches!(m[0].1, Value::Num(n) if n == Number::integer(3)));
            assert_eq!(m[1].0, "z");
            assert!(matches!(m[1].1, Value::Bool(true)));
        }
        _ => panic!("expected a dictionary"),
    }
    match &c.fields[0].value {
        Value::List(l) => {
            assert!(matches!(&l[0], Value::Str(v) if v == "x"));
            assert!(matches!(&l[1], Value::Path(p) if p == &vec!["p".to_string()]));
        }
        _ => panic!("expected a list"),
    }
    assert!(matches!(&c.children[0].fields[0].value, Value::Str(v) if v == "v"));
    assert_eq!(c.children[0].span, Span { line: 2, col: 3, end_line: 2, end_col: 4 });
    let again = canonicalize(&c);
    assert_eq!(format!("{:?}", again), format!("{:?}", c));
}

#[test]
fn unescape_and_trim_after_composition() {
    assert_eq!(unescape_and_trim("  a\\tb\\\\  "), "a\tb\\");
    assert_eq!(unescape_and_trim("\\\"x\\\""), "\"x\"");
}
