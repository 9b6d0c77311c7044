use sentience::sentience_core::ast::{Edge, EdgeType, Number, SentienceTokenAst, Span, ThoughtType, Value};
use sentience::sentience_core::canonicalizer::canonicalize;
use sentience::sentience_core::hasher::{edge_hash, token_hash};
use sentience::sentience_core::symbolic_encoder::{encode, value_to_string};
use std::collections::hash_map::DefaultHasher;
use std::hash::{Hash, Hasher};

fn std_hash(s: &str) -> u64 {
    let mut h = DefaultHasher::new();
    s.hash(&mut h);
    h.finish()
}

fn is_hex_id(id: &str, prefix: &str) -> bool {
    id.len() == prefix.len() + 16
        && id.starts_with(prefix)
        && id[prefix.len()..].chars().all(|c| c.is_ascii_digit() || ('a'..='f').contains(&c))
}

#[test]
fn test_deterministic_hashing() {
    let span = Span::new(1, 1, 1, 10);
    let ast1 = SentienceTokenAst::new(ThoughtType::Percept, span.clone())
        .with_field("modality".to_string(), Value::Str("text".to_string()))
        .with_field("content".to_string(), Value::Str("hello".to_string()));

    let ast2 = SentienceTokenAst::new(ThoughtType::Percept, span)
        .with_field("modality".to_string(), Value::Str("text".to_string()))
        .with_field("content".to_string(), Value::Str("hello".to_string()));

    let hash1 = token_hash(&ast1);
    let hash2 = token_hash(&ast2);

    assert_eq!(hash1, hash2);
    assert!(hash1.starts_with("mem_"));
    assert_eq!(hash1.len(), 20); // "mem_" + 16 hex digits
}

#[test]
fn test_different_ast_different_hash() {
    let span = Span::new(1, 1, 1, 10);
    let ast1 = SentienceTokenAst::new(ThoughtType::Percept, span.clone())
        .with_field("modality".to_string(), Value::Str("text".to_string()));

    let ast2 = SentienceTokenAst::new(ThoughtType::Percept, span)
        .with_field("modality".to_string(), Value::Str("audio".to_string()));

    let hash1 = token_hash(&ast1);
    let hash2 = token_hash(&ast2);

    assert_ne!(hash1, hash2);
}

#[test]
fn id_formats() {
    let ast = SentienceTokenAst::new(ThoughtType::Action, Span::new(1, 1, 1, 1));
    assert!(is_hex_id(&token_hash(&ast), "mem_"));
    let e = edge_hash("a", "DERIVED_FROM", "b");
    assert!(is_hex_id(&e, "edge_"));
    assert_ne!(e, edge_hash("b", "DERIVED_FROM", "a"));
    let edge = Edge::new("a".to_string(), "b".to_string(), EdgeType::DerivedFrom, 1000, 7);
    assert_eq!(edge.id, e);
}

#[test]
fn span_and_field_order_do_not_change_ids() {
    let a = SentienceTokenAst::new(ThoughtType::Percept, Span::new(1, 1, 1, 10))
        .with_field("modality".to_string(), Value::Str("text".to_string()))
        .with_field("content".to_string(), Value::Str("hello".to_string()));
    let b = SentienceTokenAst::new(ThoughtType::Percept, Span::new(9, 2, 9, 30))
        .with_field("content".to_string(), Value::Str("hello".to_string()))
        .with_field("modality".to_string(), Value::Str("text".to_string()));
    let (ca, cb) = (canonicalize(&a), canonicalize(&b));
    assert_eq!(token_hash(&ca), token_hash(&cb));
    assert_eq!(encode(&ca), encode(&cb));
    assert_eq!(token_hash(&ca), token_hash(&ca));
}

/// Distinct canonical nodes get distinct identifiers: a sweep of perturbed
/// field values, none of which collide.
#[test]
fn perturbed_values_give_distinct_ids() {
    let mut seen = std::collections::HashSet::new();
    let mut x: u64 = 0x9e3779b97f4a7c15;
    for i in 0..500 {
        x ^= x << 13;
        x ^= x >> 7;
        x ^= x << 17;
        let ast = SentienceTokenAst::new(ThoughtType::Percept, Span::new(1, 1, 1, 1))
            .with_field("content".to_string(), Value::Str(format!("v{}-{}", i, x % 1000)))
            .with_field("modality".to_string(), Value::Str("text".to_string()));
        assert!(seen.insert(token_hash(&canonicalize(&ast))));
    }
}

#[test]
fn fingerprint_shape() {
    let ast = canonicalize(
        &SentienceTokenAst::new(ThoughtType::Percept, Span::new(1, 1, 1, 1))
            .with_field("content".to_string(), Value::Str("msg".to_string())),
    );
    let e = encode(&ast);
    assert_eq!(e.len(), 256);
    assert!(e.iter().any(|&v| v != 0));
    assert!(e[100..].iter().all(|&v| v == 0));
    assert_eq!(e, encode(&ast));
    let h = std_hash("Percept");
    for i in 0..8 {
        assert_eq!(e[i], ((h >> (8 * i)) & 0xff) as u16);
    }
}

#[test]
fn value_text_rendering() {
    assert_eq!(value_to_string(&Value::Num(Number::new(15, 1))), "1.5");
    assert_eq!(value_to_string(&Value::Num(Number::new(-5, 3))), "-0.005");
    assert_eq!(value_to_string(&Value::Num(Number::integer(42))), "42");
    assert_eq!(value_to_string(&Value::Path(vec!["percept".to_string(), "text".to_string()])), "percept.text");
    assert_eq!(
        value_to_string(&Value::List(vec![Value::Bool(true), Value::Str("a".to_string())])),
        "[true,a]"
    );
    assert_eq!(
        value_to_string(&Value::Dict(vec![("k".to_string(), Value::Bool(false))])),
        "{k:false}"
    );
}
