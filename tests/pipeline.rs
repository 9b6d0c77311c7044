use sentience::sentience_core::ast::{SentienceTokenAst, Span, ThoughtType, Value};
use sentience::sentience_core::canonicalizer::canonicalize;
use sentience::sentience_core::executor::{execute, execute_at};
use sentience::sentience_core::parser::parse_program;
use sentience::sentience_core::runtime::{
    Cortex, ExecutionError, FixedRefNet, InMemoryCortex, RefMetrics, RefNet, Runtime,
    SimpleRuntime, StubRefNet, StubSuperego, Superego, Verdict,
};
use sentience::sentience_core::SentienceCore;

#[test]
fn test_parse_agent() {
    let src = "agent TestAgent";
    let result = parse_program(src);
    assert!(result.is_ok());

    let ast = result.unwrap();
    assert_eq!(ast.ttype, ThoughtType::SelfModel);
    assert_eq!(ast.get_field_str("name"), Some("TestAgent"));
}

#[test]
fn test_parse_embed() {
    let src = "embed msg -> percept.text";
    let result = parse_program(src);
    assert!(result.is_ok());

    let ast = result.unwrap();
    assert_eq!(ast.ttype, ThoughtType::Percept);
    assert_eq!(ast.get_field_str("content"), Some("msg"));
    assert_eq!(ast.get_field_str("target"), Some("percept.text"));
}

#[test]
fn test_parse_reflect() {
    let src = "reflect { recall; reframe; consolidate }";
    let result = parse_program(src);
    assert!(result.is_ok());

    let ast = result.unwrap();
    assert_eq!(ast.ttype, ThoughtType::Reflection);
    if let Some(Value::List(ops)) = ast.get_field("ops") {
        assert_eq!(ops.len(), 3);
    } else {
        panic!("Expected ops field to be a list");
    }
}

#[test]
fn parse_skips_comments_and_takes_first_node() {
    let ast = parse_program("\n// note\n  \r\nembed a -> b -> c\nagent Second\nagent Third\n").unwrap();
    assert_eq!(ast.ttype, ThoughtType::SelfModel);
    assert_eq!(ast.get_field_str("name"), Some("Second"));
    assert_eq!(ast.span, Span::new(5, 1, 5, 12));
}

#[test]
fn parse_error_on_empty_input() {
    assert_eq!(parse_program("").unwrap_err(), "No valid tokens found in input");
    assert_eq!(parse_program("hello\n// only a comment").unwrap_err(), "No valid tokens found in input");
}

#[test]
fn end_to_end_embed_step() {
    let ast = parse_program("embed msg -> percept.text").unwrap();
    assert_eq!(ast.get_field_str("content"), Some("msg"));
    assert_eq!(ast.get_field_str("modality"), Some("text"));

    let mut core = SentienceCore::new(SimpleRuntime::new());
    let result = core.process_step("embed msg -> percept.text").unwrap();
    assert_eq!(result.tokens.len(), 1);
    assert_eq!(result.tokens[0].meta.tags, vec!["percept".to_string()]);
    assert!(result.tokens[0].id.starts_with("mem_"));
    assert_eq!(result.tokens[0].id.len(), 20);
    let metrics = result.metrics.as_ref().unwrap();
    assert_eq!(metrics.quality, 700);
    assert_eq!(metrics.next_action, "consolidate");
    let id = result.token_id.as_ref().unwrap();
    assert_eq!(id, &core.hash(&canonicalize(&ast)));
    assert_eq!(result.embedding.as_ref().unwrap().len(), 256);
    assert!(result.tokens[0].provenance.timestamp > 0);
    assert!(result.edges.is_empty());
}

#[test]
fn process_step_parse_error() {
    let mut core = SentienceCore::new(SimpleRuntime::new());
    match core.process_step("   ") {
        Err(ExecutionError::Parse(m)) => assert_eq!(m, "No valid tokens found in input"),
        other => panic!("unexpected {:?}", other),
    }
}

fn concept(ids: &[&str]) -> SentienceTokenAst {
    SentienceTokenAst::new(ThoughtType::Concept, Span::new(1, 1, 1, 1))
        .with_field("summary".to_string(), Value::Str("joined".to_string()))
        .with_field(
            "from".to_string(),
            Value::List(ids.iter().map(|s| Value::Str(s.to_string())).collect()),
        )
}

#[test]
fn concept_relations_target_committed_record() {
    let mut rt = SimpleRuntime::new();
    let canon = canonicalize(&concept(&["id1", "id2"]));
    let result = execute_at(&canon, &mut rt, 5).unwrap();
    assert_eq!(result.tokens.len(), 1);
    assert_eq!(result.edges.len(), 2);
    assert_eq!(result.edges[0].source_id, "id1");
    assert_eq!(result.edges[1].source_id, "id2");
    for e in &result.edges {
        assert_eq!(e.target_id, result.tokens[0].id);
        assert_eq!(e.edge_type.to_string(), "DERIVED_FROM");
        assert!(e.id.starts_with("edge_"));
        assert_eq!(e.weight, 1000);
        assert_eq!(e.timestamp, 5);
    }
    assert!(rt.cortex.get_token(&result.tokens[0].id).is_some());
}

#[test]
fn unsupported_kind_fails() {
    let mut rt = SimpleRuntime::new();
    let goal = SentienceTokenAst::new(ThoughtType::Goal, Span::new(1, 1, 1, 1));
    match execute(&goal, &mut rt) {
        Err(ExecutionError::UnsupportedKind(t)) => assert_eq!(t, ThoughtType::Goal),
        other => panic!("unexpected {:?}", other),
    }
    assert!(rt.cortex.stm(10).is_empty());
}

#[test]
fn reference_gate_threshold() {
    let t = parse_program("agent X").unwrap();
    let mut rt = SimpleRuntime::new();
    let token = execute_at(&canonicalize(&t), &mut rt, 1).unwrap().tokens.remove(0);
    let mut m = StubRefNet.evaluate(&[]);
    m.quality = 599;
    match StubSuperego.judge(&token, &m) {
        Verdict::Block(r) => assert_eq!(r, "Quality too low"),
        other => panic!("unexpected {:?}", other),
    }
    m.quality = 600;
    assert!(matches!(StubSuperego.judge(&token, &m), Verdict::Allow));
}

#[test]
fn store_window_and_idempotent_commit() {
    let mut rt = Runtime { cortex: InMemoryCortex::new(2), refnet: StubRefNet, superego: StubSuperego };
    let mut ids = Vec::new();
    for name in ["a", "b", "c"] {
        let ast = canonicalize(&parse_program(&format!("agent {}", name)).unwrap());
        ids.push(execute_at(&ast, &mut rt, 1).unwrap().tokens[0].id.clone());
    }
    let window: Vec<String> = rt.cortex.stm(10).into_iter().map(|r| r.id).collect();
    assert_eq!(window, vec![ids[2].clone(), ids[1].clone()]);
    let again = canonicalize(&parse_program("agent c").unwrap());
    let id = execute_at(&again, &mut rt, 9).unwrap().tokens[0].id.clone();
    assert_eq!(id, ids[2]);
    let window: Vec<String> = rt.cortex.stm(1).into_iter().map(|r| r.id).collect();
    assert_eq!(window, vec![ids[2].clone()]);
    assert!(rt.cortex.get_token(&ids[0]).is_some());
    assert!(rt.cortex.get_token("mem_0000000000000000").is_none());
}

#[test]
fn reflection_scores_follow_quality() {
    let mut core = SentienceCore::new(SimpleRuntime::new());
    let result = core.process_step("reflect { recall }").unwrap();
    assert_eq!(result.tokens[0].meta.strength, 700);
    assert_eq!(result.tokens[0].meta.belief, 700);
    assert_eq!(result.tokens[0].meta.tags, vec!["reflection".to_string()]);
}

fn metrics_with_quality(quality: i32) -> RefMetrics {
    RefMetrics {
        valence: 0,
        smd: 0,
        quality,
        next_action: "recall".to_string(),
        action_logits: Vec::new(),
    }
}

#[test]
fn low_quality_step_is_blocked() {
    let mut rt = Runtime {
        cortex: InMemoryCortex::new(4),
        refnet: FixedRefNet { metrics: metrics_with_quality(500) },
        superego: StubSuperego,
    };
    let ast = canonicalize(&parse_program("agent X").unwrap());
    match execute_at(&ast, &mut rt, 1) {
        Err(ExecutionError::Blocked(r)) => assert_eq!(r, "Quality too low"),
        other => panic!("unexpected {:?}", other),
    }
    assert!(rt.cortex.stm(10).is_empty());
}

#[test]
fn quality_at_threshold_commits() {
    let mut rt = Runtime {
        cortex: InMemoryCortex::new(4),
        refnet: FixedRefNet { metrics: metrics_with_quality(600) },
        superego: StubSuperego,
    };
    let ast = canonicalize(&parse_program("agent X").unwrap());
    let result = execute_at(&ast, &mut rt, 1).unwrap();
    assert_eq!(result.tokens.len(), 1);
    assert!(result.tokens[0].id.starts_with("mem_"));
    assert_eq!(rt.cortex.stm(10)[0].id, result.tokens[0].id);
    assert_eq!(result.metrics.unwrap().quality, 600);
}
