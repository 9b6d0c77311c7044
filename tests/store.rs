use sentience::sentience_core::ast::{
    Provenance, SentienceToken, SentienceTokenAst, Span, ThoughtType, TokenMeta, Value,
};
use sentience::sentience_core::hasher::token_hash;
use sentience::sentience_core::runtime::{Cortex, ExecutionResult, InMemoryCortex, TokenRef};

fn record(name: &str, embedding: Vec<u16>) -> SentienceToken {
    let ast = SentienceTokenAst::new(ThoughtType::SelfModel, Span::new(1, 1, 1, 1))
        .with_field("name".to_string(), Value::Str(name.to_string()));
    SentienceToken::new(
        "temp_id".to_string(),
        ast,
        embedding,
        Provenance {
            stm_ids: Vec::new(),
            refnet_id: "r".to_string(),
            rules_applied: Vec::new(),
            agent_id: "a".to_string(),
            step_id: 0,
            timestamp: 0,
        },
        TokenMeta { version: "v".to_string(), strength: 1000, belief: 1000, tags: Vec::new() },
    )
}

fn axis(i: usize, w: u16) -> Vec<u16> {
    let mut v = vec![0u16; 256];
    v[i] = w;
    v
}

#[test]
fn commit_assigns_content_id() {
    let mut store = InMemoryCortex::new(8);
    let t = record("a", axis(0, 1));
    let id = store.commit(&t, &[]).unwrap();
    assert_eq!(id, token_hash(&t.ast));
    let got = store.get_token(&id).unwrap();
    assert_eq!(got.id, id);
    assert!(store.get_token("mem_ffffffffffffffff").is_none());
}

#[test]
fn recall_ranks_by_cosine() {
    let mut store = InMemoryCortex::new(8);
    let far = record("far", axis(5, 9));
    let zero = record("zero", vec![0u16; 256]);
    let near = record("near", {
        let mut v = axis(0, 10);
        v[1] = 1;
        v
    });
    let exact = record("exact", axis(0, 3));
    let ids: Vec<String> = [&far, &zero, &near, &exact]
        .iter()
        .map(|t| store.commit(t, &[]).unwrap())
        .collect();
    let q = axis(0, 7);
    let top: Vec<String> = store.recall_similar(&q, 2).into_iter().map(|r| r.id).collect();
    assert_eq!(top, vec![ids[3].clone(), ids[2].clone()]);
    let all: Vec<String> = store.recall_similar(&q, 10).into_iter().map(|r| r.id).collect();
    assert_eq!(all.len(), 4);
    assert_eq!(all[0], ids[3]);
    assert_eq!(all[1], ids[2]);
    assert!(store.recall_similar(&q, 0).is_empty());
}

#[test]
fn recall_with_zero_query_keeps_store_order() {
    let mut store = InMemoryCortex::new(8);
    let a = store.commit(&record("a", axis(0, 1)), &[]).unwrap();
    let b = store.commit(&record("b", axis(1, 1)), &[]).unwrap();
    let top: Vec<String> = store.recall_similar(&vec![0u16; 256], 2).into_iter().map(|r| r.id).collect();
    assert_eq!(top, vec![a, b]);
}

#[test]
fn constructors() {
    let r = TokenRef::new("x".to_string(), ThoughtType::Action, vec![1, 2]);
    assert_eq!(r.id, "x");
    assert_eq!(r.embedding, vec![1, 2]);
    let e = ExecutionResult::new();
    assert!(e.tokens.is_empty() && e.edges.is_empty() && e.token_id.is_none());
    assert_eq!(ThoughtType::SelfModel.to_string(), "Self");
}
