//! One step of execution: read the short-term window, score it, turn the node
//! into candidate records and relations according to its kind, let the superego
//! judge each candidate, and commit the ones it lets through.

use vstd::prelude::*;
use vstd::string::StringExecFns;

use crate::sentience_core::ast::{
    lookup_field, lookup_str, Edge, EdgeModel, EdgeType, FieldModel, MetaModel, Provenance,
    ProvenanceModel, SentienceToken, SentienceTokenAst, Span, ThoughtType, TokenMeta, TokenModel,
    Value, ValueModel, AstModel, edge_model, values_model, lemma_values_model,
};
use crate::sentience_core::canonicalizer::{canon_ast, canonicalize};
use crate::sentience_core::hasher::{record_id, token_hash};
use crate::sentience_core::runtime::{
    with_id, Cortex, ExecutionError, ExecutionResult, MetricsModel, RefMetrics, RefNet, Runtime,
    Superego, Verdict, VerdictModel, refs_model,
};

verus! {

/// The kinds that have execution semantics.
pub open spec fn interpretable(t: ThoughtType) -> bool {
    ||| t == ThoughtType::Percept
    ||| t == ThoughtType::Reflection
    ||| t == ThoughtType::Action
    ||| t == ThoughtType::Concept
    ||| t == ThoughtType::SelfModel
}

pub open spec fn str_or(o: Option<Seq<char>>, default: Seq<char>) -> Seq<char> {
    match o {
        Some(s) => s,
        None => default,
    }
}

/// The items of the list held by the first field named `key` (none if that
/// field is missing or holds no list).
pub open spec fn list_field(fields: Seq<FieldModel>, key: Seq<char>) -> Seq<ValueModel> {
    match lookup_field(fields, key) {
        Some(ValueModel::List(l)) => l,
        _ => Seq::empty(),
    }
}

/// The strings among `l`, in order.
pub open spec fn str_items(l: Seq<ValueModel>) -> Seq<Seq<char>>
    decreases l.len(),
{
    if l.len() == 0 {
        Seq::empty()
    } else {
        let rest = str_items(l.drop_last());
        match l.last() {
            ValueModel::Str(s) => rest.push(s),
            _ => rest,
        }
    }
}

pub open spec fn str_field(key: Seq<char>, value: Seq<char>) -> FieldModel {
    FieldModel { key, value: ValueModel::Str(value) }
}

pub open spec fn strs_field(key: Seq<char>, items: Seq<Seq<char>>) -> FieldModel {
    FieldModel { key, value: ValueModel::List(items.map_values(|s: Seq<char>| ValueModel::Str(s))) }
}

/// The provenance of a record made at time `now`.
pub open spec fn provenance_at(now: u64) -> ProvenanceModel {
    ProvenanceModel {
        stm_ids: Seq::empty(),
        refnet_id: "stub_refnet_v1"@,
        rules_applied: Seq::empty(),
        agent_id: "default_agent"@,
        step_id: now,
        timestamp: now,
    }
}

/// The fields of the record made from node `a`, its score and its tag.
pub open spec fn record_parts(a: AstModel, m: MetricsModel) -> (Seq<FieldModel>, i32, Seq<char>) {
    let f = a.fields;
    match a.ttype {
        ThoughtType::Percept => (
            seq![
                str_field("modality"@, str_or(lookup_str(f, "modality"@), "unknown"@)),
                str_field("content"@, str_or(lookup_str(f, "content"@), ""@)),
            ],
            1000,
            "percept"@,
        ),
        ThoughtType::Reflection => (
            seq![strs_field("ops"@, str_items(list_field(f, "ops"@)))],
            m.quality,
            "reflection"@,
        ),
        ThoughtType::Action => (
            seq![
                str_field("name"@, str_or(lookup_str(f, "name"@), "unknown"@)),
                str_field("target"@, str_or(lookup_str(f, "target"@), ""@)),
            ],
            1000,
            "action"@,
        ),
        ThoughtType::Concept => (
            seq![
                str_field("summary"@, str_or(lookup_str(f, "summary"@), ""@)),
                strs_field("from"@, str_items(list_field(f, "from"@))),
            ],
            800,
            "concept"@,
        ),
        _ => (seq![str_field("name"@, str_or(lookup_str(f, "name"@), "unknown"@))], 1000, "self_model"@),
    }
}

/// A new record of kind `t` with these fields: a placeholder identifier,
/// the canonical form of its node, a zero fingerprint, and its provenance
/// and scores.
pub open spec fn make_record(
    t: ThoughtType,
    span: Span,
    fields: Seq<FieldModel>,
    score: i32,
    tag: Seq<char>,
    now: u64,
) -> TokenModel {
    TokenModel {
        id: "temp_id"@,
        ast: canon_ast(AstModel { ttype: t, fields, children: Seq::empty(), span }),
        embedding: Seq::new(256, |i: int| 0u16),
        provenance: provenance_at(now),
        meta: MetaModel {
            version: "sentience/0.2"@,
            strength: score,
            belief: score,
            tags: seq![tag],
        },
    }
}

/// The candidate record made from node `a` under metrics `m` at time `now`.
pub open spec fn candidate_record(a: AstModel, m: MetricsModel, now: u64) -> TokenModel {
    let (fields, score, tag) = record_parts(a, m);
    make_record(a.ttype, a.span, fields, score, tag, now)
}

/// The candidates a node yields: one record for an interpretable kind.
pub open spec fn candidates(a: AstModel, m: MetricsModel, now: u64) -> Seq<TokenModel> {
    if interpretable(a.ttype) {
        seq![candidate_record(a, m, now)]
    } else {
        Seq::empty()
    }
}

/// The ids a node's record is derived from: the strings of a concept's
/// `from` list; none for other kinds.
pub open spec fn sources(a: AstModel) -> Seq<Seq<char>> {
    if a.ttype == ThoughtType::Concept {
        str_items(list_field(a.fields, "from"@))
    } else {
        Seq::empty()
    }
}

/// One `DerivedFrom` relation from each source to `target`.
pub open spec fn relations_to(srcs: Seq<Seq<char>>, target: Seq<char>, now: u64) -> Seq<EdgeModel> {
    srcs.map_values(|src: Seq<char>| edge_model(src, target, EdgeType::DerivedFrom, 1000, now))
}

/// The record that stands for candidate `c` under verdict `v`: the
/// replacement the superego names, or the candidate itself.
pub open spec fn target_record(c: TokenModel, v: VerdictModel) -> TokenModel {
    match v {
        VerdictModel::Modify(t) => t,
        _ => c,
    }
}

/// What is committed for candidate `c` under verdict `v`, if anything.
pub open spec fn commit_target(c: TokenModel, v: VerdictModel) -> Option<TokenModel> {
    match v {
        VerdictModel::Allow => Some(c),
        VerdictModel::Modify(t) => Some(t),
        _ => None,
    }
}

/// The relations candidate `c` of node `a` introduces under verdict `v`:
/// from each source to the identifier of the record that stands for it.
pub open spec fn candidate_relations(a: AstModel, c: TokenModel, v: VerdictModel, now: u64) -> Seq<
    EdgeModel,
> {
    relations_to(sources(a), record_id(target_record(c, v).ast), now)
}

/// What ends up in the result for candidate `c` under verdict `v`: the
/// candidate (or its replacement) under the identifier of its node, or the
/// candidate unchanged when deferred.
pub open spec fn settled(c: TokenModel, v: VerdictModel) -> TokenModel {
    match v {
        VerdictModel::Allow => with_id(c, record_id(c.ast)),
        VerdictModel::Modify(t) => with_id(t, record_id(t.ast)),
        _ => c,
    }
}

pub open spec fn tokens_model(s: Seq<SentienceToken>) -> Seq<TokenModel> {
    s.map_values(|t: SentienceToken| t@)
}

pub open spec fn edges_model(s: Seq<Edge>) -> Seq<EdgeModel> {
    s.map_values(|e: Edge| e@)
}

/// The metrics of a step: the evaluator's scores of the store's ten most
/// recent records.
pub open spec fn step_metrics<C: Cortex, N: RefNet>(cortex: C, refnet: N) -> MetricsModel {
    refnet.evaluation(cortex.window(10))
}

/// Whether some candidate before position `n` is blocked.
pub open spec fn blocked_before<S: Superego>(
    superego: S,
    cands: Seq<TokenModel>,
    m: MetricsModel,
    n: int,
) -> bool {
    exists|i: int| 0 <= i < n && #[trigger] superego.verdict(cands[i], m) is Block
}

/// The relations of the first `n` candidates, in order.
pub open spec fn step_relations<S: Superego>(
    superego: S,
    a: AstModel,
    cands: Seq<TokenModel>,
    m: MetricsModel,
    now: u64,
    n: int,
) -> Seq<EdgeModel>
    decreases n,
{
    if n <= 0 {
        Seq::empty()
    } else {
        step_relations(superego, a, cands, m, now, n - 1) + candidate_relations(
            a,
            cands[n - 1],
            superego.verdict(cands[n - 1], m),
            now,
        )
    }
}

/// The store's content after the commits of the first `n` candidates, in
/// order, starting from `m0`: an allowed candidate or a replacement is
/// committed with its relations; a deferred one is not.
pub open spec fn store_after<C: Cortex, S: Superego>(
    m0: C::Model,
    superego: S,
    a: AstModel,
    cands: Seq<TokenModel>,
    m: MetricsModel,
    now: u64,
    n: int,
) -> C::Model
    decreases n,
{
    if n <= 0 {
        m0
    } else {
        let prev = store_after::<C, S>(m0, superego, a, cands, m, now, n - 1);
        let v = superego.verdict(cands[n - 1], m);
        match commit_target(cands[n - 1], v) {
            Some(t) => C::after_commit(prev, t, candidate_relations(a, cands[n - 1], v, now)),
            None => prev,
        }
    }
}

/// What a step owes: its outcome `r` for node `a` at time `now`, and the
/// store after it, `after`, given the store before it, `before`.
pub open spec fn step_post<C: Cortex, N: RefNet, S: Superego>(
    before: C,
    after: C,
    refnet: N,
    superego: S,
    a: AstModel,
    now: u64,
    r: Result<ExecutionResult, ExecutionError>,
) -> bool {
    let m = step_metrics(before, refnet);
    let cands = candidates(a, m, now);
    let n = cands.len() as int;
    let m0 = before.model();
    &&& (!interpretable(a.ttype) <==> r matches Err(ExecutionError::UnsupportedKind(_)))
    &&& r matches Err(ExecutionError::UnsupportedKind(t)) ==> t == a.ttype && after == before
    &&& r matches Ok(res) ==> {
        &&& res.metrics matches Some(rm) && rm@ == m
        &&& edges_model(res.edges@) == step_relations(superego, a, cands, m, now, n)
        &&& res.tokens@.len() == n
        &&& forall|i: int|
            0 <= i < n ==> #[trigger] res.tokens@[i]@ == settled(
                cands[i],
                superego.verdict(cands[i], m),
            )
        &&& !blocked_before(superego, cands, m, n)
        &&& after.model() == store_after::<C, S>(m0, superego, a, cands, m, now, n)
    }
    &&& r matches Err(ExecutionError::Blocked(reason)) ==> exists|i: int|
        0 <= i < n && superego.verdict(cands[i], m) == VerdictModel::Block(reason@)
            && !blocked_before(superego, cands, m, i) && after.model() == store_after::<C, S>(
            m0,
            superego,
            a,
            cands,
            m,
            now,
            i,
        )
    &&& r matches Err(ExecutionError::Store(e)) ==> exists|i: int|
        #![trigger superego.verdict(cands[i], m)]
        {
            let v = superego.verdict(cands[i], m);
            &&& 0 <= i < n
            &&& !blocked_before(superego, cands, m, i + 1)
            &&& (commit_target(cands[i], v) matches Some(t) && C::may_fail_with(
                store_after::<C, S>(m0, superego, a, cands, m, now, i),
                t,
                candidate_relations(a, cands[i], v, now),
                e@,
            ))
            &&& after.model() == store_after::<C, S>(m0, superego, a, cands, m, now, i)
        }
    &&& (interpretable(a.ttype) && C::commits_always()) ==> (r is Ok <==> !blocked_before(
        superego,
        cands,
        m,
        n,
    ))
    &&& C::commits_always() ==> !(r matches Err(ExecutionError::Store(_)))
    &&& !(r matches Err(ExecutionError::Parse(_)))
}

/// Relies on `std::time::SystemTime::now`: the seconds since the Unix epoch,
/// or 0 if the clock is set before it. Nothing is promised of the value.
#[verifier::external_body]
pub(crate) fn current_timestamp() -> (r: u64) {
    match std::time::SystemTime::now().duration_since(std::time::UNIX_EPOCH) {
        Ok(d) => d.as_secs(),
        Err(_) => 0,
    }
}

/// The provenance of a record made at time `now`.
pub fn create_provenance(now: u64) -> (r: Provenance)
    ensures
        r@ == provenance_at(now),
{
    let r = Provenance {
        stm_ids: Vec::new(),
        refnet_id: String::from_str("stub_refnet_v1"),
        rules_applied: Vec::new(),
        agent_id: String::from_str("default_agent"),
        step_id: now,
        timestamp: now,
    };
    proof {
        assert(r@.stm_ids =~= Seq::<Seq<char>>::empty());
        assert(r@.rules_applied =~= Seq::<Seq<char>>::empty());
    }
    r
}

fn one_string(s: &str) -> (r: Vec<String>)
    ensures
        crate::sentience_core::ast::strings_model(r@) == seq![s@],
{
    let mut r: Vec<String> = Vec::new();
    r.push(String::from_str(s));
    proof {
        assert(crate::sentience_core::ast::strings_model(r@) =~= seq![s@]);
    }
    r
}

/// Builds a record of kind `t` from its (not yet canonical) node.
fn make_token(node: SentienceTokenAst, score: i32, tag: &str, now: u64) -> (r: SentienceToken)
    requires
        node@.children.len() == 0,
    ensures
        r@ == make_record(node@.ttype, node@.span, node@.fields, score, tag@, now),
{
    let ast = canonicalize(&node);
    let mut embedding: Vec<u16> = Vec::new();
    let mut i: usize = 0;
    while i < 256
        invariant
            i <= 256,
            embedding@ == Seq::new(i as nat, |j: int| 0u16),
        decreases 256 - i,
    {
        embedding.push(0);
        proof {
            assert(embedding@ =~= Seq::new((i + 1) as nat, |j: int| 0u16));
        }
        i = i + 1;
    }
    let meta = TokenMeta {
        version: String::from_str("sentience/0.2"),
        strength: score,
        belief: score,
        tags: one_string(tag),
    };
    let r = SentienceToken {
        id: String::from_str("temp_id"),
        ast,
        embedding,
        provenance: create_provenance(now),
        meta,
    };
    proof {
        assert(node@ == (AstModel { ttype: node@.ttype, fields: node@.fields, children: Seq::empty(), span: node@.span }));
    }
    r
}

fn str_value(s: &str) -> (r: Value)
    ensures
        r@ == ValueModel::Str(s@),
{
    Value::Str(String::from_str(s))
}

fn strs_value(items: &Vec<String>) -> (r: Value)
    ensures
        r@ == ValueModel::List(crate::sentience_core::ast::strings_model(items@).map_values(
            |s: Seq<char>| ValueModel::Str(s),
        )),
{
    let mut l: Vec<Value> = Vec::new();
    let mut i: usize = 0;
    while i < items.len()
        invariant
            i <= items@.len(),
            l@.len() == i,
            forall|j: int| 0 <= j < i ==> #[trigger] l@[j]@ == ValueModel::Str(items@[j]@),
        decreases items@.len() - i,
    {
        l.push(Value::Str(items[i].clone()));
        i = i + 1;
    }
    proof {
        lemma_values_model(l@);
        assert forall|j: int| 0 <= j < l@.len() implies #[trigger] values_model(l@)[j]
            == ValueModel::Str(crate::sentience_core::ast::strings_model(items@)[j]) by {
            assert(l@[j]@ == ValueModel::Str(items@[j]@));
        }
        assert(values_model(l@) =~= crate::sentience_core::ast::strings_model(items@).map_values(
            |s: Seq<char>| ValueModel::Str(s),
        ));
    }
    Value::List(l)
}

pub fn create_self_model_token(name: &str, span: &Span, now: u64) -> (r: SentienceToken)
    ensures
        r@ == make_record(ThoughtType::SelfModel, *span, seq![str_field("name"@, name@)], 1000, "self_model"@, now),
{
    let node = SentienceTokenAst::new(ThoughtType::SelfModel, *span).with_field(
        String::from_str("name"),
        str_value(name),
    );
    proof {
        assert(node@.fields =~= seq![str_field("name"@, name@)]);
    }
    make_token(node, 1000, "self_model", now)
}

pub fn create_percept_token(modality: &str, content: &str, span: &Span, now: u64) -> (r: SentienceToken)
    ensures
        r@ == make_record(
            ThoughtType::Percept,
            *span,
            seq![str_field("modality"@, modality@), str_field("content"@, content@)],
            1000,
            "percept"@,
            now,
        ),
{
    let node = SentienceTokenAst::new(ThoughtType::Percept, *span).with_field(
        String::from_str("modality"),
        str_value(modality),
    ).with_field(String::from_str("content"), str_value(content));
    proof {
        assert(node@.fields =~= seq![str_field("modality"@, modality@), str_field("content"@, content@)]);
    }
    make_token(node, 1000, "percept", now)
}

pub fn create_reflection_token(ops: &Vec<String>, metrics: &RefMetrics, span: &Span, now: u64) -> (r: SentienceToken)
    ensures
        r@ == make_record(
            ThoughtType::Reflection,
            *span,
            seq![strs_field("ops"@, crate::sentience_core::ast::strings_model(ops@))],
            metrics.quality,
            "reflection"@,
            now,
        ),
{
    let node = SentienceTokenAst::new(ThoughtType::Reflection, *span).with_field(
        String::from_str("ops"),
        strs_value(ops),
    );
    proof {
        assert(node@.fields =~= seq![strs_field("ops"@, crate::sentience_core::ast::strings_model(ops@))]);
    }
    make_token(node, metrics.quality, "reflection", now)
}

pub fn create_action_token(name: &str, target: &str, span: &Span, now: u64) -> (r: SentienceToken)
    ensures
        r@ == make_record(
            ThoughtType::Action,
            *span,
            seq![str_field("name"@, name@), str_field("target"@, target@)],
            1000,
            "action"@,
            now,
        ),
{
    let node = SentienceTokenAst::new(ThoughtType::Action, *span).with_field(
        String::from_str("name"),
        str_value(name),
    ).with_field(String::from_str("target"), str_value(target));
    proof {
        assert(node@.fields =~= seq![str_field("name"@, name@), str_field("target"@, target@)]);
    }
    make_token(node, 1000, "action", now)
}

pub fn create_concept_token(summary: &str, from_tokens: &Vec<String>, span: &Span, now: u64) -> (r: SentienceToken)
    ensures
        r@ == make_record(
            ThoughtType::Concept,
            *span,
            seq![
                str_field("summary"@, summary@),
                strs_field("from"@, crate::sentience_core::ast::strings_model(from_tokens@)),
            ],
            800,
            "concept"@,
            now,
        ),
{
    let node = SentienceTokenAst::new(ThoughtType::Concept, *span).with_field(
        String::from_str("summary"),
        str_value(summary),
    ).with_field(String::from_str("from"), strs_value(from_tokens));
    proof {
        assert(node@.fields =~= seq![
            str_field("summary"@, summary@),
            strs_field("from"@, crate::sentience_core::ast::strings_model(from_tokens@)),
        ]);
    }
    make_token(node, 800, "concept", now)
}

/// The string field `key` of `ast`, or `default` if it has none.
fn str_field_or<'a>(ast: &'a SentienceTokenAst, key: &str, default: &'a str) -> (r: &'a str)
    ensures
        r@ == str_or(lookup_str(ast@.fields, key@), default@),
{
    match ast.get_field_str(key) {
        Some(s) => s,
        None => default,
    }
}

/// The strings of the list field `key` of `ast`, in order.
fn string_items(ast: &SentienceTokenAst, key: &str) -> (r: Vec<String>)
    ensures
        crate::sentience_core::ast::strings_model(r@) == str_items(list_field(ast@.fields, key@)),
{
    let mut r: Vec<String> = Vec::new();
    match ast.get_field(key) {
        Some(Value::List(l)) => {
            let ghost lm = values_model(l@);
            proof {
                lemma_values_model(l@);
            }
            let mut i: usize = 0;
            while i < l.len()
                invariant
                    i <= l@.len(),
                    lm == values_model(l@),
                    lm.len() == l@.len(),
                    forall|j: int| 0 <= j < l@.len() ==> #[trigger] lm[j] == l@[j]@,
                    crate::sentience_core::ast::strings_model(r@) == str_items(lm.take(i as int)),
                decreases l@.len() - i,
            {
                proof {
                    assert(lm.take(i + 1).drop_last() =~= lm.take(i as int));
                }
                match &l[i] {
                    Value::Str(s) => {
                        r.push(s.clone());
                        proof {
                            assert(crate::sentience_core::ast::strings_model(r@) =~= crate::sentience_core::ast::strings_model(r@.drop_last()).push(s@));
                        }
                    },
                    _ => {},
                }
                i = i + 1;
            }
            proof {
                assert(lm.take(l@.len() as int) =~= lm);
            }
        },
        _ => {
            proof {
                assert(crate::sentience_core::ast::strings_model(r@) =~= Seq::<Seq<char>>::empty());
            }
        },
    }
    r
}

fn execute_percept(ast: &SentienceTokenAst, metrics: &RefMetrics, now: u64) -> (r: SentienceToken)
    requires
        ast@.ttype == ThoughtType::Percept,
    ensures
        r@ == candidate_record(ast@, metrics@, now),
{
    let modality = str_field_or(ast, "modality", "unknown");
    let content = str_field_or(ast, "content", "");
    create_percept_token(modality, content, &ast.span, now)
}

fn execute_reflection(ast: &SentienceTokenAst, metrics: &RefMetrics, now: u64) -> (r: SentienceToken)
    requires
        ast@.ttype == ThoughtType::Reflection,
    ensures
        r@ == candidate_record(ast@, metrics@, now),
{
    let ops = string_items(ast, "ops");
    create_reflection_token(&ops, metrics, &ast.span, now)
}

fn execute_action(ast: &SentienceTokenAst, metrics: &RefMetrics, now: u64) -> (r: SentienceToken)
    requires
        ast@.ttype == ThoughtType::Action,
    ensures
        r@ == candidate_record(ast@, metrics@, now),
{
    let name = str_field_or(ast, "name", "unknown");
    let target = str_field_or(ast, "target", "");
    create_action_token(name, target, &ast.span, now)
}

fn execute_self_model(ast: &SentienceTokenAst, metrics: &RefMetrics, now: u64) -> (r: SentienceToken)
    requires
        ast@.ttype == ThoughtType::SelfModel,
    ensures
        r@ == candidate_record(ast@, metrics@, now),
{
    let name = str_field_or(ast, "name", "unknown");
    create_self_model_token(name, &ast.span, now)
}

/// The concept record and the ids it is derived from.
fn execute_concept(ast: &SentienceTokenAst, metrics: &RefMetrics, now: u64) -> (r: (SentienceToken, Vec<String>))
    requires
        ast@.ttype == ThoughtType::Concept,
    ensures
        r.0@ == candidate_record(ast@, metrics@, now),
        crate::sentience_core::ast::strings_model(r.1@) == sources(ast@),
{
    let summary = str_field_or(ast, "summary", "");
    let source_ids = string_items(ast, "from");
    let token = create_concept_token(summary, &source_ids, &ast.span, now);
    (token, source_ids)
}

/// One `DerivedFrom` relation from each of `sources` to `target`.
pub fn derived_edges(sources: &Vec<String>, target: &String, now: u64) -> (r: Vec<Edge>)
    ensures
        edges_model(r@) == relations_to(
            crate::sentience_core::ast::strings_model(sources@),
            target@,
            now,
        ),
{
    let ghost srcs = crate::sentience_core::ast::strings_model(sources@);
    let mut edges: Vec<Edge> = Vec::new();
    let mut i: usize = 0;
    while i < sources.len()
        invariant
            i <= sources@.len(),
            srcs == crate::sentience_core::ast::strings_model(sources@),
            edges@.len() == i,
            forall|j: int|
                0 <= j < i ==> #[trigger] edges@[j]@ == edge_model(
                    srcs[j],
                    target@,
                    EdgeType::DerivedFrom,
                    1000,
                    now,
                ),
        decreases sources@.len() - i,
    {
        let e = Edge::new(sources[i].clone(), target.clone(), EdgeType::DerivedFrom, 1000, now);
        edges.push(e);
        i = i + 1;
    }
    proof {
        assert(edges_model(edges@) =~= relations_to(srcs, target@, now));
    }
    edges
}

/// The candidates of a node and the ids they are derived from, or
/// `UnsupportedKind` when its kind has no execution semantics.
pub fn plan_step(ast: &SentienceTokenAst, metrics: &RefMetrics, now: u64) -> (r: Result<
    (Vec<SentienceToken>, Vec<String>),
    ExecutionError,
>)
    ensures
        interpretable(ast@.ttype) <==> r is Ok,
        r matches Err(e) ==> e matches ExecutionError::UnsupportedKind(t) && t == ast@.ttype,
        r matches Ok(p) ==> tokens_model(p.0@) == candidates(ast@, metrics@, now)
            && crate::sentience_core::ast::strings_model(p.1@) == sources(ast@),
{
    let mut tokens: Vec<SentienceToken> = Vec::new();
    let mut srcs: Vec<String> = Vec::new();
    match ast.ttype {
        ThoughtType::Percept => tokens.push(execute_percept(ast, metrics, now)),
        ThoughtType::Reflection => tokens.push(execute_reflection(ast, metrics, now)),
        ThoughtType::Action => tokens.push(execute_action(ast, metrics, now)),
        ThoughtType::Concept => {
            let (t, e) = execute_concept(ast, metrics, now);
            tokens.push(t);
            srcs = e;
        },
        ThoughtType::SelfModel => tokens.push(execute_self_model(ast, metrics, now)),
        _ => {
            return Err(ExecutionError::UnsupportedKind(ast.ttype));
        },
    }
    proof {
        assert(tokens_model(tokens@) =~= candidates(ast@, metrics@, now));
        assert(crate::sentience_core::ast::strings_model(srcs@) =~= sources(ast@));
    }
    Ok((tokens, srcs))
}

/// One step at time `now`: score the store's ten most recent records, make
/// the node's candidates, and let the superego judge each candidate in turn
/// against those scores. An allowed candidate (or the replacement it names)
/// is committed with its relations, which point at its node's identifier,
/// and takes the identifier the store gives it; a deferred one is kept
/// uncommitted, its relations still reported; a blocked one fails the step,
/// leaving earlier commits in place; a failing commit fails it with the
/// store's error.
pub fn execute_at<C: Cortex, N: RefNet, S: Superego>(
    ast: &SentienceTokenAst,
    runtime: &mut Runtime<C, N, S>,
    now: u64,
) -> (r: Result<ExecutionResult, ExecutionError>)
    ensures
        step_post(
            old(runtime).cortex,
            final(runtime).cortex,
            old(runtime).refnet,
            old(runtime).superego,
            ast@,
            now,
            r,
        ),
        r matches Ok(res) ==> res.token_id is None && res.embedding is None,
        final(runtime).refnet == old(runtime).refnet,
        final(runtime).superego == old(runtime).superego,
{
    let stm = runtime.cortex.stm(10);
    let metrics = runtime.refnet.evaluate(stm.as_slice());
    let ghost m = metrics@;
    let ghost m0 = runtime.cortex.model();
    let (cands, srcs) = match plan_step(ast, &metrics, now) {
        Ok(p) => p,
        Err(e) => {
            return Err(e);
        },
    };
    let ghost cm = tokens_model(cands@);
    let ghost sup = runtime.superego;
    let mut result = ExecutionResult::new();
    let mut pending = cands;
    let mut i: usize = 0;
    proof {
        assert(tokens_model(pending@) =~= cm.skip(0));
        assert(edges_model(result.edges@) =~= Seq::<EdgeModel>::empty());
    }
    while pending.len() > 0
        invariant
            cm == candidates(ast@, m, now),
            m == step_metrics(old(runtime).cortex, old(runtime).refnet),
            m0 == old(runtime).cortex.model(),
            sup == old(runtime).superego,
            crate::sentience_core::ast::strings_model(srcs@) == sources(ast@),
            metrics@ == m,
            runtime.refnet == old(runtime).refnet,
            runtime.superego == old(runtime).superego,
            i <= cm.len(),
            tokens_model(pending@) == cm.skip(i as int),
            result.tokens@.len() == i,
            edges_model(result.edges@) == step_relations(sup, ast@, cm, m, now, i as int),
            result.token_id is None,
            result.embedding is None,
            result.metrics is None,
            forall|j: int|
                0 <= j < i ==> #[trigger] result.tokens@[j]@ == settled(cm[j], sup.verdict(cm[j], m)),
            !blocked_before(sup, cm, m, i as int),
            runtime.cortex.model() == store_after::<C, S>(m0, sup, ast@, cm, m, now, i as int),
        decreases pending@.len(),
    {
        let ghost before = pending@;
        proof {
            assert(tokens_model(before).len() == before.len());
            assert(tokens_model(before)[0] == before[0]@);
        }
        let c = pending.remove(0);
        proof {
            assert(cm.skip(i as int)[0] == cm[i as int]);
            assert(c@ == cm[i as int]);
            assert(tokens_model(pending@) =~= cm.skip(i + 1));
        }
        let ghost v = sup.verdict(cm[i as int], m);
        let verdict = runtime.superego.judge(&c, &metrics);
        let (mut token, commit) = match verdict {
            Verdict::Allow => (c, true),
            Verdict::Modify(replacement) => (replacement, true),
            Verdict::Defer => (c, false),
            Verdict::Block(reason) => {
                return Err(ExecutionError::Blocked(reason));
            },
        };
        proof {
            assert(token@ == target_record(cm[i as int], v));
            assert(commit <==> commit_target(cm[i as int], v) is Some);
        }
        let target = token_hash(&token.ast);
        let mut edges = derived_edges(&srcs, &target, now);
        proof {
            assert(edges_model(edges@) == candidate_relations(ast@, cm[i as int], v, now));
        }
        if commit {
            match runtime.cortex.commit(&token, edges.as_slice()) {
                Ok(id) => {
                    token.id = id;
                },
                Err(e) => {
                    proof {
                        assert(!blocked_before(sup, cm, m, i + 1)) by {
                            if blocked_before(sup, cm, m, i + 1) {
                                let q = choose|q: int|
                                    0 <= q < i + 1 && #[trigger] sup.verdict(cm[q], m) is Block;
                                if q < i {
                                    assert(blocked_before(sup, cm, m, i as int));
                                }
                            }
                        }
                        assert(edges@.map_values(|e: Edge| e@) == edges_model(edges@));
                    }
                    return Err(ExecutionError::Store(e));
                },
            }
        }
        proof {
            assert(edges@.map_values(|e: Edge| e@) == edges_model(edges@));
        }
        let ghost prev_edges = edges_model(result.edges@);
        result.tokens.push(token);
        result.edges.append(&mut edges);
        proof {
            assert(edges_model(result.edges@) =~= prev_edges + candidate_relations(ast@, cm[i as int], v, now));
            assert forall|j: int| 0 <= j < i + 1 implies !(#[trigger] sup.verdict(cm[j], m) is Block) by {
                if j < i {
                    if sup.verdict(cm[j], m) is Block {
                        assert(blocked_before(sup, cm, m, i as int));
                    }
                }
            }
        }
        i = i + 1;
    }
    result.metrics = Some(metrics);
    Ok(result)
}

/// One step, stamped with the time of the system clock.
pub fn execute<C: Cortex, N: RefNet, S: Superego>(
    ast: &SentienceTokenAst,
    runtime: &mut Runtime<C, N, S>,
) -> (r: Result<ExecutionResult, ExecutionError>)
    ensures
        exists|now: u64|
            step_post(
                old(runtime).cortex,
                final(runtime).cortex,
                old(runtime).refnet,
                old(runtime).superego,
                ast@,
                now,
                r,
            ),
        final(runtime).refnet == old(runtime).refnet,
        final(runtime).superego == old(runtime).superego,
{
    let now = current_timestamp();
    execute_at(ast, runtime, now)
}

} // verus!
