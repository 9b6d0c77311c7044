//! Laws of the pipeline that relate several of its functions.

use vstd::prelude::*;

use crate::sentience_core::ast::{AstModel, EdgeType, ThoughtType};
use crate::sentience_core::canonical_laws::{field_map, lemma_canon_fields_by_map};
use crate::sentience_core::canonicalizer::canon_ast;
use crate::sentience_core::ast::EdgeModel;
use crate::sentience_core::executor::{
    blocked_before, candidate_record, candidate_relations, candidates, interpretable, list_field,
    step_metrics, step_post, step_relations, store_after, str_items,
};
use crate::sentience_core::hasher::{encode_ast, record_id};
use crate::sentience_core::runtime::{
    with_id, Cortex, ExecutionError, ExecutionResult, RefNet, StubSuperego, Superego, VerdictModel,
    QUALITY_THRESHOLD,
};
use crate::sentience_core::symbolic_encoder::{fingerprint, fingerprint_children, fingerprint_fields};

verus! {

/// Identifiers and fingerprints are functions of the canonical node: equal
/// nodes get equal ones, on every call. Neither depends on the span, so two
/// nodes that differ only in span and in the order of their fields get the
/// same identifier and the same fingerprint.
pub proof fn lemma_deterministic_ids(a: AstModel, b: AstModel)
    requires
        a.ttype == b.ttype,
        a.children == b.children,
        field_map(a.fields) == field_map(b.fields),
    ensures
        record_id(canon_ast(a)) == record_id(canon_ast(b)),
        fingerprint(canon_ast(a)) == fingerprint(canon_ast(b)),
{
    lemma_canon_fields_by_map(a.fields, b.fields);
    let (ca, cb) = (canon_ast(a), canon_ast(b));
    assert(ca.fields == cb.fields);
    assert(ca.children == cb.children);
    assert(encode_ast(ca) == encode_ast(cb));
    lemma_fingerprint_ignores_span(ca, cb);
}

proof fn lemma_fingerprint_fields_ignores_span(x: AstModel, y: AstModel, n: int)
    requires
        x.ttype == y.ttype,
        x.fields == y.fields,
    ensures
        fingerprint_fields(x, n) == fingerprint_fields(y, n),
    decreases n,
{
    if n > 0 {
        lemma_fingerprint_fields_ignores_span(x, y, n - 1);
    }
}

proof fn lemma_fingerprint_children_ignores_span(x: AstModel, y: AstModel, n: int)
    requires
        x.ttype == y.ttype,
        x.fields == y.fields,
        x.children == y.children,
    ensures
        fingerprint_children(x, n) == fingerprint_children(y, n),
    decreases n,
{
    if n > 0 {
        lemma_fingerprint_children_ignores_span(x, y, n - 1);
    } else {
        lemma_fingerprint_fields_ignores_span(x, y, x.fields.len() as int);
    }
}

proof fn lemma_fingerprint_ignores_span(x: AstModel, y: AstModel)
    requires
        x.ttype == y.ttype,
        x.fields == y.fields,
        x.children == y.children,
    ensures
        fingerprint(x) == fingerprint(y),
{
    lemma_fingerprint_children_ignores_span(x, y, x.children.len() as int);
}

/// Under the reference gate, and with a store whose commits always succeed,
/// a step on an interpretable node fails with `Blocked` when the quality is
/// below the threshold, leaving the store as it was; otherwise it commits its
/// record, which comes back under its node's identifier (`mem_...`).
pub proof fn lemma_gate_state_machine<C: Cortex, N: RefNet>(
    before: C,
    after: C,
    refnet: N,
    a: AstModel,
    now: u64,
    r: Result<ExecutionResult, ExecutionError>,
)
    requires
        step_post(before, after, refnet, StubSuperego, a, now, r),
        interpretable(a.ttype),
        C::commits_always(),
    ensures
        step_metrics(before, refnet).quality < QUALITY_THRESHOLD ==> (r matches Err(
            ExecutionError::Blocked(reason),
        ) && reason@ == "Quality too low"@ && after.model() == before.model()),
        step_metrics(before, refnet).quality >= QUALITY_THRESHOLD ==> (r matches Ok(res) && {
            let c = candidate_record(a, step_metrics(before, refnet), now);
            &&& res.tokens@.len() == 1
            &&& res.tokens@[0]@ == with_id(c, record_id(c.ast))
            &&& res.tokens@[0]@.id.take(4) == "mem_"@
            &&& after.model() == C::after_commit(
                before.model(),
                c,
                candidate_relations(a, c, VerdictModel::Allow, now),
            )
        }),
{
    let m = step_metrics(before, refnet);
    let cands = candidates(a, m, now);
    let g = StubSuperego;
    if m.quality < QUALITY_THRESHOLD {
        assert(g.verdict(cands[0], m) is Block);
        assert(blocked_before(g, cands, m, cands.len() as int));
        match r {
            Err(ExecutionError::Blocked(reason)) => {
                let i = choose|i: int|
                    0 <= i < cands.len() && g.verdict(cands[i], m) == VerdictModel::Block(reason@)
                        && !blocked_before(g, cands, m, i) && after.model() == store_after::<
                        C,
                        StubSuperego,
                    >(before.model(), g, a, cands, m, now, i);
                assert(i == 0);
                assert(reason@ == "Quality too low"@);
            },
            _ => {},
        }
    } else {
        assert(!blocked_before(g, cands, m, cands.len() as int));
        match r {
            Ok(res) => {
                let t = res.tokens@[0]@;
                assert(t == with_id(cands[0], record_id(cands[0].ast)));
                reveal_strlit("mem_");
                assert(t.id.take(4) =~= "mem_"@);
                assert(store_after::<C, StubSuperego>(before.model(), g, a, cands, m, now, 0)
                    == before.model());
            },
            _ => {},
        }
    }
}

/// A concept yields one `DerivedFrom` relation per string of its `from`
/// list, in order, each from that source to the record the step made. Under
/// the reference gate, with a store whose commits always succeed and the
/// quality at the threshold or above, that record is committed under the
/// relations' target, together with those relations.
pub proof fn lemma_concept_relations<C: Cortex, N: RefNet>(
    before: C,
    after: C,
    refnet: N,
    a: AstModel,
    now: u64,
    r: Result<ExecutionResult, ExecutionError>,
)
    requires
        step_post(before, after, refnet, StubSuperego, a, now, r),
        a.ttype == ThoughtType::Concept,
        C::commits_always(),
        step_metrics(before, refnet).quality >= QUALITY_THRESHOLD,
    ensures
        r matches Ok(res) && {
            let ids = str_items(list_field(a.fields, "from"@));
            &&& res.edges@.len() == ids.len()
            &&& forall|i: int|
                0 <= i < ids.len() ==> {
                    &&& (#[trigger] res.edges@[i])@.edge_type == EdgeType::DerivedFrom
                    &&& res.edges@[i]@.source_id == ids[i]
                    &&& res.edges@[i]@.target_id == res.tokens@[0]@.id
                }
        },
{
    lemma_gate_state_machine(before, after, refnet, a, now, r);
    let m = step_metrics(before, refnet);
    let cands = candidates(a, m, now);
    let ids = str_items(list_field(a.fields, "from"@));
    match r {
        Ok(res) => {
            let g = StubSuperego;
            assert(step_relations(g, a, cands, m, now, 0) =~= Seq::<EdgeModel>::empty());
            assert(step_relations(g, a, cands, m, now, 1) =~= candidate_relations(
                a,
                cands[0],
                VerdictModel::Allow,
                now,
            ));
            assert forall|i: int| 0 <= i < ids.len() implies {
                &&& (#[trigger] res.edges@[i])@.edge_type == EdgeType::DerivedFrom
                &&& res.edges@[i]@.source_id == ids[i]
                &&& res.edges@[i]@.target_id == res.tokens@[0]@.id
            } by {
                assert(res.edges@.map_values(|e: crate::sentience_core::ast::Edge| e@)[i]
                    == res.edges@[i]@);
            }
        },
        _ => {},
    }
}

} // verus!
