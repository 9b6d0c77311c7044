//! The three capabilities the executor depends on (a memory store, an
//! evaluator and a gate), the values they exchange, and reference
//! implementations of each.

use vstd::prelude::*;
use vstd::string::StringExecFns;

use crate::sentience_core::ast::{
    clone_strings, clone_u16s, strings_model, AstModel, Edge, EdgeModel, SentienceToken,
    ThoughtType, TokenModel,
};
use crate::sentience_core::hasher::{record_id, token_hash};
use crate::text::same_str;

verus! {

/// Scores computed from the short-term window, in thousandths, with the
/// suggested next action and a score per action.
#[derive(Debug)]
pub struct RefMetrics {
    pub valence: i32,
    pub smd: i32,
    pub quality: i32,
    pub next_action: String,
    pub action_logits: Vec<(String, i32)>,
}

pub struct MetricsModel {
    pub valence: i32,
    pub smd: i32,
    pub quality: i32,
    pub next_action: Seq<char>,
    pub action_logits: Seq<(Seq<char>, i32)>,
}

pub open spec fn logits_model(s: Seq<(String, i32)>) -> Seq<(Seq<char>, i32)> {
    s.map_values(|e: (String, i32)| (e.0@, e.1))
}

impl View for RefMetrics {
    type V = MetricsModel;

    open spec fn view(&self) -> MetricsModel {
        MetricsModel {
            valence: self.valence,
            smd: self.smd,
            quality: self.quality,
            next_action: self.next_action@,
            action_logits: logits_model(self.action_logits@),
        }
    }
}

impl Clone for RefMetrics {
    fn clone(&self) -> (r: Self)
        ensures
            r@ == self@,
    {
        let mut logits: Vec<(String, i32)> = Vec::new();
        let mut i: usize = 0;
        while i < self.action_logits.len()
            invariant
                i <= self.action_logits@.len(),
                logits@.len() == i,
                forall|j: int|
                    #![trigger logits@[j]]
                    0 <= j < i ==> logits@[j].0@ == self.action_logits@[j].0@ && logits@[j].1
                        == self.action_logits@[j].1,
            decreases self.action_logits@.len() - i,
        {
            let key = self.action_logits[i].0.clone();
            logits.push((key, self.action_logits[i].1));
            proof {
                assert(logits@[i as int].0@ == self.action_logits@[i as int].0@);
            }
            i = i + 1;
        }
        proof {
            assert(logits_model(logits@) =~= logits_model(self.action_logits@));
        }
        RefMetrics {
            valence: self.valence,
            smd: self.smd,
            quality: self.quality,
            next_action: self.next_action.clone(),
            action_logits: logits,
        }
    }
}

/// A gate's decision on a candidate record.
#[derive(Debug)]
pub enum Verdict {
    /// Commit the candidate as it is.
    Allow,
    /// Commit this replacement instead.
    Modify(SentienceToken),
    /// Do not commit the candidate in this step.
    Defer,
    /// Fail the whole step, for this reason.
    Block(String),
}

pub enum VerdictModel {
    Allow,
    Modify(TokenModel),
    Defer,
    Block(Seq<char>),
}

impl View for Verdict {
    type V = VerdictModel;

    open spec fn view(&self) -> VerdictModel {
        match self {
            Verdict::Allow => VerdictModel::Allow,
            Verdict::Modify(t) => VerdictModel::Modify(t@),
            Verdict::Defer => VerdictModel::Defer,
            Verdict::Block(s) => VerdictModel::Block(s@),
        }
    }
}

/// A light reference to a stored record.
#[derive(Debug)]
pub struct TokenRef {
    pub id: String,
    pub ttype: ThoughtType,
    pub embedding: Vec<u16>,
}

pub struct TokenRefModel {
    pub id: Seq<char>,
    pub ttype: ThoughtType,
    pub embedding: Seq<u16>,
}

impl View for TokenRef {
    type V = TokenRefModel;

    open spec fn view(&self) -> TokenRefModel {
        TokenRefModel { id: self.id@, ttype: self.ttype, embedding: self.embedding@ }
    }
}

pub open spec fn refs_model(s: Seq<TokenRef>) -> Seq<TokenRefModel> {
    s.map_values(|t: TokenRef| t@)
}

/// The reference to a record.
pub open spec fn ref_of(t: TokenModel) -> TokenRefModel {
    TokenRefModel { id: t.id, ttype: t.ast.ttype, embedding: t.embedding }
}

impl TokenRef {
    pub fn new(id: String, ttype: ThoughtType, embedding: Vec<u16>) -> (r: Self)
        ensures
            r@ == (TokenRefModel { id: id@, ttype, embedding: embedding@ }),
    {
        TokenRef { id, ttype, embedding }
    }

    fn of(t: &SentienceToken) -> (r: Self)
        ensures
            r@ == ref_of(t@),
    {
        TokenRef { id: t.id.clone(), ttype: t.ast.ttype, embedding: clone_u16s(&t.embedding) }
    }
}

/// Why a step failed.
#[derive(Debug)]
pub enum ExecutionError {
    /// The input did not yield a node.
    Parse(String),
    /// The node's kind has no execution semantics.
    UnsupportedKind(ThoughtType),
    /// The superego blocked a candidate, for this reason.
    Blocked(String),
    /// The store failed to commit, for this reason.
    Store(String),
}

/// What one step produced.
#[derive(Debug)]
pub struct ExecutionResult {
    pub tokens: Vec<SentienceToken>,
    pub edges: Vec<Edge>,
    pub token_id: Option<String>,
    pub embedding: Option<Vec<u16>>,
    pub metrics: Option<RefMetrics>,
}

impl ExecutionResult {
    pub fn new() -> (r: Self)
        ensures
            r.tokens@.len() == 0,
            r.edges@.len() == 0,
            r.token_id is None,
            r.embedding is None,
            r.metrics is None,
    {
        ExecutionResult {
            tokens: Vec::new(),
            edges: Vec::new(),
            token_id: None,
            embedding: None,
            metrics: None,
        }
    }
}

/// A memory store.
pub trait Cortex {
    /// The abstract content of the store.
    type Model;

    spec fn model(&self) -> Self::Model;

    /// The content after `token` is committed with the relations `edges`.
    spec fn after_commit(m: Self::Model, token: TokenModel, edges: Seq<EdgeModel>) -> Self::Model;

    /// Whether committing `token` with `edges` to content `m` may fail with
    /// the error `e`.
    spec fn may_fail_with(
        m: Self::Model,
        token: TokenModel,
        edges: Seq<EdgeModel>,
        e: Seq<char>,
    ) -> bool;

    /// Whether every commit succeeds.
    spec fn commits_always() -> bool;

    /// The references `stm(n)` returns: the most recently committed first.
    spec fn window(&self, n: nat) -> Seq<TokenRefModel>;

    /// Stores a record with the relations it introduced and returns the
    /// identifier it was stored under, which is derived from the record's
    /// node. A failed commit leaves the store as it was.
    fn commit(&mut self, token: &SentienceToken, edges: &[Edge]) -> (r: Result<String, String>)
        ensures
            r matches Ok(id) ==> id@ == record_id(token@.ast) && final(self).model()
                == Self::after_commit(old(self).model(), token@, edges@.map_values(|e: Edge| e@)),
            r matches Err(e) ==> final(self).model() == old(self).model() && Self::may_fail_with(
                old(self).model(),
                token@,
                edges@.map_values(|e: Edge| e@),
                e@,
            ),
            Self::commits_always() ==> r is Ok,
    ;

    /// At most `k` stored records, the most similar to `vec` first.
    fn recall_similar(&self, vec: &[u16], k: usize) -> (r: Vec<TokenRef>)
        ensures
            r@.len() <= k,
    ;

    /// The `n` most recently committed records, most recent first.
    fn stm(&self, n: usize) -> (r: Vec<TokenRef>)
        ensures
            refs_model(r@) == self.window(n as nat),
    ;

    /// The record stored under `id`.
    fn get_token(&self, id: &str) -> (r: Option<SentienceToken>)
        ensures
            r matches Some(t) ==> t@.id == id@,
    ;
}

/// An evaluator: scores from the short-term window, with no side effects.
pub trait RefNet {
    spec fn evaluation(&self, stm: Seq<TokenRefModel>) -> MetricsModel;

    fn evaluate(&self, stm: &[TokenRef]) -> (r: RefMetrics)
        ensures
            r@ == self.evaluation(refs_model(stm@)),
    ;
}

/// A gate: judges a candidate record against the step's metrics.
pub trait Superego {
    spec fn verdict(&self, token: TokenModel, metrics: MetricsModel) -> VerdictModel;

    fn judge(&self, token: &SentienceToken, metrics: &RefMetrics) -> (r: Verdict)
        ensures
            r@ == self.verdict(token@, metrics@),
    ;
}

/// `sum_{i < n} a[i] * b[i]`.
pub open spec fn dot(a: Seq<u16>, b: Seq<u16>, n: int) -> int
    decreases n,
{
    if n <= 0 {
        0
    } else {
        dot(a, b, n - 1) + (a[n - 1] as int) * (b[n - 1] as int)
    }
}

/// How a fingerprint `e` compares to a query `q`: the dot product, the
/// squared norm of `e`, and whether a cosine exists (both vectors full
/// length and nonzero). Without a cosine the similarity counts as zero.
pub struct SimilarityKey {
    pub dot: int,
    pub norm2: int,
    pub comparable: bool,
}

pub open spec fn similarity_key(q: Seq<u16>, e: Seq<u16>) -> SimilarityKey {
    SimilarityKey {
        dot: dot(q, e, 256),
        norm2: dot(e, e, 256),
        comparable: q.len() == 256 && e.len() == 256 && dot(q, q, 256) > 0 && dot(e, e, 256) > 0,
    }
}

/// `a` is at least as similar to the query as `b`: cos(a) >= cos(b), which
/// for non-negative vectors is `dot_a^2 * |b|^2 >= dot_b^2 * |a|^2`.
pub open spec fn at_least_as_similar(a: SimilarityKey, b: SimilarityKey) -> bool {
    if !b.comparable {
        true
    } else if !a.comparable {
        b.dot == 0
    } else {
        a.dot * a.dot * b.norm2 >= b.dot * b.dot * a.norm2
    }
}

pub open spec fn key_ok(a: SimilarityKey) -> bool {
    a.comparable ==> a.dot >= 0 && a.norm2 > 0
}

pub proof fn lemma_similarity_total(a: SimilarityKey, b: SimilarityKey)
    ensures
        at_least_as_similar(a, b) || at_least_as_similar(b, a),
{
}

pub proof fn lemma_similarity_transitive(a: SimilarityKey, b: SimilarityKey, c: SimilarityKey)
    requires
        key_ok(a),
        key_ok(b),
        key_ok(c),
        at_least_as_similar(a, b),
        at_least_as_similar(b, c),
    ensures
        at_least_as_similar(a, c),
{
    if c.comparable && b.comparable {
        if !a.comparable {
            assert(b.dot == 0);
            assert(b.dot * b.dot * c.norm2 >= c.dot * c.dot * b.norm2);
            assert(c.dot * c.dot * b.norm2 <= 0) by (nonlinear_arith)
                requires
                    b.dot == 0,
                    b.dot * b.dot * c.norm2 >= c.dot * c.dot * b.norm2,
            ;
            assert(c.dot * c.dot >= 0) by (nonlinear_arith);
            assert(c.dot * c.dot == 0) by (nonlinear_arith)
                requires
                    c.dot * c.dot * b.norm2 <= 0,
                    c.dot * c.dot >= 0,
                    b.norm2 > 0,
            ;
            assert(c.dot == 0) by (nonlinear_arith)
                requires
                    c.dot * c.dot == 0,
            ;
        } else {
            let (x, y, z) = (a.dot * a.dot, b.dot * b.dot, c.dot * c.dot);
            assert(x * b.norm2 >= y * a.norm2);
            assert(y * c.norm2 >= z * b.norm2);
            assert(x * c.norm2 >= z * a.norm2) by (nonlinear_arith)
                requires
                    x * b.norm2 >= y * a.norm2,
                    y * c.norm2 >= z * b.norm2,
                    a.norm2 > 0,
                    b.norm2 > 0,
                    c.norm2 > 0,
            ;
        }
    } else if c.comparable && !b.comparable {
        assert(c.dot == 0);
        if a.comparable {
            assert(a.dot * a.dot * c.norm2 >= 0) by (nonlinear_arith)
                requires
                    c.norm2 > 0,
            ;
        }
    }
}

proof fn lemma_dot_bounds(a: Seq<u16>, b: Seq<u16>, n: int)
    requires
        0 <= n <= a.len(),
        n <= b.len(),
    ensures
        0 <= dot(a, b, n) <= n * (65535 * 65535),
    decreases n,
{
    if n > 0 {
        lemma_dot_bounds(a, b, n - 1);
        let (x, y) = (a[n - 1] as int, b[n - 1] as int);
        assert(0 <= x * y <= 65535 * 65535) by (nonlinear_arith)
            requires
                0 <= x <= 65535,
                0 <= y <= 65535,
        ;
        assert((n - 1) * (65535 * 65535) + 65535 * 65535 == n * (65535 * 65535)) by (nonlinear_arith);
    }
}

/// The bound on a dot product of two fingerprints.
pub open spec fn dot_bound() -> int {
    256int * (65535int * 65535int)
}

/// A similarity key computed for the query.
struct Key {
    dot: u64,
    norm2: u64,
    comparable: bool,
}

spec fn key_matches(k: Key, s: SimilarityKey) -> bool {
    &&& k.comparable == s.comparable
    &&& s.comparable ==> k.dot == s.dot && k.norm2 == s.norm2
    &&& k.dot <= dot_bound()
    &&& k.norm2 <= dot_bound()
    &&& key_ok(s)
}

fn dot_of(a: &[u16], b: &[u16]) -> (r: u64)
    requires
        a@.len() == 256,
        b@.len() == 256,
    ensures
        r == dot(a@, b@, 256),
        r <= dot_bound(),
{
    let mut acc: u64 = 0;
    let mut i: usize = 0;
    while i < 256
        invariant
            i <= 256,
            a@.len() == 256,
            b@.len() == 256,
            acc == dot(a@, b@, i as int),
        decreases 256 - i,
    {
        proof {
            lemma_dot_bounds(a@, b@, i + 1);
            assert(dot(a@, b@, i + 1) <= 256 * (65535 * 65535)) by (nonlinear_arith)
                requires
                    dot(a@, b@, i + 1) <= (i + 1) * (65535 * 65535),
                    i + 1 <= 256,
            ;
        }
        acc = acc + (a[i] as u64) * (b[i] as u64);
        i = i + 1;
    }
    proof {
        lemma_dot_bounds(a@, b@, 256);
    }
    acc
}

fn key_of(q: &[u16], qn: u64, e: &[u16]) -> (r: Key)
    requires
        q@.len() == 256 ==> qn == dot(q@, q@, 256),
    ensures
        key_matches(r, similarity_key(q@, e@)),
{
    proof {
        if q@.len() == 256 && e@.len() == 256 {
            lemma_dot_bounds(q@, e@, 256);
            lemma_dot_bounds(e@, e@, 256);
        }
    }
    if q.len() == 256 && e.len() == 256 {
        let d = dot_of(q, e);
        let n = dot_of(e, e);
        Key { dot: d, norm2: n, comparable: qn > 0 && n > 0 }
    } else {
        Key { dot: 0, norm2: 0, comparable: false }
    }
}

fn at_least(a: &Key, b: &Key) -> (r: bool)
    requires
        a.dot <= dot_bound(),
        a.norm2 <= dot_bound(),
        b.dot <= dot_bound(),
        b.norm2 <= dot_bound(),
    ensures
        forall|sa: SimilarityKey, sb: SimilarityKey|
            key_matches(*a, sa) && key_matches(*b, sb) ==> r == at_least_as_similar(sa, sb),
{
    if !b.comparable {
        true
    } else if !a.comparable {
        b.dot == 0
    } else {
        let (ad, an, bd, bn) = (a.dot as u128, a.norm2 as u128, b.dot as u128, b.norm2 as u128);
        let ghost big: int = 1099478073600;
        assert(dot_bound() == big);
        assert(ad * ad <= big * big && ad * ad * bn <= big * big * big) by (nonlinear_arith)
            requires
                0 <= ad <= big,
                0 <= bn <= big,
        ;
        assert(bd * bd <= big * big && bd * bd * an <= big * big * big) by (nonlinear_arith)
            requires
                0 <= bd <= big,
                0 <= an <= big,
        ;
        assert(big * big * big < 0x1_0000_0000_0000_0000_0000_0000_0000_0000int) by (nonlinear_arith)
            requires
                big == 1099478073600,
        ;
        ad * ad * bn >= bd * bd * an
    }
}

/// What a recall returns: `idx` names distinct records, the ones returned
/// in order; each is at least as similar as every later one and as every
/// record left out; fewer than `k` are returned only when none is left out.
pub open spec fn recall_ranking(
    q: Seq<u16>,
    k: nat,
    records: Seq<TokenModel>,
    idx: Seq<int>,
    r: Seq<TokenRefModel>,
) -> bool {
    &&& r.len() == idx.len()
    &&& idx.len() <= k
    &&& forall|i: int| 0 <= i < idx.len() ==> 0 <= #[trigger] idx[i] < records.len()
    &&& forall|i: int, j: int| 0 <= i < j < idx.len() ==> idx[i] != idx[j]
    &&& forall|i: int| 0 <= i < idx.len() ==> #[trigger] r[i] == ref_of(records[idx[i]])
    &&& forall|i: int, j: int|
        0 <= i < j < idx.len() ==> at_least_as_similar(
            similarity_key(q, (#[trigger] records[idx[i]]).embedding),
            similarity_key(q, (#[trigger] records[idx[j]]).embedding),
        )
    &&& forall|i: int, m: int|
        0 <= i < idx.len() && 0 <= m < records.len() && !idx.contains(m) ==> at_least_as_similar(
            similarity_key(q, (#[trigger] records[idx[i]]).embedding),
            similarity_key(q, (#[trigger] records[m]).embedding),
        )
    &&& idx.len() < k ==> forall|m: int| 0 <= m < records.len() ==> idx.contains(m)
}

/// The record with its identifier replaced.
pub open spec fn with_id(t: TokenModel, id: Seq<char>) -> TokenModel {
    TokenModel { id, ..t }
}

/// The window `ids` keeps after `id` is pushed: the oldest is evicted once
/// there are more than `capacity`.
pub open spec fn pushed_window(ids: Seq<Seq<char>>, id: Seq<char>, capacity: nat) -> Seq<Seq<char>> {
    if ids.len() + 1 > capacity {
        ids.push(id).drop_first()
    } else {
        ids.push(id)
    }
}

/// `edges` with the relations of `new` whose identifiers it lacks appended, in order.
pub open spec fn added_edges(edges: Seq<EdgeModel>, new: Seq<EdgeModel>) -> Seq<EdgeModel>
    decreases new.len(),
{
    if new.len() == 0 {
        edges
    } else {
        let prev = added_edges(edges, new.drop_last());
        if exists|i: int| 0 <= i < prev.len() && prev[i].id == new.last().id {
            prev
        } else {
            prev.push(new.last())
        }
    }
}

/// The references to the records named by `ids`, skipping names with no record.
pub open spec fn refs_for(ids: Seq<Seq<char>>, records: Seq<TokenModel>) -> Seq<TokenRefModel>
    decreases ids.len(),
{
    if ids.len() == 0 {
        Seq::empty()
    } else {
        let rest = refs_for(ids.drop_first(), records);
        match find_record(records, ids[0]) {
            Some(i) => seq![ref_of(records[i])] + rest,
            None => rest,
        }
    }
}

/// The position of the first record with identifier `id`.
pub open spec fn find_record(records: Seq<TokenModel>, id: Seq<char>) -> Option<int>
    decreases records.len(),
{
    if records.len() == 0 {
        None
    } else if records[0].id == id {
        Some(0)
    } else {
        match find_record(records.drop_first(), id) {
            Some(i) => Some(i + 1),
            None => None,
        }
    }
}

proof fn lemma_find_record(records: Seq<TokenModel>, id: Seq<char>, i: int)
    requires
        0 <= i <= records.len(),
        forall|q: int| 0 <= q < i ==> #[trigger] records[q].id != id,
    ensures
        i < records.len() && records[i].id == id ==> find_record(records, id) == Some(i),
        i == records.len() ==> find_record(records, id) is None,
    decreases i,
{
    if i > 0 {
        assert forall|q: int| 0 <= q < i - 1 implies #[trigger] records.drop_first()[q].id != id by {
            assert(records.drop_first()[q] == records[q + 1]);
        }
        lemma_find_record(records.drop_first(), id, i - 1);
    }
}

/// The `n` most recent identifiers of `window` (oldest first), most recent first.
pub open spec fn recent(window: Seq<Seq<char>>, n: nat) -> Seq<Seq<char>> {
    let r = window.reverse();
    if n < r.len() {
        r.take(n as int)
    } else {
        r
    }
}

/// Every identifier of `window` names one of `tokens`.
pub open spec fn window_named(tokens: Seq<SentienceToken>, window: Seq<String>) -> bool {
    forall|q: int|
        0 <= q < window.len() ==> tokens.map_values(|t: SentienceToken| t.id@).contains(
            #[trigger] window[q]@,
        )
}

proof fn lemma_window_push(tokens: Seq<SentienceToken>, window: Seq<String>, t: SentienceToken, w: String)
    requires
        window_named(tokens, window),
        t.id@ == w@,
    ensures
        window_named(tokens.push(t), window.push(w)),
{
    let (nt, nw) = (tokens.push(t), window.push(w));
    let ids = tokens.map_values(|t: SentienceToken| t.id@);
    let nids = nt.map_values(|t: SentienceToken| t.id@);
    assert(nids =~= ids.push(t.id@));
    assert forall|q: int| 0 <= q < nw.len() implies nids.contains(#[trigger] nw[q]@) by {
        if q == window.len() {
            assert(nids[tokens.len() as int] == nw[q]@);
        } else {
            assert(nw[q] == window[q]);
            assert(ids.contains(window[q]@));
            let j = choose|j: int| 0 <= j < ids.len() && ids[j] == window[q]@;
            assert(nids[j] == ids[j]);
        }
    }
}

proof fn lemma_window_drop_first(tokens: Seq<SentienceToken>, window: Seq<String>)
    requires
        window_named(tokens, window),
        window.len() > 0,
    ensures
        window_named(tokens, window.drop_first()),
{
    let nw = window.drop_first();
    assert forall|q: int| 0 <= q < nw.len() implies tokens.map_values(
        |t: SentienceToken| t.id@,
    ).contains(#[trigger] nw[q]@) by {
        assert(nw[q] == window[q + 1]);
    }
}

/// The reference store: every record in a list, their identifiers in a
/// bounded recency window.
pub struct InMemoryCortex {
    tokens: Vec<SentienceToken>,
    edges: Vec<Edge>,
    stm_window: Vec<String>,
    max_stm_size: usize,
}

impl InMemoryCortex {
    /// Record identifiers are distinct, relation identifiers are distinct,
    /// and the window names stored records only.
    #[verifier::type_invariant]
    spec fn consistent(&self) -> bool {
        &&& forall|i: int, j: int|
            0 <= i < j < self.tokens@.len() ==> (#[trigger] self.tokens@[i]).id@
                != (#[trigger] self.tokens@[j]).id@
        &&& forall|i: int, j: int|
            0 <= i < j < self.edges@.len() ==> (#[trigger] self.edges@[i]).id@
                != (#[trigger] self.edges@[j]).id@
        &&& window_named(self.tokens@, self.stm_window@)
    }

    pub closed spec fn records(&self) -> Seq<TokenModel> {
        self.tokens@.map_values(|t: SentienceToken| t@)
    }

    pub closed spec fn relations(&self) -> Seq<EdgeModel> {
        self.edges@.map_values(|e: Edge| e@)
    }

    /// Identifiers of the recently committed records, oldest first.
    pub closed spec fn recency(&self) -> Seq<Seq<char>> {
        strings_model(self.stm_window@)
    }

    pub closed spec fn capacity(&self) -> nat {
        self.max_stm_size as nat
    }

    /// An empty store whose window keeps `max_stm_size` records.
    pub fn new(max_stm_size: usize) -> (r: Self)
        ensures
            r.records().len() == 0,
            r.relations().len() == 0,
            r.recency().len() == 0,
            r.capacity() == max_stm_size,
    {
        let r = InMemoryCortex {
            tokens: Vec::new(),
            edges: Vec::new(),
            stm_window: Vec::new(),
            max_stm_size,
        };
        proof {
            assert(r.records() =~= Seq::<TokenModel>::empty());
            assert(r.relations() =~= Seq::<EdgeModel>::empty());
            assert(r.recency() =~= Seq::<Seq<char>>::empty());
        }
        r
    }

    fn position(&self, id: &str) -> (r: Option<usize>)
        ensures
            r matches Some(i) ==> find_record(self.records(), id@) == Some(i as int) && i
                < self.records().len() && self.records()[i as int].id == id@,
            r is None ==> find_record(self.records(), id@) is None,
            r is None ==> forall|q: int| 0 <= q < self.records().len() ==> #[trigger] self.records()[q].id != id@,
    {
        let ghost recs = self.records();
        let mut i: usize = 0;
        while i < self.tokens.len()
            invariant
                i <= self.tokens@.len(),
                recs == self.records(),
                recs.len() == self.tokens@.len(),
                forall|q: int| 0 <= q < i ==> #[trigger] recs[q].id != id@,
            decreases self.tokens@.len() - i,
        {
            if same_str(self.tokens[i].id.as_str(), id) {
                proof {
                    lemma_find_record(recs, id@, i as int);
                }
                return Some(i);
            }
            i = i + 1;
        }
        proof {
            lemma_find_record(recs, id@, i as int);
        }
        None
    }
}

/// The content of the reference store.
pub struct CortexModel {
    pub records: Seq<TokenModel>,
    pub relations: Seq<EdgeModel>,
    pub recency: Seq<Seq<char>>,
    pub capacity: nat,
}

/// The reference store's content after a commit: the record is added under
/// its node's identifier unless one is stored under it already (then the
/// records and the window stay as they are), and the relations whose
/// identifiers are new are appended.
pub open spec fn reference_commit(m: CortexModel, token: TokenModel, edges: Seq<EdgeModel>) -> CortexModel {
    let id = record_id(token.ast);
    let relations = added_edges(m.relations, edges);
    if find_record(m.records, id) is Some {
        CortexModel { relations, ..m }
    } else {
        CortexModel {
            records: m.records.push(with_id(token, id)),
            relations,
            recency: pushed_window(m.recency, id, m.capacity),
            capacity: m.capacity,
        }
    }
}

impl Cortex for InMemoryCortex {
    type Model = CortexModel;

    open spec fn model(&self) -> CortexModel {
        CortexModel {
            records: self.records(),
            relations: self.relations(),
            recency: self.recency(),
            capacity: self.capacity(),
        }
    }

    open spec fn after_commit(m: CortexModel, token: TokenModel, edges: Seq<EdgeModel>) -> CortexModel {
        reference_commit(m, token, edges)
    }

    open spec fn may_fail_with(
        m: CortexModel,
        token: TokenModel,
        edges: Seq<EdgeModel>,
        e: Seq<char>,
    ) -> bool {
        false
    }

    open spec fn commits_always() -> bool {
        true
    }

    open spec fn window(&self, n: nat) -> Seq<TokenRefModel> {
        refs_for(recent(self.recency(), n), self.records())
    }

    /// Stores the record under the identifier of its node, unless a record
    /// with that identifier is already stored; then adds the relations whose
    /// identifiers are new.
    fn commit(&mut self, token: &SentienceToken, edges: &[Edge]) -> (r: Result<String, String>)
        ensures
            r == Ok::<String, String>(r->Ok_0),
            r->Ok_0@ == record_id(token@.ast),
            find_record(old(self).records(), record_id(token@.ast)) is Some ==> {
                &&& final(self).records() == old(self).records()
                &&& final(self).recency() == old(self).recency()
            },
            find_record(old(self).records(), record_id(token@.ast)) is None ==> {
                &&& final(self).records() == old(self).records().push(
                    with_id(token@, record_id(token@.ast)),
                )
                &&& final(self).recency() == pushed_window(
                    old(self).recency(),
                    record_id(token@.ast),
                    old(self).capacity(),
                )
            },
            final(self).relations() == added_edges(
                old(self).relations(),
                edges@.map_values(|e: Edge| e@),
            ),
            final(self).capacity() == old(self).capacity(),
    {
        proof {
            use_type_invariant(&*self);
        }
        let id = token_hash(&token.ast);
        let fresh = self.position(id.as_str()).is_none();
        let mut me = InMemoryCortex::new(self.max_stm_size);
        core::mem::swap(self, &mut me);
        let InMemoryCortex { tokens: mut tokens, edges: mut stored_edges, stm_window: mut window, max_stm_size } = me;
        let ghost old_tokens = tokens@;
        let ghost old_window = window@;
        proof {
            assert(old_tokens == old(self).tokens@);
            assert(old_window == old(self).stm_window@);
            assert(window_named(old_tokens, old_window));
        }
        if fresh {
            let mut stored = token.clone();
            stored.id = id.clone();
            tokens.push(stored);
            let idc = id.clone();
            proof {
                assert(tokens@ == old_tokens.push(tokens@.last()));
                lemma_window_push(old_tokens, old_window, tokens@.last(), idc);
            }
            window.push(idc);
            if window.len() > max_stm_size {
                let ghost pushed = window@;
                window.remove(0);
                proof {
                    assert(window@ =~= pushed.drop_first());
                    lemma_window_drop_first(tokens@, pushed);
                }
            }
            proof {
                assert(tokens@.map_values(|t: SentienceToken| t@) =~= old(self).records().push(
                    with_id(token@, id@),
                ));
                assert(strings_model(window@) =~= pushed_window(
                    old(self).recency(),
                    id@,
                    old(self).capacity(),
                ));
            }
        }
        proof {
            if !fresh {
                assert(tokens@ == old(self).tokens@);
                assert(window@ == old(self).stm_window@);
            }
            assert(window_named(tokens@, window@));
        }
        let ghost new_edges = edges@.map_values(|e: Edge| e@);
        let ghost base = stored_edges@.map_values(|e: Edge| e@);
        let ghost t_snap = tokens@;
        let ghost w_snap = window@;
        let mut i: usize = 0;
        while i < edges.len()
            invariant
                tokens@ == t_snap,
                window@ == w_snap,
                window_named(tokens@, window@),
                i <= edges@.len(),
                new_edges == edges@.map_values(|e: Edge| e@),
                stored_edges@.map_values(|e: Edge| e@) == added_edges(base, new_edges.take(i as int)),
                forall|x: int, y: int|
                    0 <= x < y < stored_edges@.len() ==> (#[trigger] stored_edges@[x]).id@
                        != (#[trigger] stored_edges@[y]).id@,
            decreases edges@.len() - i,
        {
            let ghost cur = stored_edges@.map_values(|e: Edge| e@);
            let mut present = false;
            let mut j: usize = 0;
            while j < stored_edges.len()
                invariant
                    j <= stored_edges@.len(),
                    i < edges@.len(),
                    cur == stored_edges@.map_values(|e: Edge| e@),
                    present <==> exists|q: int| 0 <= q < j && #[trigger] cur[q].id == edges@[i as int].id@,
                decreases stored_edges@.len() - j,
            {
                if same_str(stored_edges[j].id.as_str(), edges[i].id.as_str()) {
                    present = true;
                }
                proof {
                    if stored_edges@[j as int].id@ == edges@[i as int].id@ {
                        assert(cur[j as int].id == edges@[i as int].id@);
                    }
                }
                j = j + 1;
            }
            proof {
                assert(new_edges.take(i + 1).drop_last() =~= new_edges.take(i as int));
            }
            if !present {
                let ghost before = stored_edges@;
                stored_edges.push(edges[i].clone());
                proof {
                    assert(stored_edges@.map_values(|e: Edge| e@) =~= cur.push(edges@[i as int]@));
                    assert forall|x: int, y: int|
                        0 <= x < y < stored_edges@.len() implies (#[trigger] stored_edges@[x]).id@
                            != (#[trigger] stored_edges@[y]).id@ by {
                        if y == stored_edges@.len() - 1 {
                            assert(cur[x].id == before[x].id@);
                        }
                    }
                }
            }
            i = i + 1;
        }
        proof {
            assert(new_edges.take(edges@.len() as int) =~= new_edges);
            assert(old_tokens == old(self).tokens@);
            assert(old_window == old(self).stm_window@);
            assert forall|x: int, y: int|
                0 <= x < y < tokens@.len() implies (#[trigger] tokens@[x]).id@ != (
                #[trigger] tokens@[y]).id@ by {
                if fresh && y == tokens@.len() - 1 {
                    assert(old(self).records()[x].id == old_tokens[x].id@);
                } else {
                    assert(tokens@[x] == old_tokens[x]);
                    assert(tokens@[y] == old_tokens[y]);
                }
            }
            if !fresh {
                assert(tokens@ == old_tokens);
                assert(window@ == old_window);
            }
            assert(forall|x: int, y: int|
                0 <= x < y < stored_edges@.len() ==> (#[trigger] stored_edges@[x]).id@
                    != (#[trigger] stored_edges@[y]).id@);
        }
        *self = InMemoryCortex { tokens, edges: stored_edges, stm_window: window, max_stm_size };
        Ok(id)
    }

    /// Exhaustive cosine ranking: repeatedly takes the most similar record
    /// not yet taken, the earliest stored on ties.
    fn recall_similar(&self, vec: &[u16], k: usize) -> (r: Vec<TokenRef>)
        ensures
            exists|idx: Seq<int>| recall_ranking(vec@, k as nat, self.records(), idx, refs_model(r@)),
    {
        let ghost recs = self.records();
        let n = self.tokens.len();
        let qn: u64 = if vec.len() == 256 { dot_of(vec, vec) } else { 0 };
        let mut keys: Vec<Key> = Vec::new();
        let mut m: usize = 0;
        while m < n
            invariant
                m <= n,
                n == self.tokens@.len(),
                recs == self.records(),
                vec@.len() == 256 ==> qn == dot(vec@, vec@, 256),
                keys@.len() == m,
                forall|j: int| 0 <= j < m ==> key_matches(#[trigger] keys@[j], similarity_key(vec@, recs[j].embedding)),
            decreases n - m,
        {
            keys.push(key_of(vec, qn, self.tokens[m].embedding.as_slice()));
            m = m + 1;
        }
        let mut taken: Vec<bool> = Vec::new();
        let mut z: usize = 0;
        while z < n
            invariant
                z <= n,
                taken@ == Seq::new(z as nat, |j: int| false),
            decreases n - z,
        {
            taken.push(false);
            proof {
                assert(taken@ =~= Seq::new((z + 1) as nat, |j: int| false));
            }
            z = z + 1;
        }
        let mut r: Vec<TokenRef> = Vec::new();
        let ghost mut idx: Seq<int> = Seq::empty();
        let ghost sk = |j: int| similarity_key(vec@, recs[j].embedding);
        let mut done = false;
        while r.len() < k && !done
            invariant
                n == self.tokens@.len(),
                recs == self.records(),
                keys@.len() == n,
                taken@.len() == n,
                forall|j: int| 0 <= j < n ==> key_matches(#[trigger] keys@[j], sk(j)),
                sk == (|j: int| similarity_key(vec@, recs[j].embedding)),
                forall|j: int| 0 <= j < n ==> (#[trigger] taken@[j] <==> idx.contains(j)),
                r@.len() <= k,
                recall_ranking(vec@, r@.len() as nat, recs, idx, refs_model(r@)),
                done ==> forall|j: int| 0 <= j < n ==> idx.contains(j),
            decreases k - r@.len() + (if done { 0int } else { 1int }),
        {
            let mut best: usize = n;
            let mut j: usize = 0;
            while j < n
                invariant
                    j <= n,
                    n == self.tokens@.len(),
                    keys@.len() == n,
                    taken@.len() == n,
                    forall|q: int| 0 <= q < n ==> key_matches(#[trigger] keys@[q], sk(q)),
                    best <= n,
                    best == n ==> forall|q: int| 0 <= q < j ==> #[trigger] taken@[q],
                    best < n ==> best < j && !taken@[best as int],
                    best < n ==> forall|q: int|
                        0 <= q < j && !taken@[q] ==> #[trigger] at_least_as_similar(sk(best as int), sk(q)),
                decreases n - j,
            {
                if !taken[j] {
                    if best == n {
                        best = j;
                    } else if {
                        proof {
                            assert(key_matches(keys@[best as int], sk(best as int)));
                            assert(key_matches(keys@[j as int], sk(j as int)));
                        }
                        !at_least(&keys[best], &keys[j])
                    } {
                        proof {
                            lemma_similarity_total(sk(best as int), sk(j as int));
                            assert forall|q: int| 0 <= q < j && !taken@[q] implies #[trigger] at_least_as_similar(sk(j as int), sk(q)) by {
                                assert(key_matches(keys@[q], sk(q)));
                                assert(key_matches(keys@[j as int], sk(j as int)));
                                assert(key_matches(keys@[best as int], sk(best as int)));
                                lemma_similarity_transitive(sk(j as int), sk(best as int), sk(q));
                            }
                        }
                        best = j;
                    }
                }
                j = j + 1;
            }
            if best == n {
                done = true;
                proof {
                    assert forall|q: int| 0 <= q < n implies idx.contains(q) by {
                        assert(taken@[q]);
                    }
                }
            } else {
                let ghost taken_before = taken@;
                assert(forall|q: int|
                    0 <= q < n && !taken_before[q] ==> #[trigger] at_least_as_similar(sk(best as int), sk(q)));
                let ghost before = refs_model(r@);
                r.push(TokenRef::of(&self.tokens[best]));
                taken.set(best, true);
                proof {
                    let old_idx = idx;
                    idx = idx.push(best as int);
                    assert(refs_model(r@) =~= before.push(ref_of(recs[best as int])));
                    assert forall|q: int| 0 <= q < n implies (#[trigger] taken@[q] <==> idx.contains(q)) by {
                        if q == best as int {
                            assert(idx[idx.len() - 1] == q);
                        } else if old_idx.contains(q) {
                            let w = choose|w: int| 0 <= w < old_idx.len() && old_idx[w] == q;
                            assert(idx[w] == q);
                        } else {
                            if idx.contains(q) {
                                let w = choose|w: int| 0 <= w < idx.len() && idx[w] == q;
                                assert(w < old_idx.len());
                                assert(old_idx[w] == q);
                            }
                        }
                    }
                    assert forall|i: int, m2: int|
                        0 <= i < idx.len() && 0 <= m2 < recs.len() && !idx.contains(m2) implies at_least_as_similar(
                            similarity_key(vec@, (#[trigger] recs[idx[i]]).embedding),
                            similarity_key(vec@, (#[trigger] recs[m2]).embedding),
                        ) by {
                        assert(!old_idx.contains(m2)) by {
                            if old_idx.contains(m2) {
                                let w = choose|w: int| 0 <= w < old_idx.len() && old_idx[w] == m2;
                                assert(idx[w] == m2);
                            }
                        }
                        assert(!taken_before[m2]);
                        assert(sk(m2) == similarity_key(vec@, recs[m2].embedding));
                        assert(sk(best as int) == similarity_key(vec@, recs[best as int].embedding));
                        if i < old_idx.len() {
                            assert(old_idx[i] == idx[i]);
                        } else {
                            assert(idx[i] == best as int);
                            assert(m2 != best as int) by {
                                assert(idx[idx.len() - 1] == best as int);
                            }
                        }
                    }
                    assert forall|i: int, j2: int| 0 <= i < j2 < idx.len() implies at_least_as_similar(
                        similarity_key(vec@, (#[trigger] recs[idx[i]]).embedding),
                        similarity_key(vec@, (#[trigger] recs[idx[j2]]).embedding),
                    ) by {
                        if j2 == idx.len() - 1 {
                            assert(idx[j2] == best as int);
                            assert(!old_idx.contains(best as int));
                            assert(old_idx[i] == idx[i]);
                        } else {
                            assert(old_idx[i] == idx[i]);
                            assert(old_idx[j2] == idx[j2]);
                        }
                    }
                    assert forall|i: int, j2: int| 0 <= i < j2 < idx.len() implies idx[i] != idx[j2] by {
                        if j2 == idx.len() - 1 {
                            if idx[i] == idx[j2] {
                                assert(old_idx[i] == best as int);
                                assert(old_idx.contains(best as int));
                            }
                        }
                    }
                }
            }
        }
        proof {
            assert(recall_ranking(vec@, k as nat, recs, idx, refs_model(r@)));
        }
        r
    }

    fn stm(&self, n: usize) -> (r: Vec<TokenRef>) {
        let ghost ids = recent(self.recency(), n as nat);
        let ghost recs = self.records();
        let mut r: Vec<TokenRef> = Vec::new();
        let w = self.stm_window.len();
        let mut i: usize = 0;
        proof {
            assert(ids.skip(0) =~= ids);
            assert(refs_model(r@) =~= Seq::<TokenRefModel>::empty());
            assert(Seq::<TokenRefModel>::empty() + refs_for(ids, recs) =~= refs_for(ids, recs));
        }
        while i < w && i < n
            invariant
                w == self.stm_window@.len(),
                i <= w,
                i <= n,
                recs == self.records(),
                recs.len() == self.tokens@.len(),
                ids == recent(self.recency(), n as nat),
                ids.len() == if n < w { n as nat } else { w as nat },
                forall|q: int| 0 <= q < ids.len() ==> #[trigger] ids[q] == self.stm_window@[w - 1 - q]@,
                refs_for(ids, recs) == refs_model(r@) + refs_for(ids.skip(i as int), recs),
            decreases w - i,
        {
            let pos = self.position(self.stm_window[w - 1 - i].as_str());
            let ghost rest = ids.skip(i as int);
            proof {
                assert(rest.drop_first() =~= ids.skip(i + 1));
                assert(rest[0] == ids[i as int]);
            }
            match pos {
                Some(p) => {
                    let t = TokenRef::of(&self.tokens[p]);
                    let ghost before = refs_model(r@);
                    r.push(t);
                    proof {
                        assert(refs_model(r@) =~= before.push(ref_of(recs[p as int])));
                        assert(refs_model(r@) + refs_for(ids.skip(i + 1), recs) =~= before + (seq![
                            ref_of(recs[p as int]),
                        ] + refs_for(ids.skip(i + 1), recs)));
                    }
                },
                None => {},
            }
            i = i + 1;
        }
        proof {
            assert(ids.skip(i as int) =~= Seq::<Seq<char>>::empty());
            assert(refs_model(r@) + Seq::<TokenRefModel>::empty() =~= refs_model(r@));
        }
        r
    }

    fn get_token(&self, id: &str) -> (r: Option<SentienceToken>)
        ensures
            r is None <==> find_record(self.records(), id@) is None,
            r matches Some(t) ==> t@ == self.records()[find_record(self.records(), id@)->0],
    {
        match self.position(id) {
            Some(p) => {
                Some(self.tokens[p].clone())
            },
            None => None,
        }
    }
}

/// The reference evaluator: the same scores whatever the window holds.
pub struct StubRefNet;

/// The reference scores.
pub open spec fn stub_metrics() -> MetricsModel {
    MetricsModel {
        valence: 500,
        smd: 300,
        quality: 700,
        next_action: "consolidate"@,
        action_logits: seq![("consolidate"@, 800i32), ("recall"@, 200i32), ("reframe"@, 100i32)],
    }
}

impl RefNet for StubRefNet {
    open spec fn evaluation(&self, stm: Seq<TokenRefModel>) -> MetricsModel {
        stub_metrics()
    }

    fn evaluate(&self, stm: &[TokenRef]) -> (r: RefMetrics) {
        let mut logits: Vec<(String, i32)> = Vec::new();
        logits.push((String::from_str("consolidate"), 800));
        logits.push((String::from_str("recall"), 200));
        logits.push((String::from_str("reframe"), 100));
        let r = RefMetrics {
            valence: 500,
            smd: 300,
            quality: 700,
            next_action: String::from_str("consolidate"),
            action_logits: logits,
        };
        proof {
            assert(logits_model(r.action_logits@) =~= stub_metrics().action_logits);
        }
        r
    }
}

/// An evaluator configured with the scores it reports, whatever the window
/// holds.
pub struct FixedRefNet {
    pub metrics: RefMetrics,
}

impl RefNet for FixedRefNet {
    open spec fn evaluation(&self, stm: Seq<TokenRefModel>) -> MetricsModel {
        self.metrics@
    }

    fn evaluate(&self, stm: &[TokenRef]) -> (r: RefMetrics) {
        self.metrics.clone()
    }
}

/// The quality, in thousandths, from which the reference gate lets a
/// candidate through.
pub const QUALITY_THRESHOLD: i32 = 600;

/// The reference gate: allows every candidate when the quality reaches the
/// threshold and blocks it otherwise.
pub struct StubSuperego;

impl Superego for StubSuperego {
    open spec fn verdict(&self, token: TokenModel, metrics: MetricsModel) -> VerdictModel {
        if metrics.quality >= QUALITY_THRESHOLD {
            VerdictModel::Allow
        } else {
            VerdictModel::Block("Quality too low"@)
        }
    }

    fn judge(&self, token: &SentienceToken, metrics: &RefMetrics) -> (r: Verdict) {
        if metrics.quality >= QUALITY_THRESHOLD {
            Verdict::Allow
        } else {
            Verdict::Block(String::from_str("Quality too low"))
        }
    }
}

/// A store, an evaluator and a gate, run together.
pub struct Runtime<C, N, S> {
    pub cortex: C,
    pub refnet: N,
    pub superego: S,
}

/// The reference runtime.
pub type SimpleRuntime = Runtime<InMemoryCortex, StubRefNet, StubSuperego>;

impl Runtime<InMemoryCortex, StubRefNet, StubSuperego> {
    /// The reference runtime: an empty store with a window of 64 records.
    pub fn new() -> (r: Self)
        ensures
            r.cortex.records().len() == 0,
            r.cortex.recency().len() == 0,
            r.cortex.capacity() == 64,
    {
        Runtime { cortex: InMemoryCortex::new(64), refnet: StubRefNet, superego: StubSuperego }
    }
}

} // verus!
