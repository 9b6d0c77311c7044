//! The canonical representation of a thought: its kind, an ordered list of
//! fields, children and a source span, plus the runtime records and edges
//! built from it.

use vstd::prelude::*;

use crate::sentience_core::hasher::edge_hash;
use crate::text::same_str;

verus! {

/// The closed set of node categories.
#[derive(Clone, Copy, Debug, PartialEq, Eq, Structural)]
pub enum ThoughtType {
    Percept,
    Reflection,
    Action,
    Plan,
    Goal,
    SelfModel,
    Concept,
    Contradiction,
    Relation,
    Experience,
}

/// The display name of a kind.
pub open spec fn kind_name(t: ThoughtType) -> Seq<char> {
    match t {
        ThoughtType::Percept => "Percept"@,
        ThoughtType::Reflection => "Reflection"@,
        ThoughtType::Action => "Action"@,
        ThoughtType::Plan => "Plan"@,
        ThoughtType::Goal => "Goal"@,
        ThoughtType::SelfModel => "Self"@,
        ThoughtType::Concept => "Concept"@,
        ThoughtType::Contradiction => "Contradiction"@,
        ThoughtType::Relation => "Relation"@,
        ThoughtType::Experience => "Experience"@,
    }
}

impl ThoughtType {
    /// The display name of this kind (`SelfModel` is shown as `Self`).
    pub fn name(&self) -> (r: &'static str)
        ensures
            r@ == kind_name(*self),
    {
        match self {
            ThoughtType::Percept => "Percept",
            ThoughtType::Reflection => "Reflection",
            ThoughtType::Action => "Action",
            ThoughtType::Plan => "Plan",
            ThoughtType::Goal => "Goal",
            ThoughtType::SelfModel => "Self",
            ThoughtType::Concept => "Concept",
            ThoughtType::Contradiction => "Contradiction",
            ThoughtType::Relation => "Relation",
            ThoughtType::Experience => "Experience",
        }
    }

    /// The display name of this kind as an owned string.
    pub fn to_string(&self) -> (r: String)
        ensures
            r@ == kind_name(*self),
    {
        String::from_str(self.name())
    }
}

/// A decimal number `mantissa / 10^scale`.
#[derive(Clone, Copy, Debug, PartialEq, Eq, Structural)]
pub struct Number {
    pub mantissa: i64,
    pub scale: u32,
}

impl Number {
    pub fn new(mantissa: i64, scale: u32) -> (r: Number)
        ensures
            r.mantissa == mantissa,
            r.scale == scale,
    {
        Number { mantissa, scale }
    }

    /// A whole number.
    pub fn integer(n: i64) -> (r: Number)
        ensures
            r.mantissa == n,
            r.scale == 0,
    {
        Number { mantissa: n, scale: 0 }
    }
}

/// A field value.
#[derive(Debug)]
pub enum Value {
    Str(String),
    Num(Number),
    Bool(bool),
    /// A dotted path such as `percept.text`, one segment per element.
    Path(Vec<String>),
    List(Vec<Value>),
    /// Key/value pairs; keys need not be unique before canonicalization.
    Dict(Vec<(String, Value)>),
}

/// A keyed field of a node.
#[derive(Debug)]
pub struct Field {
    pub key: String,
    pub value: Value,
}

/// Where a node came from in its source text. Never part of its identity.
#[derive(Clone, Copy, Debug, PartialEq, Eq, Structural)]
pub struct Span {
    pub line: usize,
    pub col: usize,
    pub end_line: usize,
    pub end_col: usize,
}

/// A node of the thought AST.
#[derive(Debug)]
pub struct SentienceTokenAst {
    pub ttype: ThoughtType,
    pub fields: Vec<Field>,
    pub children: Vec<SentienceTokenAst>,
    pub span: Span,
}

/// The mathematical model of a [`Value`].
pub enum ValueModel {
    Str(Seq<char>),
    Num(Number),
    Bool(bool),
    Path(Seq<Seq<char>>),
    List(Seq<ValueModel>),
    Dict(Seq<(Seq<char>, ValueModel)>),
}

/// The mathematical model of a [`Field`].
pub struct FieldModel {
    pub key: Seq<char>,
    pub value: ValueModel,
}

/// The mathematical model of a [`SentienceTokenAst`].
pub struct AstModel {
    pub ttype: ThoughtType,
    pub fields: Seq<FieldModel>,
    pub children: Seq<AstModel>,
    pub span: Span,
}

pub open spec fn strings_model(s: Seq<String>) -> Seq<Seq<char>> {
    s.map_values(|x: String| x@)
}

pub open spec fn value_model(v: Value) -> ValueModel
    decreases v,
{
    match v {
        Value::Str(s) => ValueModel::Str(s@),
        Value::Num(n) => ValueModel::Num(n),
        Value::Bool(b) => ValueModel::Bool(b),
        Value::Path(p) => ValueModel::Path(strings_model(p@)),
        Value::List(l) => ValueModel::List(values_model(l@)),
        Value::Dict(m) => ValueModel::Dict(pairs_model(m@)),
    }
}

pub open spec fn values_model(s: Seq<Value>) -> Seq<ValueModel>
    decreases s,
{
    if s.len() == 0 {
        Seq::empty()
    } else {
        values_model(s.drop_last()).push(value_model(s.last()))
    }
}

pub open spec fn pairs_model(s: Seq<(String, Value)>) -> Seq<(Seq<char>, ValueModel)>
    decreases s,
{
    if s.len() == 0 {
        Seq::empty()
    } else {
        pairs_model(s.drop_last()).push((s.last().0@, value_model(s.last().1)))
    }
}

pub open spec fn field_model(f: Field) -> FieldModel {
    FieldModel { key: f.key@, value: value_model(f.value) }
}

pub open spec fn fields_model(s: Seq<Field>) -> Seq<FieldModel> {
    s.map_values(|f: Field| field_model(f))
}

pub open spec fn ast_model(a: SentienceTokenAst) -> AstModel
    decreases a,
{
    AstModel {
        ttype: a.ttype,
        fields: fields_model(a.fields@),
        children: asts_model(a.children@),
        span: a.span,
    }
}

pub open spec fn asts_model(s: Seq<SentienceTokenAst>) -> Seq<AstModel>
    decreases s,
{
    if s.len() == 0 {
        Seq::empty()
    } else {
        asts_model(s.drop_last()).push(ast_model(s.last()))
    }
}

impl View for Value {
    type V = ValueModel;

    open spec fn view(&self) -> ValueModel {
        value_model(*self)
    }
}

impl View for Field {
    type V = FieldModel;

    open spec fn view(&self) -> FieldModel {
        field_model(*self)
    }
}

impl View for SentienceTokenAst {
    type V = AstModel;

    open spec fn view(&self) -> AstModel {
        ast_model(*self)
    }
}

pub proof fn lemma_values_model(s: Seq<Value>)
    ensures
        values_model(s).len() == s.len(),
        forall|i: int| 0 <= i < s.len() ==> #[trigger] values_model(s)[i] == value_model(s[i]),
    decreases s.len(),
{
    if s.len() > 0 {
        lemma_values_model(s.drop_last());
    }
}

pub proof fn lemma_pairs_model(s: Seq<(String, Value)>)
    ensures
        pairs_model(s).len() == s.len(),
        forall|i: int|
            0 <= i < s.len() ==> #[trigger] pairs_model(s)[i] == (s[i].0@, value_model(s[i].1)),
    decreases s.len(),
{
    if s.len() > 0 {
        lemma_pairs_model(s.drop_last());
    }
}

pub proof fn lemma_asts_model(s: Seq<SentienceTokenAst>)
    ensures
        asts_model(s).len() == s.len(),
        forall|i: int| 0 <= i < s.len() ==> #[trigger] asts_model(s)[i] == ast_model(s[i]),
    decreases s.len(),
{
    if s.len() > 0 {
        lemma_asts_model(s.drop_last());
    }
}

pub(crate) fn clone_strings(v: &Vec<String>) -> (r: Vec<String>)
    ensures
        r@ == v@,
{
    let mut r: Vec<String> = Vec::new();
    let mut i: usize = 0;
    while i < v.len()
        invariant
            i <= v@.len(),
            r@ == v@.take(i as int),
        decreases v@.len() - i,
    {
        r.push(v[i].clone());
        proof {
            assert(v@.take(i + 1) =~= v@.take(i as int).push(v@[i as int]));
        }
        i = i + 1;
    }
    proof {
        assert(v@.take(v@.len() as int) =~= v@);
    }
    r
}

fn copy_value(v: &Value) -> (r: Value)
    ensures
        r@ == v@,
    decreases v,
{
        match v {
            Value::Str(s) => Value::Str(s.clone()),
            Value::Num(n) => Value::Num(*n),
            Value::Bool(b) => Value::Bool(*b),
            Value::Path(p) => Value::Path(clone_strings(p)),
            Value::List(l) => {
                let mut r: Vec<Value> = Vec::new();
                let mut i: usize = 0;
                while i < l.len()
                    invariant
                        *v == Value::List(*l),
                        i <= l@.len(),
                        r@.len() == i,
                        forall|j: int| 0 <= j < i ==> #[trigger] value_model(r@[j]) == value_model(l@[j]),
                    decreases l@.len() - i,
                {
                    proof {
                        let ghost w = *v;
                        assert(decreases_to!(w => w->List_0));
                        vstd::std_specs::vec::axiom_vec_index_decreases(w->List_0, i as int);
                    }
                    let c = copy_value(&l[i]);
                    r.push(c);
                    i = i + 1;
                }
                proof {
                    lemma_values_model(r@);
                    lemma_values_model(l@);
                    assert(values_model(r@) =~= values_model(l@));
                }
                Value::List(r)
            },
            Value::Dict(m) => {
                let mut r: Vec<(String, Value)> = Vec::new();
                let mut i: usize = 0;
                while i < m.len()
                    invariant
                        *v == Value::Dict(*m),
                        i <= m@.len(),
                        r@.len() == i,
                        forall|j: int|
                            0 <= j < i ==> #[trigger] r@[j].0@ == m@[j].0@ && value_model(r@[j].1)
                                == value_model(m@[j].1),
                    decreases m@.len() - i,
                {
                    proof {
                        let ghost w = *v;
                        assert(decreases_to!(w => w->Dict_0));
                        vstd::std_specs::vec::axiom_vec_index_decreases(w->Dict_0, i as int);
                    }
                    let c = copy_value(&m[i].1);
                    r.push((m[i].0.clone(), c));
                    i = i + 1;
                }
                proof {
                    lemma_pairs_model(r@);
                    lemma_pairs_model(m@);
                    assert(pairs_model(r@) =~= pairs_model(m@));
                }
                Value::Dict(r)
            },
        }
    }

impl Clone for Value {
    fn clone(&self) -> (r: Self)
        ensures
            r@ == self@,
    {
        copy_value(self)
    }
}

impl Clone for Field {
    fn clone(&self) -> (r: Self)
        ensures
            r@ == self@,
    {
        Field { key: self.key.clone(), value: self.value.clone() }
    }
}

impl Clone for SentienceTokenAst {
    fn clone(&self) -> (r: Self)
        ensures
            r@ == self@,
        decreases self,
    {
        let mut fields: Vec<Field> = Vec::new();
        let mut i: usize = 0;
        while i < self.fields.len()
            invariant
                i <= self.fields@.len(),
                fields@.len() == i,
                forall|j: int| 0 <= j < i ==> #[trigger] field_model(fields@[j]) == field_model(self.fields@[j]),
            decreases self.fields@.len() - i,
        {
            fields.push(self.fields[i].clone());
            i = i + 1;
        }
        let mut children: Vec<SentienceTokenAst> = Vec::new();
        let mut j: usize = 0;
        while j < self.children.len()
            invariant
                j <= self.children@.len(),
                children@.len() == j,
                forall|k: int| 0 <= k < j ==> #[trigger] ast_model(children@[k]) == ast_model(self.children@[k]),
            decreases self.children@.len() - j,
        {
            children.push(self.children[j].clone());
            j = j + 1;
        }
        proof {
            assert(fields_model(fields@) =~= fields_model(self.fields@));
            lemma_asts_model(children@);
            lemma_asts_model(self.children@);
            assert(asts_model(children@) =~= asts_model(self.children@));
        }
        SentienceTokenAst { ttype: self.ttype, fields, children, span: self.span }
    }
}

/// The value of the first field named `key`, if any.
pub open spec fn lookup_field(fields: Seq<FieldModel>, key: Seq<char>) -> Option<ValueModel>
    decreases fields.len(),
{
    if fields.len() == 0 {
        None
    } else if fields[0].key == key {
        Some(fields[0].value)
    } else {
        lookup_field(fields.drop_first(), key)
    }
}

/// The string held by the first field named `key`, if that field holds one.
pub open spec fn lookup_str(fields: Seq<FieldModel>, key: Seq<char>) -> Option<Seq<char>> {
    match lookup_field(fields, key) {
        Some(ValueModel::Str(s)) => Some(s),
        _ => None,
    }
}

impl SentienceTokenAst {
    pub fn new(ttype: ThoughtType, span: Span) -> (r: Self)
        ensures
            r.ttype == ttype,
            r.fields@.len() == 0,
            r.children@.len() == 0,
            r.span == span,
    {
        SentienceTokenAst { ttype, fields: Vec::new(), children: Vec::new(), span }
    }

    /// Appends a field.
    pub fn with_field(self, key: String, value: Value) -> (r: Self)
        ensures
            r.fields@ == self.fields@.push(Field { key, value }),
            r.ttype == self.ttype,
            r.children == self.children,
            r.span == self.span,
    {
        let mut s = self;
        s.fields.push(Field { key, value });
        s
    }

    /// Appends a child.
    pub fn with_child(self, child: SentienceTokenAst) -> (r: Self)
        ensures
            r.children@ == self.children@.push(child),
            r.ttype == self.ttype,
            r.fields == self.fields,
            r.span == self.span,
    {
        let mut s = self;
        s.children.push(child);
        s
    }

    /// The value of the first field named `key`.
    pub fn get_field(&self, key: &str) -> (r: Option<&Value>)
        ensures
            match r {
                Some(v) => lookup_field(self@.fields, key@) == Some(v@),
                None => lookup_field(self@.fields, key@) is None,
            },
    {
        let ghost fm = fields_model(self.fields@);
        let mut i: usize = 0;
        proof {
            assert(fm.skip(0) =~= fm);
        }
        while i < self.fields.len()
            invariant
                i <= self.fields@.len(),
                fm == fields_model(self.fields@),
                lookup_field(fm, key@) == lookup_field(fm.skip(i as int), key@),
            decreases self.fields@.len() - i,
        {
            proof {
                assert(fm.skip(i as int).drop_first() =~= fm.skip(i + 1));
            }
            if same_str(self.fields[i].key.as_str(), key) {
                return Some(&self.fields[i].value);
            }
            i = i + 1;
        }
        None
    }

    /// The first field named `key`, if it holds a string.
    pub fn get_field_str(&self, key: &str) -> (r: Option<&str>)
        ensures
            match r {
                Some(s) => lookup_str(self@.fields, key@) == Some(s@),
                None => lookup_str(self@.fields, key@) is None,
            },
    {
        match self.get_field(key) {
            Some(Value::Str(s)) => Some(s.as_str()),
            _ => None,
        }
    }

    /// The first field named `key`, if it holds a number.
    pub fn get_field_num(&self, key: &str) -> (r: Option<Number>)
        ensures
            r == match lookup_field(self@.fields, key@) {
                Some(ValueModel::Num(n)) => Some(n),
                _ => None::<Number>,
            },
    {
        match self.get_field(key) {
            Some(Value::Num(n)) => Some(*n),
            _ => None,
        }
    }

    /// The first field named `key`, if it holds a boolean.
    pub fn get_field_bool(&self, key: &str) -> (r: Option<bool>)
        ensures
            r == match lookup_field(self@.fields, key@) {
                Some(ValueModel::Bool(b)) => Some(b),
                _ => None::<bool>,
            },
    {
        match self.get_field(key) {
            Some(Value::Bool(b)) => Some(*b),
            _ => None,
        }
    }
}

impl Field {
    pub fn new(key: String, value: Value) -> (r: Self)
        ensures
            r.key == key,
            r.value == value,
    {
        Field { key, value }
    }
}

impl Span {
    pub fn new(line: usize, col: usize, end_line: usize, end_col: usize) -> (r: Self)
        ensures
            r == (Span { line, col, end_line, end_col }),
    {
        Span { line, col, end_line, end_col }
    }

    /// The span of the single character at `line`, `col`.
    pub fn single_char(line: usize, col: usize) -> (r: Self)
        requires
            col < usize::MAX,
        ensures
            r == (Span { line, col, end_line: line, end_col: (col + 1) as usize }),
    {
        Span { line, col, end_line: line, end_col: col + 1 }
    }
}

/// Where a record came from.
#[derive(Debug)]
pub struct Provenance {
    pub stm_ids: Vec<String>,
    pub refnet_id: String,
    pub rules_applied: Vec<String>,
    pub agent_id: String,
    pub step_id: u64,
    pub timestamp: u64,
}

/// Scores of a record, in thousandths, and its tags.
#[derive(Debug)]
pub struct TokenMeta {
    pub version: String,
    pub strength: i32,
    pub belief: i32,
    pub tags: Vec<String>,
}

/// A memory record: a canonical node with its identifier, fingerprint,
/// provenance and scores.
#[derive(Debug)]
pub struct SentienceToken {
    pub id: String,
    pub ast: SentienceTokenAst,
    pub embedding: Vec<u16>,
    pub provenance: Provenance,
    pub meta: TokenMeta,
}

pub struct ProvenanceModel {
    pub stm_ids: Seq<Seq<char>>,
    pub refnet_id: Seq<char>,
    pub rules_applied: Seq<Seq<char>>,
    pub agent_id: Seq<char>,
    pub step_id: u64,
    pub timestamp: u64,
}

pub struct MetaModel {
    pub version: Seq<char>,
    pub strength: i32,
    pub belief: i32,
    pub tags: Seq<Seq<char>>,
}

pub struct TokenModel {
    pub id: Seq<char>,
    pub ast: AstModel,
    pub embedding: Seq<u16>,
    pub provenance: ProvenanceModel,
    pub meta: MetaModel,
}

impl View for Provenance {
    type V = ProvenanceModel;

    open spec fn view(&self) -> ProvenanceModel {
        ProvenanceModel {
            stm_ids: strings_model(self.stm_ids@),
            refnet_id: self.refnet_id@,
            rules_applied: strings_model(self.rules_applied@),
            agent_id: self.agent_id@,
            step_id: self.step_id,
            timestamp: self.timestamp,
        }
    }
}

impl View for TokenMeta {
    type V = MetaModel;

    open spec fn view(&self) -> MetaModel {
        MetaModel {
            version: self.version@,
            strength: self.strength,
            belief: self.belief,
            tags: strings_model(self.tags@),
        }
    }
}

impl View for SentienceToken {
    type V = TokenModel;

    open spec fn view(&self) -> TokenModel {
        TokenModel {
            id: self.id@,
            ast: self.ast@,
            embedding: self.embedding@,
            provenance: self.provenance@,
            meta: self.meta@,
        }
    }
}

pub(crate) fn clone_u16s(v: &Vec<u16>) -> (r: Vec<u16>)
    ensures
        r@ == v@,
{
    let mut r: Vec<u16> = Vec::new();
    let mut i: usize = 0;
    while i < v.len()
        invariant
            i <= v@.len(),
            r@ == v@.take(i as int),
        decreases v@.len() - i,
    {
        r.push(v[i]);
        proof {
            assert(v@.take(i + 1) =~= v@.take(i as int).push(v@[i as int]));
        }
        i = i + 1;
    }
    proof {
        assert(v@.take(v@.len() as int) =~= v@);
    }
    r
}

impl Clone for Provenance {
    fn clone(&self) -> (r: Self)
        ensures
            r@ == self@,
    {
        Provenance {
            stm_ids: clone_strings(&self.stm_ids),
            refnet_id: self.refnet_id.clone(),
            rules_applied: clone_strings(&self.rules_applied),
            agent_id: self.agent_id.clone(),
            step_id: self.step_id,
            timestamp: self.timestamp,
        }
    }
}

impl Clone for TokenMeta {
    fn clone(&self) -> (r: Self)
        ensures
            r@ == self@,
    {
        TokenMeta {
            version: self.version.clone(),
            strength: self.strength,
            belief: self.belief,
            tags: clone_strings(&self.tags),
        }
    }
}

impl Clone for SentienceToken {
    fn clone(&self) -> (r: Self)
        ensures
            r@ == self@,
    {
        SentienceToken {
            id: self.id.clone(),
            ast: self.ast.clone(),
            embedding: clone_u16s(&self.embedding),
            provenance: self.provenance.clone(),
            meta: self.meta.clone(),
        }
    }
}

impl SentienceToken {
    pub fn new(
        id: String,
        ast: SentienceTokenAst,
        embedding: Vec<u16>,
        provenance: Provenance,
        meta: TokenMeta,
    ) -> (r: Self)
        ensures
            r@ == (TokenModel {
                id: id@,
                ast: ast@,
                embedding: embedding@,
                provenance: provenance@,
                meta: meta@,
            }),
    {
        SentienceToken { id, ast, embedding, provenance, meta }
    }
}

/// The kinds of relation between records.
#[derive(Clone, Copy, Debug, PartialEq, Eq, Structural)]
pub enum EdgeType {
    About,
    Causes,
    Supports,
    Contradicts,
    DerivedFrom,
    AboutSelf,
    Temporal,
    Semantic,
    Structure,
}

/// The display name of a relation kind.
pub open spec fn edge_kind_name(t: EdgeType) -> Seq<char> {
    match t {
        EdgeType::About => "ABOUT"@,
        EdgeType::Causes => "CAUSES"@,
        EdgeType::Supports => "SUPPORTS"@,
        EdgeType::Contradicts => "CONTRADICTS"@,
        EdgeType::DerivedFrom => "DERIVED_FROM"@,
        EdgeType::AboutSelf => "ABOUT_SELF"@,
        EdgeType::Temporal => "TEMPORAL"@,
        EdgeType::Semantic => "SEMANTIC"@,
        EdgeType::Structure => "STRUCTURAL"@,
    }
}

impl EdgeType {
    /// The display name of this kind, such as `DERIVED_FROM`.
    pub fn name(&self) -> (r: &'static str)
        ensures
            r@ == edge_kind_name(*self),
    {
        match self {
            EdgeType::About => "ABOUT",
            EdgeType::Causes => "CAUSES",
            EdgeType::Supports => "SUPPORTS",
            EdgeType::Contradicts => "CONTRADICTS",
            EdgeType::DerivedFrom => "DERIVED_FROM",
            EdgeType::AboutSelf => "ABOUT_SELF",
            EdgeType::Temporal => "TEMPORAL",
            EdgeType::Semantic => "SEMANTIC",
            EdgeType::Structure => "STRUCTURAL",
        }
    }

    /// The display name of this kind as an owned string.
    pub fn to_string(&self) -> (r: String)
        ensures
            r@ == edge_kind_name(*self),
    {
        String::from_str(self.name())
    }
}

/// A directed, typed, weighted relation between two records. The weight is
/// in thousandths.
#[derive(Debug)]
pub struct Edge {
    pub id: String,
    pub source_id: String,
    pub target_id: String,
    pub edge_type: EdgeType,
    pub weight: i32,
    pub timestamp: u64,
}

pub struct EdgeModel {
    pub id: Seq<char>,
    pub source_id: Seq<char>,
    pub target_id: Seq<char>,
    pub edge_type: EdgeType,
    pub weight: i32,
    pub timestamp: u64,
}

impl View for Edge {
    type V = EdgeModel;

    open spec fn view(&self) -> EdgeModel {
        EdgeModel {
            id: self.id@,
            source_id: self.source_id@,
            target_id: self.target_id@,
            edge_type: self.edge_type,
            weight: self.weight,
            timestamp: self.timestamp,
        }
    }
}

impl Clone for Edge {
    fn clone(&self) -> (r: Self)
        ensures
            r@ == self@,
    {
        Edge {
            id: self.id.clone(),
            source_id: self.source_id.clone(),
            target_id: self.target_id.clone(),
            edge_type: self.edge_type,
            weight: self.weight,
            timestamp: self.timestamp,
        }
    }
}

/// The relation from `source` to `target` of kind `kind`, with its
/// identifier derived from the three.
pub open spec fn edge_model(
    source: Seq<char>,
    target: Seq<char>,
    kind: EdgeType,
    weight: i32,
    timestamp: u64,
) -> EdgeModel {
    EdgeModel {
        id: crate::sentience_core::hasher::edge_id(source, edge_kind_name(kind), target),
        source_id: source,
        target_id: target,
        edge_type: kind,
        weight,
        timestamp,
    }
}

impl Edge {
    pub fn new(
        source_id: String,
        target_id: String,
        edge_type: EdgeType,
        weight: i32,
        timestamp: u64,
    ) -> (r: Self)
        ensures
            r@ == edge_model(source_id@, target_id@, edge_type, weight, timestamp),
    {
        let id = edge_hash(source_id.as_str(), edge_type.name(), target_id.as_str());
        Edge { id, source_id, target_id, edge_type, weight, timestamp }
    }
}

} // verus!
