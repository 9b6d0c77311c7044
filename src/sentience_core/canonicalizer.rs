//! Canonical form: fields collapsed to one entry per key and sorted by key,
//! strings NFC-normalized with escapes resolved and outer white space trimmed,
//! numbers without trailing fractional zeros. Children and nested values are
//! canonicalized bottom-up.

use vstd::prelude::*;

use unicode_normalization::UnicodeNormalization;

use crate::sentience_core::ast::{
    ast_model, asts_model, field_model, fields_model, lemma_asts_model, lemma_pairs_model,
    lemma_values_model, pairs_model, strings_model, value_model, values_model, AstModel, Field,
    FieldModel, Number, SentienceTokenAst, Value, ValueModel,
};
use crate::text::{
    chars_less, chars_of, lemma_seq_less_asymmetric, lemma_seq_less_irreflexive,
    lemma_seq_less_total, replace_pair, replace_pair_chars, same_chars, same_str, seq_less,
    string_of, trim, trim_chars,
};

verus! {

/// The NFC normalization of a character sequence.
pub uninterp spec fn nfc_of(s: Seq<char>) -> Seq<char>;

/// Relies on `unicode_normalization::UnicodeNormalization::nfc`: the
/// canonical composition of `s`, which depends on its characters alone.
#[verifier::external_body]
fn nfc(s: &str) -> (r: String)
    ensures
        r@ == nfc_of(s@),
{
    s.nfc().collect()
}

/// Escape resolution, in the fixed order `\n`, `\t`, `\"`, `\\`.
pub open spec fn unescape(s: Seq<char>) -> Seq<char> {
    replace_pair(
        replace_pair(replace_pair(replace_pair(s, '\\', 'n', '\n'), '\\', 't', '\t'), '\\', '"', '"'),
        '\\',
        '\\',
        '\\',
    )
}

/// The canonical form of a string.
pub open spec fn norm_str(s: Seq<char>) -> Seq<char> {
    trim(unescape(nfc_of(s)))
}

/// The canonical form of a number: trailing fractional zeros removed, so that
/// a number with no fractional part becomes a whole number.
pub open spec fn norm_num(n: Number) -> Number
    decreases n.scale,
{
    if n.scale > 0 && n.mantissa % 10 == 0 {
        norm_num(Number { mantissa: (n.mantissa / 10) as i64, scale: (n.scale - 1) as u32 })
    } else {
        n
    }
}

/// A list of key/value pairs kept sorted by key: `(k, v)` replaces the entry
/// for `k` if there is one, and is otherwise placed before the first larger key.
pub open spec fn insert_sorted<V>(s: Seq<(Seq<char>, V)>, k: Seq<char>, v: V) -> Seq<
    (Seq<char>, V),
>
    decreases s.len(),
{
    if s.len() == 0 {
        seq![(k, v)]
    } else if s[0].0 == k {
        seq![(k, v)] + s.drop_first()
    } else if seq_less(k, s[0].0) {
        seq![(k, v)] + s
    } else {
        seq![s[0]] + insert_sorted(s.drop_first(), k, v)
    }
}

pub open spec fn canon_value(v: ValueModel) -> ValueModel
    decreases v,
{
    match v {
        ValueModel::Str(s) => ValueModel::Str(norm_str(s)),
        ValueModel::Num(n) => ValueModel::Num(norm_num(n)),
        ValueModel::Bool(b) => ValueModel::Bool(b),
        ValueModel::Path(p) => ValueModel::Path(p.map_values(|x: Seq<char>| norm_str(x))),
        ValueModel::List(l) => ValueModel::List(canon_values(l)),
        ValueModel::Dict(m) => ValueModel::Dict(canon_dict(m)),
    }
}

pub open spec fn canon_values(s: Seq<ValueModel>) -> Seq<ValueModel>
    decreases s,
{
    if s.len() == 0 {
        Seq::empty()
    } else {
        canon_values(s.drop_last()).push(canon_value(s.last()))
    }
}

/// Inserts the pairs in order, later ones overwriting earlier ones with the
/// same normalized key.
pub open spec fn canon_dict(m: Seq<(Seq<char>, ValueModel)>) -> Seq<(Seq<char>, ValueModel)>
    decreases m,
{
    if m.len() == 0 {
        Seq::empty()
    } else {
        insert_sorted(canon_dict(m.drop_last()), norm_str(m.last().0), canon_value(m.last().1))
    }
}

/// The fields of a node as key-sorted pairs, later fields overwriting earlier
/// ones with the same key.
pub open spec fn canon_field_pairs(f: Seq<FieldModel>) -> Seq<(Seq<char>, ValueModel)>
    decreases f.len(),
{
    if f.len() == 0 {
        Seq::empty()
    } else {
        insert_sorted(
            canon_field_pairs(f.drop_last()),
            f.last().key,
            canon_value(f.last().value),
        )
    }
}

pub open spec fn pairs_to_fields(p: Seq<(Seq<char>, ValueModel)>) -> Seq<FieldModel> {
    p.map_values(|e: (Seq<char>, ValueModel)| FieldModel { key: e.0, value: e.1 })
}

pub open spec fn canon_fields(f: Seq<FieldModel>) -> Seq<FieldModel> {
    pairs_to_fields(canon_field_pairs(f))
}

/// The canonical form of a node.
pub open spec fn canon_ast(a: AstModel) -> AstModel
    decreases a,
{
    AstModel {
        ttype: a.ttype,
        fields: canon_fields(a.fields),
        children: canon_asts(a.children),
        span: a.span,
    }
}

pub open spec fn canon_asts(s: Seq<AstModel>) -> Seq<AstModel>
    decreases s,
{
    if s.len() == 0 {
        Seq::empty()
    } else {
        canon_asts(s.drop_last()).push(canon_ast(s.last()))
    }
}

pub proof fn lemma_canon_values(s: Seq<ValueModel>)
    ensures
        canon_values(s).len() == s.len(),
        forall|i: int| 0 <= i < s.len() ==> #[trigger] canon_values(s)[i] == canon_value(s[i]),
    decreases s.len(),
{
    if s.len() > 0 {
        lemma_canon_values(s.drop_last());
    }
}

pub proof fn lemma_canon_asts(s: Seq<AstModel>)
    ensures
        canon_asts(s).len() == s.len(),
        forall|i: int| 0 <= i < s.len() ==> #[trigger] canon_asts(s)[i] == canon_ast(s[i]),
    decreases s.len(),
{
    if s.len() > 0 {
        lemma_canon_asts(s.drop_last());
    }
}

/// Where `insert_sorted` puts its entry: `i` is the first position whose key
/// is `k` or greater than `k`.
proof fn lemma_insert_sorted_at<V>(s: Seq<(Seq<char>, V)>, k: Seq<char>, v: V, i: int)
    requires
        0 <= i <= s.len(),
        forall|j: int| 0 <= j < i ==> #[trigger] seq_less(s[j].0, k),
        i == s.len() || s[i].0 == k || seq_less(k, s[i].0),
    ensures
        insert_sorted(s, k, v) == if i < s.len() && s[i].0 == k {
            s.take(i) + seq![(k, v)] + s.skip(i + 1)
        } else {
            s.take(i) + seq![(k, v)] + s.skip(i)
        },
    decreases i,
{
    if i == 0 {
        if s.len() > 0 {
            assert(s.take(0) + seq![(k, v)] + s.skip(1) =~= seq![(k, v)] + s.drop_first());
        }
        assert(s.take(0) + seq![(k, v)] + s.skip(0) =~= seq![(k, v)] + s);
    } else {
        lemma_seq_less_irreflexive(k);
        lemma_seq_less_asymmetric(s[0].0, k);
        assert(s[0].0 != k);
        assert(!seq_less(k, s[0].0));
        lemma_insert_sorted_at(s.drop_first(), k, v, i - 1);
        let t = s.drop_first();
        assert(s.take(i) =~= seq![s[0]] + t.take(i - 1));
        assert(s.skip(i) =~= t.skip(i - 1));
        if i < s.len() {
            assert(s.skip(i + 1) =~= t.skip(i));
            assert(seq![s[0]] + (t.take(i - 1) + seq![(k, v)] + t.skip(i)) =~= s.take(i) + seq![
                (k, v),
            ] + s.skip(i + 1));
        }
        assert(seq![s[0]] + (t.take(i - 1) + seq![(k, v)] + t.skip(i - 1)) =~= s.take(i) + seq![
            (k, v),
        ] + s.skip(i));
    }
}

/// Inserts `(k, v)` into a key-sorted list of pairs, replacing the entry for `k`.
fn insert_pair(pairs: &mut Vec<(String, Value)>, k: String, v: Value)
    ensures
        pairs_model(final(pairs)@) == insert_sorted(pairs_model(old(pairs)@), k@, v@),
{
    let ghost m = pairs_model(pairs@);
    proof {
        lemma_pairs_model(pairs@);
    }
    let kc = chars_of(k.as_str());
    let mut i: usize = 0;
    let mut found = false;
    while i < pairs.len() && !found
        invariant
            i <= pairs@.len(),
            m == pairs_model(pairs@),
            m.len() == pairs@.len(),
            forall|j: int| 0 <= j < m.len() ==> #[trigger] m[j] == (pairs@[j].0@, value_model(pairs@[j].1)),
            kc@ == k@,
            forall|j: int| 0 <= j < i ==> #[trigger] seq_less(m[j].0, k@),
            found ==> i < m.len() && (m[i as int].0 == k@ || seq_less(k@, m[i as int].0)),
        decreases pairs@.len() - i + (if found { 0int } else { 1int }),
    {
        let pc = chars_of(pairs[i].0.as_str());
        if same_chars(pc.as_slice(), kc.as_slice()) || chars_less(kc.as_slice(), pc.as_slice()) {
            found = true;
        } else {
            proof {
                lemma_seq_less_total(m[i as int].0, k@);
            }
            i = i + 1;
        }
    }
    proof {
        lemma_insert_sorted_at(m, k@, v@, i as int);
    }
    let ghost kv = (k@, v@);
    if found && same_str(pairs[i].0.as_str(), k.as_str()) {
        pairs.set(i, (k, v));
        proof {
            lemma_pairs_model(pairs@);
            assert(pairs_model(pairs@) =~= m.take(i as int) + seq![kv] + m.skip(i + 1));
        }
    } else {
        pairs.insert(i, (k, v));
        proof {
            lemma_pairs_model(pairs@);
            assert(pairs_model(pairs@) =~= m.take(i as int) + seq![kv] + m.skip(i as int));
        }
    }
}

/// The canonical form of a string: NFC, then escape resolution, then trimming.
pub fn normalize_string(s: &str) -> (r: String)
    ensures
        r@ == norm_str(s@),
{
    let composed = nfc(s);
    unescape_and_trim(composed.as_str())
}

/// Escape resolution, then trimming: what follows the NFC step.
pub fn unescape_and_trim(composed: &str) -> (r: String)
    ensures
        r@ == trim(unescape(composed@)),
{
    let c0 = chars_of(composed);
    let c1 = replace_pair_chars(c0.as_slice(), '\\', 'n', '\n');
    let c2 = replace_pair_chars(c1.as_slice(), '\\', 't', '\t');
    let c3 = replace_pair_chars(c2.as_slice(), '\\', '"', '"');
    let c4 = replace_pair_chars(c3.as_slice(), '\\', '\\', '\\');
    let t = trim_chars(c4.as_slice());
    string_of(t.as_slice())
}

/// The canonical form of a number.
pub fn normalize_number(n: Number) -> (r: Number)
    ensures
        r == norm_num(n),
{
    let mut m = n.mantissa;
    let mut s = n.scale;
    while s > 0 && m % 10 == 0
        invariant
            norm_num(n) == norm_num(Number { mantissa: m, scale: s }),
        decreases s,
    {
        m = m / 10;
        s = s - 1;
    }
    Number { mantissa: m, scale: s }
}

/// The canonical form of a value.
pub fn canonicalize_value(v: &Value) -> (r: Value)
    ensures
        r@ == canon_value(v@),
    decreases v,
{
    match v {
        Value::Str(s) => Value::Str(normalize_string(s.as_str())),
        Value::Num(n) => Value::Num(normalize_number(*n)),
        Value::Bool(b) => Value::Bool(*b),
        Value::Path(p) => {
            let mut r: Vec<String> = Vec::new();
            let mut i: usize = 0;
            while i < p.len()
                invariant
                    i <= p@.len(),
                    r@.len() == i,
                    forall|j: int| 0 <= j < i ==> #[trigger] r@[j]@ == norm_str(p@[j]@),
                decreases p@.len() - i,
            {
                r.push(normalize_string(p[i].as_str()));
                i = i + 1;
            }
            proof {
                assert(strings_model(r@) =~= strings_model(p@).map_values(
                    |x: Seq<char>| norm_str(x),
                ));
            }
            Value::Path(r)
        },
        Value::List(l) => {
            let mut r: Vec<Value> = Vec::new();
            let mut i: usize = 0;
            while i < l.len()
                invariant
                    *v == Value::List(*l),
                    i <= l@.len(),
                    r@.len() == i,
                    forall|j: int|
                        0 <= j < i ==> #[trigger] value_model(r@[j]) == canon_value(
                            value_model(l@[j]),
                        ),
                decreases l@.len() - i,
            {
                proof {
                    let ghost w = *v;
                    assert(decreases_to!(w => w->List_0));
                    vstd::std_specs::vec::axiom_vec_index_decreases(w->List_0, i as int);
                }
                let c = canonicalize_value(&l[i]);
                r.push(c);
                i = i + 1;
            }
            proof {
                lemma_values_model(r@);
                lemma_values_model(l@);
                lemma_canon_values(values_model(l@));
                assert(values_model(r@) =~= canon_values(values_model(l@)));
            }
            Value::List(r)
        },
        Value::Dict(m) => {
            let mut r: Vec<(String, Value)> = Vec::new();
            let mut i: usize = 0;
            proof {
                lemma_pairs_model(m@);
                assert(pairs_model(m@).take(0) =~= Seq::<(Seq<char>, ValueModel)>::empty());
            }
            while i < m.len()
                invariant
                    *v == Value::Dict(*m),
                    i <= m@.len(),
                    pairs_model(m@).len() == m@.len(),
                    forall|j: int|
                        0 <= j < m@.len() ==> #[trigger] pairs_model(m@)[j] == (
                            m@[j].0@,
                            value_model(m@[j].1),
                        ),
                    pairs_model(r@) == canon_dict(pairs_model(m@).take(i as int)),
                decreases m@.len() - i,
            {
                proof {
                    let ghost w = *v;
                    assert(decreases_to!(w => w->Dict_0));
                    vstd::std_specs::vec::axiom_vec_index_decreases(w->Dict_0, i as int);
                }
                let c = canonicalize_value(&m[i].1);
                let k = normalize_string(m[i].0.as_str());
                insert_pair(&mut r, k, c);
                proof {
                    let t = pairs_model(m@).take(i + 1);
                    assert(t.drop_last() =~= pairs_model(m@).take(i as int));
                }
                i = i + 1;
            }
            proof {
                assert(pairs_model(m@).take(m@.len() as int) =~= pairs_model(m@));
            }
            Value::Dict(r)
        },
    }
}

/// The canonical field list: one field per key, sorted by key, the last
/// occurrence of a key winning, each value canonicalized.
pub fn canonicalize_fields(fields: &[Field]) -> (r: Vec<Field>)
    ensures
        fields_model(r@) == canon_fields(fields_model(fields@)),
{
    let ghost fm = fields_model(fields@);
    let mut pairs: Vec<(String, Value)> = Vec::new();
    let mut i: usize = 0;
    proof {
        assert(fm.take(0) =~= Seq::<FieldModel>::empty());
    }
    while i < fields.len()
        invariant
            i <= fields@.len(),
            fm == fields_model(fields@),
            pairs_model(pairs@) == canon_field_pairs(fm.take(i as int)),
        decreases fields@.len() - i,
    {
        let c = canonicalize_value(&fields[i].value);
        insert_pair(&mut pairs, fields[i].key.clone(), c);
        proof {
            assert(fm.take(i + 1).drop_last() =~= fm.take(i as int));
        }
        i = i + 1;
    }
    proof {
        assert(fm.take(fields@.len() as int) =~= fm);
        lemma_pairs_model(pairs@);
    }
    let ghost pm = pairs_model(pairs@);
    let mut r: Vec<Field> = Vec::new();
    let mut j: usize = 0;
    let n = pairs.len();
    let mut rest = pairs;
    while j < n
        invariant
            j <= n,
            n == pm.len(),
            rest@.len() == n - j,
            forall|q: int|
                0 <= q < rest@.len() ==> (#[trigger] rest@[q].0@, value_model(rest@[q].1)) == pm[j
                    + q],
            r@.len() == j,
            forall|q: int|
                0 <= q < j ==> #[trigger] field_model(r@[q]) == (FieldModel {
                    key: pm[q].0,
                    value: pm[q].1,
                }),
        decreases n - j,
    {
        let (k, v) = rest.remove(0);
        r.push(Field { key: k, value: v });
        j = j + 1;
    }
    proof {
        assert(fields_model(r@) =~= pairs_to_fields(pm));
    }
    r
}

/// The canonical form of a node; its children are canonicalized too.
pub fn canonicalize(ast: &SentienceTokenAst) -> (r: SentienceTokenAst)
    ensures
        r@ == canon_ast(ast@),
    decreases ast,
{
    let fields = canonicalize_fields(ast.fields.as_slice());
    let mut children: Vec<SentienceTokenAst> = Vec::new();
    let mut j: usize = 0;
    while j < ast.children.len()
        invariant
            j <= ast.children@.len(),
            children@.len() == j,
            forall|k: int|
                0 <= k < j ==> #[trigger] ast_model(children@[k]) == canon_ast(
                    ast_model(ast.children@[k]),
                ),
        decreases ast.children@.len() - j,
    {
        let c = canonicalize(&ast.children[j]);
        children.push(c);
        j = j + 1;
    }
    proof {
        lemma_asts_model(children@);
        lemma_asts_model(ast.children@);
        lemma_canon_asts(asts_model(ast.children@));
        assert(asts_model(children@) =~= canon_asts(asts_model(ast.children@)));
    }
    SentienceTokenAst { ttype: ast.ttype, fields, children, span: ast.span }
}

} // verus!
