//! Laws of the canonical form: it depends only on the key/value content of a
//! node, the last value of a repeated key wins, trailing fractional zeros do
//! not count, and canonicalizing twice changes nothing.

use vstd::prelude::*;

use crate::sentience_core::ast::{AstModel, FieldModel, Number, ValueModel};
use crate::sentience_core::canonicalizer::{
    canon_ast, canon_asts, canon_dict, canon_field_pairs, canon_fields, canon_value, canon_values,
    insert_sorted, lemma_canon_asts, lemma_canon_values, norm_num, norm_str, pairs_to_fields,
};
use crate::text::{
    lemma_seq_less_asymmetric, lemma_seq_less_irreflexive, lemma_seq_less_total,
    lemma_seq_less_transitive, seq_less,
};

verus! {

/// Keys strictly increasing.
pub open spec fn strictly_sorted<V>(s: Seq<(Seq<char>, V)>) -> bool {
    forall|i: int, j: int| 0 <= i < j < s.len() ==> seq_less(#[trigger] s[i].0, #[trigger] s[j].0)
}

/// The key/value map of a pair list (the first entry of a key wins).
pub open spec fn pair_map<V>(s: Seq<(Seq<char>, V)>) -> Map<Seq<char>, V>
    decreases s.len(),
{
    if s.len() == 0 {
        Map::empty()
    } else {
        pair_map(s.drop_first()).insert(s[0].0, s[0].1)
    }
}

/// Inserting the pairs of `s` in order into an empty sorted list.
pub open spec fn fold_insert<V>(s: Seq<(Seq<char>, V)>) -> Seq<(Seq<char>, V)>
    decreases s.len(),
{
    if s.len() == 0 {
        Seq::empty()
    } else {
        insert_sorted(fold_insert(s.drop_last()), s.last().0, s.last().1)
    }
}

/// The key/value map of raw fields: a later field overwrites an earlier one.
pub open spec fn field_map(f: Seq<FieldModel>) -> Map<Seq<char>, ValueModel>
    decreases f.len(),
{
    if f.len() == 0 {
        Map::empty()
    } else {
        field_map(f.drop_last()).insert(f.last().key, f.last().value)
    }
}

proof fn lemma_insert_sorted_entries<V>(s: Seq<(Seq<char>, V)>, k: Seq<char>, v: V)
    ensures
        forall|e: (Seq<char>, V)| #[trigger]
            insert_sorted(s, k, v).contains(e) ==> e == (k, v) || s.contains(e),
        insert_sorted(s, k, v).contains((k, v)),
    decreases s.len(),
{
    if s.len() > 0 {
        lemma_insert_sorted_entries(s.drop_first(), k, v);
        let r = insert_sorted(s, k, v);
        assert forall|e: (Seq<char>, V)| #[trigger] r.contains(e) implies e == (k, v) || s.contains(
            e,
        ) by {
            let i = choose|i: int| 0 <= i < r.len() && r[i] == e;
            if s[0].0 == k {
                if i > 0 {
                    assert(s[i] == e);
                }
            } else if seq_less(k, s[0].0) {
                if i > 0 {
                    assert(s[i - 1] == e);
                }
            } else {
                if i == 0 {
                    assert(s[0] == e);
                } else {
                    let t = insert_sorted(s.drop_first(), k, v);
                    assert(t[i - 1] == e);
                    assert(t.contains(e));
                    if s.drop_first().contains(e) {
                        let j = choose|j: int| 0 <= j < s.drop_first().len() && s.drop_first()[j] == e;
                        assert(s[j + 1] == e);
                    }
                }
            }
        }
        if s[0].0 == k || seq_less(k, s[0].0) {
            assert(r[0] == (k, v));
        } else {
            let t = insert_sorted(s.drop_first(), k, v);
            let j = choose|j: int| 0 <= j < t.len() && t[j] == (k, v);
            assert(r[j + 1] == (k, v));
        }
    } else {
        assert(insert_sorted(s, k, v)[0] == (k, v));
    }
}

proof fn lemma_insert_sorted_sorted<V>(s: Seq<(Seq<char>, V)>, k: Seq<char>, v: V)
    requires
        strictly_sorted(s),
    ensures
        strictly_sorted(insert_sorted(s, k, v)),
    decreases s.len(),
{
    if s.len() > 0 {
        let r = insert_sorted(s, k, v);
        if s[0].0 == k {
            assert forall|i: int, j: int| 0 <= i < j < r.len() implies seq_less(
                #[trigger] r[i].0,
                #[trigger] r[j].0,
            ) by {
                assert(seq_less(s[i].0, s[j].0));
            }
        } else if seq_less(k, s[0].0) {
            assert forall|i: int, j: int| 0 <= i < j < r.len() implies seq_less(
                #[trigger] r[i].0,
                #[trigger] r[j].0,
            ) by {
                if i == 0 {
                    if j > 1 {
                        assert(seq_less(s[0].0, s[j - 1].0));
                        lemma_seq_less_transitive(k, s[0].0, s[j - 1].0);
                    }
                } else {
                    assert(seq_less(s[i - 1].0, s[j - 1].0));
                }
            }
        } else {
            lemma_seq_less_total(k, s[0].0);
            let t = insert_sorted(s.drop_first(), k, v);
            assert(strictly_sorted(s.drop_first())) by {
                assert forall|i: int, j: int| 0 <= i < j < s.drop_first().len() implies seq_less(
                    #[trigger] s.drop_first()[i].0,
                    #[trigger] s.drop_first()[j].0,
                ) by {
                    assert(seq_less(s[i + 1].0, s[j + 1].0));
                }
            }
            lemma_insert_sorted_sorted(s.drop_first(), k, v);
            lemma_insert_sorted_entries(s.drop_first(), k, v);
            assert forall|i: int, j: int| 0 <= i < j < r.len() implies seq_less(
                #[trigger] r[i].0,
                #[trigger] r[j].0,
            ) by {
                if i == 0 {
                    assert(r[j] == t[j - 1]);
                    assert(t.contains(t[j - 1]));
                    if t[j - 1] != (k, v) {
                        let q = choose|q: int|
                            0 <= q < s.drop_first().len() && s.drop_first()[q] == t[j - 1];
                        assert(seq_less(s[0].0, s[q + 1].0));
                    }
                } else {
                    assert(seq_less(t[i - 1].0, t[j - 1].0));
                }
            }
        }
    }
}

proof fn lemma_insert_sorted_last<V>(s: Seq<(Seq<char>, V)>, k: Seq<char>, v: V)
    requires
        forall|i: int| 0 <= i < s.len() ==> seq_less(#[trigger] s[i].0, k),
    ensures
        insert_sorted(s, k, v) == s.push((k, v)),
    decreases s.len(),
{
    if s.len() > 0 {
        lemma_seq_less_irreflexive(k);
        lemma_seq_less_asymmetric(s[0].0, k);
        assert(s[0].0 != k);
        lemma_insert_sorted_last(s.drop_first(), k, v);
        assert(seq![s[0]] + s.drop_first().push((k, v)) =~= s.push((k, v)));
    } else {
        assert(seq![(k, v)] =~= s.push((k, v)));
    }
}

proof fn lemma_sorted_drop_last<V>(s: Seq<(Seq<char>, V)>)
    requires
        strictly_sorted(s),
        s.len() > 0,
    ensures
        strictly_sorted(s.drop_last()),
{
    assert forall|i: int, j: int| 0 <= i < j < s.drop_last().len() implies seq_less(
        #[trigger] s.drop_last()[i].0,
        #[trigger] s.drop_last()[j].0,
    ) by {
        assert(seq_less(s[i].0, s[j].0));
    }
}

/// Inserting an already sorted list into an empty one gives it back.
proof fn lemma_fold_insert_sorted<V>(s: Seq<(Seq<char>, V)>)
    requires
        strictly_sorted(s),
    ensures
        fold_insert(s) == s,
    decreases s.len(),
{
    if s.len() > 0 {
        lemma_sorted_drop_last(s);
        lemma_fold_insert_sorted(s.drop_last());
        assert forall|i: int| 0 <= i < s.drop_last().len() implies seq_less(
            #[trigger] s.drop_last()[i].0,
            s.last().0,
        ) by {
            assert(seq_less(s[i].0, s[s.len() - 1].0));
        }
        lemma_insert_sorted_last(s.drop_last(), s.last().0, s.last().1);
        assert(s.drop_last().push(s.last()) =~= s);
    } else {
        assert(s =~= Seq::<(Seq<char>, V)>::empty());
    }
}

proof fn lemma_fold_insert_props<V>(s: Seq<(Seq<char>, V)>)
    ensures
        strictly_sorted(fold_insert(s)),
        forall|e: (Seq<char>, V)| #[trigger] fold_insert(s).contains(e) ==> s.contains(e),
    decreases s.len(),
{
    if s.len() > 0 {
        lemma_fold_insert_props(s.drop_last());
        lemma_insert_sorted_sorted(fold_insert(s.drop_last()), s.last().0, s.last().1);
        lemma_insert_sorted_entries(fold_insert(s.drop_last()), s.last().0, s.last().1);
        assert forall|e: (Seq<char>, V)| #[trigger] fold_insert(s).contains(e) implies s.contains(
            e,
        ) by {
            if e != s.last() {
                assert(fold_insert(s.drop_last()).contains(e));
                assert(s.drop_last().contains(e));
                let j = choose|j: int| 0 <= j < s.drop_last().len() && s.drop_last()[j] == e;
                assert(s[j] == e);
            } else {
                assert(s[s.len() - 1] == e);
            }
        }
    }
}

/// The canonical pairs of a dictionary, as a fold over its normalized entries.
pub open spec fn normalized_entries(m: Seq<(Seq<char>, ValueModel)>) -> Seq<(Seq<char>, ValueModel)> {
    m.map_values(|e: (Seq<char>, ValueModel)| (norm_str(e.0), canon_value(e.1)))
}

pub open spec fn canonical_entries(f: Seq<FieldModel>) -> Seq<(Seq<char>, ValueModel)> {
    f.map_values(|e: FieldModel| (e.key, canon_value(e.value)))
}

proof fn lemma_canon_dict_fold(m: Seq<(Seq<char>, ValueModel)>)
    ensures
        canon_dict(m) == fold_insert(normalized_entries(m)),
    decreases m.len(),
{
    if m.len() > 0 {
        lemma_canon_dict_fold(m.drop_last());
        assert(normalized_entries(m).drop_last() =~= normalized_entries(m.drop_last()));
    } else {
        assert(normalized_entries(m) =~= Seq::<(Seq<char>, ValueModel)>::empty());
    }
}

proof fn lemma_canon_field_pairs_fold(f: Seq<FieldModel>)
    ensures
        canon_field_pairs(f) == fold_insert(canonical_entries(f)),
    decreases f.len(),
{
    if f.len() > 0 {
        lemma_canon_field_pairs_fold(f.drop_last());
        assert(canonical_entries(f).drop_last() =~= canonical_entries(f.drop_last()));
    } else {
        assert(canonical_entries(f) =~= Seq::<(Seq<char>, ValueModel)>::empty());
    }
}

/// A string whose normal form is already normal.
pub open spec fn stable_str(s: Seq<char>) -> bool {
    norm_str(norm_str(s)) == norm_str(s)
}

/// Every string in the value (text, path segments, dictionary keys, nested
/// values) has a normal form that normalizes to itself.
pub open spec fn stable_value(v: ValueModel) -> bool
    decreases v,
{
    match v {
        ValueModel::Str(s) => stable_str(s),
        ValueModel::Path(p) => forall|i: int| 0 <= i < p.len() ==> stable_str(#[trigger] p[i]),
        ValueModel::List(l) => stable_values(l),
        ValueModel::Dict(m) => stable_entries(m),
        _ => true,
    }
}

pub open spec fn stable_values(s: Seq<ValueModel>) -> bool
    decreases s,
{
    s.len() > 0 ==> stable_values(s.drop_last()) && stable_value(s.last())
}

pub open spec fn stable_entries(m: Seq<(Seq<char>, ValueModel)>) -> bool
    decreases m,
{
    m.len() > 0 ==> stable_entries(m.drop_last()) && stable_str(m.last().0) && stable_value(
        m.last().1,
    )
}

/// Every field value of the node and of its descendants is stable.
pub open spec fn stable_ast(a: AstModel) -> bool
    decreases a,
{
    &&& forall|i: int| 0 <= i < a.fields.len() ==> stable_value(#[trigger] a.fields[i].value)
    &&& stable_asts(a.children)
}

pub open spec fn stable_asts(s: Seq<AstModel>) -> bool
    decreases s,
{
    s.len() > 0 ==> stable_asts(s.drop_last()) && stable_ast(s.last())
}

proof fn lemma_stable_values_index(s: Seq<ValueModel>, i: int)
    requires
        stable_values(s),
        0 <= i < s.len(),
    ensures
        stable_value(s[i]),
    decreases s.len(),
{
    if i < s.len() - 1 {
        lemma_stable_values_index(s.drop_last(), i);
    }
}

proof fn lemma_stable_entries_index(m: Seq<(Seq<char>, ValueModel)>, i: int)
    requires
        stable_entries(m),
        0 <= i < m.len(),
    ensures
        stable_str(m[i].0),
        stable_value(m[i].1),
    decreases m.len(),
{
    if i < m.len() - 1 {
        lemma_stable_entries_index(m.drop_last(), i);
    }
}

proof fn lemma_stable_asts_index(s: Seq<AstModel>, i: int)
    requires
        stable_asts(s),
        0 <= i < s.len(),
    ensures
        stable_ast(s[i]),
    decreases s.len(),
{
    if i < s.len() - 1 {
        lemma_stable_asts_index(s.drop_last(), i);
    }
}

proof fn lemma_norm_num_idempotent(n: Number)
    ensures
        norm_num(norm_num(n)) == norm_num(n),
    decreases n.scale,
{
    if n.scale > 0 && n.mantissa % 10 == 0 {
        lemma_norm_num_idempotent(
            Number { mantissa: (n.mantissa / 10) as i64, scale: (n.scale - 1) as u32 },
        );
    }
}

proof fn lemma_canon_value_idempotent(v: ValueModel)
    requires
        stable_value(v),
    ensures
        canon_value(canon_value(v)) == canon_value(v),
    decreases v,
{
    match v {
        ValueModel::Num(n) => {
            lemma_norm_num_idempotent(n);
        },
        ValueModel::Path(p) => {
            let q = p.map_values(|x: Seq<char>| norm_str(x));
            assert(q.map_values(|x: Seq<char>| norm_str(x)) =~= q);
        },
        ValueModel::List(l) => {
            let c = canon_values(l);
            lemma_canon_values(l);
            lemma_canon_values(c);
            assert forall|i: int| 0 <= i < l.len() implies canon_value(#[trigger] c[i]) == c[i] by {
                lemma_stable_values_index(l, i);
                lemma_canon_value_idempotent(l[i]);
            }
            assert(canon_values(c) =~= c);
        },
        ValueModel::Dict(m) => {
            let c = canon_dict(m);
            lemma_canon_dict_fold(m);
            lemma_canon_dict_fold(c);
            lemma_fold_insert_props(normalized_entries(m));
            assert forall|i: int| 0 <= i < c.len() implies (norm_str(#[trigger] c[i].0), canon_value(
                c[i].1,
            )) == c[i] by {
                assert(c.contains(c[i]));
                assert(normalized_entries(m).contains(c[i]));
                let j = choose|j: int|
                    0 <= j < normalized_entries(m).len() && normalized_entries(m)[j] == c[i];
                lemma_stable_entries_index(m, j);
                lemma_canon_value_idempotent(m[j].1);
            }
            assert(normalized_entries(c) =~= c);
            lemma_fold_insert_sorted(c);
        },
        _ => {},
    }
}

proof fn lemma_canon_fields_idempotent(f: Seq<FieldModel>)
    requires
        forall|i: int| 0 <= i < f.len() ==> stable_value(#[trigger] f[i].value),
    ensures
        canon_fields(canon_fields(f)) == canon_fields(f),
{
    let p = canon_field_pairs(f);
    let c = canon_fields(f);
    lemma_canon_field_pairs_fold(f);
    lemma_canon_field_pairs_fold(c);
    lemma_fold_insert_props(canonical_entries(f));
    assert forall|i: int| 0 <= i < p.len() implies (#[trigger] p[i].0, canon_value(p[i].1)) == p[i] by {
        assert(p.contains(p[i]));
        assert(canonical_entries(f).contains(p[i]));
        let j = choose|j: int|
            0 <= j < canonical_entries(f).len() && canonical_entries(f)[j] == p[i];
        lemma_canon_value_idempotent(f[j].value);
    }
    assert(canonical_entries(c) =~= p);
    lemma_fold_insert_sorted(p);
}

/// Canonicalizing a canonical node changes nothing. This holds of every node
/// whose strings normalize stably; escape resolution alone is not idempotent
/// (four backslashes become two, then one), so such strings are left out.
pub proof fn lemma_canonicalize_idempotent(a: AstModel)
    requires
        stable_ast(a),
    ensures
        canon_ast(canon_ast(a)) == canon_ast(a),
    decreases a,
{
    lemma_canon_fields_idempotent(a.fields);
    let c = canon_asts(a.children);
    lemma_canon_asts(a.children);
    lemma_canon_asts(c);
    assert forall|i: int| 0 <= i < a.children.len() implies canon_ast(#[trigger] c[i]) == c[i] by {
        lemma_stable_asts_index(a.children, i);
        lemma_canonicalize_idempotent(a.children[i]);
    }
    assert(canon_asts(c) =~= c);
}

proof fn lemma_pair_map_insert<V>(s: Seq<(Seq<char>, V)>, k: Seq<char>, v: V)
    ensures
        pair_map(insert_sorted(s, k, v)) == pair_map(s).insert(k, v),
    decreases s.len(),
{
    let r = insert_sorted(s, k, v);
    if s.len() == 0 {
        assert(r.drop_first() =~= Seq::<(Seq<char>, V)>::empty());
        assert(r[0] == (k, v));
        assert(pair_map(r.drop_first()) == Map::<Seq<char>, V>::empty());
        assert(pair_map(s) == Map::<Seq<char>, V>::empty());
        assert(pair_map(r) =~= pair_map(s).insert(k, v));
    } else if s[0].0 == k {
        assert(r.drop_first() =~= s.drop_first());
        assert(pair_map(r) =~= pair_map(s).insert(k, v));
    } else if seq_less(k, s[0].0) {
        assert(r.drop_first() =~= s);
        assert(pair_map(r) =~= pair_map(s).insert(k, v));
    } else {
        lemma_pair_map_insert(s.drop_first(), k, v);
        assert(r.drop_first() =~= insert_sorted(s.drop_first(), k, v));
        assert(pair_map(r) =~= pair_map(s).insert(k, v));
    }
}

proof fn lemma_pair_map_dom<V>(s: Seq<(Seq<char>, V)>, k: Seq<char>)
    ensures
        pair_map(s).dom().contains(k) <==> exists|i: int| 0 <= i < s.len() && #[trigger] s[i].0 == k,
    decreases s.len(),
{
    if s.len() > 0 {
        lemma_pair_map_dom(s.drop_first(), k);
        if exists|i: int| 0 <= i < s.len() && #[trigger] s[i].0 == k {
            let i = choose|i: int| 0 <= i < s.len() && #[trigger] s[i].0 == k;
            if i > 0 {
                assert(s.drop_first()[i - 1].0 == k);
            }
        }
        if exists|i: int| 0 <= i < s.drop_first().len() && #[trigger] s.drop_first()[i].0 == k {
            let i = choose|i: int| 0 <= i < s.drop_first().len() && #[trigger] s.drop_first()[i].0 == k;
            assert(s[i + 1].0 == k);
        }
    }
}

/// Two key-sorted lists with the same key/value map are the same list.
proof fn lemma_sorted_unique<V>(s: Seq<(Seq<char>, V)>, t: Seq<(Seq<char>, V)>)
    requires
        strictly_sorted(s),
        strictly_sorted(t),
        pair_map(s) == pair_map(t),
    ensures
        s == t,
    decreases s.len(),
{
    if s.len() == 0 && t.len() == 0 {
        assert(s =~= t);
    } else if s.len() == 0 {
        lemma_pair_map_dom(t, t[0].0);
        assert(pair_map(s) =~= Map::<Seq<char>, V>::empty());
    } else if t.len() == 0 {
        lemma_pair_map_dom(s, s[0].0);
        assert(pair_map(t) =~= Map::<Seq<char>, V>::empty());
    } else {
        lemma_pair_map_dom(s, t[0].0);
        lemma_pair_map_dom(t, s[0].0);
        let i = choose|i: int| 0 <= i < s.len() && #[trigger] s[i].0 == t[0].0;
        let j = choose|j: int| 0 <= j < t.len() && #[trigger] t[j].0 == s[0].0;
        if i > 0 && j > 0 {
            assert(seq_less(s[0].0, s[i].0));
            assert(seq_less(t[0].0, t[j].0));
            lemma_seq_less_asymmetric(s[0].0, t[0].0);
        }
        let k = s[0].0;
        assert(k == t[0].0);
        let (s1, t1) = (s.drop_first(), t.drop_first());
        assert(strictly_sorted(s1)) by {
            assert forall|a: int, b: int| 0 <= a < b < s1.len() implies seq_less(
                #[trigger] s1[a].0,
                #[trigger] s1[b].0,
            ) by {
                assert(seq_less(s[a + 1].0, s[b + 1].0));
            }
        }
        assert(strictly_sorted(t1)) by {
            assert forall|a: int, b: int| 0 <= a < b < t1.len() implies seq_less(
                #[trigger] t1[a].0,
                #[trigger] t1[b].0,
            ) by {
                assert(seq_less(t[a + 1].0, t[b + 1].0));
            }
        }
        lemma_pair_map_dom(s1, k);
        lemma_pair_map_dom(t1, k);
        if exists|a: int| 0 <= a < s1.len() && #[trigger] s1[a].0 == k {
            let a = choose|a: int| 0 <= a < s1.len() && #[trigger] s1[a].0 == k;
            assert(seq_less(s[0].0, s[a + 1].0));
            lemma_seq_less_irreflexive(k);
        }
        if exists|a: int| 0 <= a < t1.len() && #[trigger] t1[a].0 == k {
            let a = choose|a: int| 0 <= a < t1.len() && #[trigger] t1[a].0 == k;
            assert(seq_less(t[0].0, t[a + 1].0));
            lemma_seq_less_irreflexive(k);
        }
        assert(pair_map(s1) =~= pair_map(s).remove(k));
        assert(pair_map(t1) =~= pair_map(t).remove(k));
        lemma_sorted_unique(s1, t1);
        assert(s[0].1 == pair_map(s)[k]);
        assert(t[0].1 == pair_map(t)[k]);
        assert(s =~= seq![s[0]] + s1);
        assert(t =~= seq![t[0]] + t1);
    }
}

proof fn lemma_fold_pair_map(f: Seq<FieldModel>)
    ensures
        pair_map(canon_field_pairs(f)) == Map::new(
            |k: Seq<char>| field_map(f).dom().contains(k),
            |k: Seq<char>| canon_value(field_map(f)[k]),
        ),
    decreases f.len(),
{
    if f.len() > 0 {
        lemma_fold_pair_map(f.drop_last());
        lemma_pair_map_insert(
            canon_field_pairs(f.drop_last()),
            f.last().key,
            canon_value(f.last().value),
        );
        assert(pair_map(canon_field_pairs(f)) =~= Map::new(
            |k: Seq<char>| field_map(f).dom().contains(k),
            |k: Seq<char>| canon_value(field_map(f)[k]),
        ));
    } else {
        assert(pair_map(canon_field_pairs(f)) =~= Map::new(
            |k: Seq<char>| field_map(f).dom().contains(k),
            |k: Seq<char>| canon_value(field_map(f)[k]),
        ));
    }
}

/// The canonical fields of a node depend only on which value each key ends up
/// with: two field lists that differ only in the order of their entries (or
/// in values that a later entry of the same key overwrites) canonicalize alike.
pub proof fn lemma_canon_fields_by_map(f: Seq<FieldModel>, g: Seq<FieldModel>)
    requires
        field_map(f) == field_map(g),
    ensures
        canon_fields(f) == canon_fields(g),
{
    lemma_fold_pair_map(f);
    lemma_fold_pair_map(g);
    lemma_canon_field_pairs_fold(f);
    lemma_canon_field_pairs_fold(g);
    lemma_fold_insert_props(canonical_entries(f));
    lemma_fold_insert_props(canonical_entries(g));
    lemma_sorted_unique(canon_field_pairs(f), canon_field_pairs(g));
}

/// Two nodes of the same kind, children and span, whose fields differ only in
/// their order of insertion, canonicalize to the same node.
pub proof fn lemma_field_order_invariance(a: AstModel, b: AstModel)
    requires
        a.ttype == b.ttype,
        a.children == b.children,
        a.span == b.span,
        field_map(a.fields) == field_map(b.fields),
    ensures
        canon_ast(a) == canon_ast(b),
{
    lemma_canon_fields_by_map(a.fields, b.fields);
}

proof fn lemma_insert_sorted_twice<V>(s: Seq<(Seq<char>, V)>, k: Seq<char>, v1: V, v2: V)
    ensures
        insert_sorted(insert_sorted(s, k, v1), k, v2) == insert_sorted(s, k, v2),
    decreases s.len(),
{
    if s.len() == 0 {
        assert(seq![(k, v1)].drop_first() =~= Seq::<(Seq<char>, V)>::empty());
    } else if s[0].0 == k {
        assert((seq![(k, v1)] + s.drop_first()).drop_first() =~= s.drop_first());
    } else if seq_less(k, s[0].0) {
        assert((seq![(k, v1)] + s).drop_first() =~= s);
    } else {
        lemma_insert_sorted_twice(s.drop_first(), k, v1, v2);
        let r = insert_sorted(s, k, v1);
        assert(r.drop_first() =~= insert_sorted(s.drop_first(), k, v1));
    }
}

/// Of two consecutive fields with the same key, the later one wins: the
/// earlier value leaves no trace in the canonical fields.
pub proof fn lemma_duplicate_key_last_wins(f: Seq<FieldModel>, first: FieldModel, second: FieldModel)
    requires
        first.key == second.key,
    ensures
        canon_fields(f.push(first).push(second)) == canon_fields(f.push(second)),
{
    let g = f.push(first).push(second);
    assert(g.drop_last() =~= f.push(first));
    assert(g.drop_last().drop_last() =~= f);
    assert(f.push(second).drop_last() =~= f);
    lemma_insert_sorted_twice(
        canon_field_pairs(f),
        first.key,
        canon_value(first.value),
        canon_value(second.value),
    );
    assert(canon_field_pairs(f.push(first)) == insert_sorted(
        canon_field_pairs(f),
        first.key,
        canon_value(first.value),
    ));
    assert(canon_field_pairs(g) == insert_sorted(
        canon_field_pairs(f.push(first)),
        second.key,
        canon_value(second.value),
    ));
    assert(canon_field_pairs(f.push(second)) == insert_sorted(
        canon_field_pairs(f),
        second.key,
        canon_value(second.value),
    ));
}

/// A trailing fractional zero carries no value: `m0 / 10^(s+1)` and
/// `m / 10^s` have the same canonical form (so `1.0` becomes `1`).
pub proof fn lemma_number_trailing_zero(m: i64, s: u32)
    requires
        s < u32::MAX,
        i64::MIN <= m * 10 <= i64::MAX,
    ensures
        norm_num(Number { mantissa: (m * 10) as i64, scale: (s + 1) as u32 }) == norm_num(
            Number { mantissa: m, scale: s },
        ),
{
    let n = Number { mantissa: (m * 10) as i64, scale: (s + 1) as u32 };
    assert(n.mantissa % 10 == 0);
    assert(n.mantissa / 10 == m);
}

/// A number whose last digit is not zero, or which is whole, is already
/// canonical (so `1.5` and `2` are unchanged).
pub proof fn lemma_number_unchanged(n: Number)
    requires
        n.scale == 0 || n.mantissa % 10 != 0,
    ensures
        norm_num(n) == n,
{
}

} // verus!
