//! Structural fingerprints. Each node gets a vector of 256 slots; the kind,
//! every field and every child's kind are hashed with a fast 64-bit hash whose
//! eight bytes are added into eight consecutive slots. Slots hold the byte
//! sums as integers and saturate at `u16::MAX`; scaling to unit length is
//! left to the caller, since it needs real arithmetic.

use vstd::prelude::*;
use vstd::string::StringExecFns;

use crate::sentience_core::ast::{
    kind_name, lemma_pairs_model, lemma_values_model, pairs_model, strings_model, value_model,
    values_model, AstModel, FieldModel, SentienceTokenAst, Value, ValueModel, field_model,
    fields_model, ast_model, asts_model, lemma_asts_model,
};
use crate::sentience_core::hasher::{joined, number_text, write_number};
use crate::text::chars_of;

verus! {

/// The number of slots of a fingerprint.
pub const EMBEDDING_DIM: usize = 256;

/// The fast, non-cryptographic 64-bit hash of a string.
pub uninterp spec fn fast_hash_of(s: Seq<char>) -> u64;

/// Relies on `std::collections::hash_map::DefaultHasher` built with `new`,
/// whose keys are fixed: the hash of the string depends on its characters
/// alone.
#[verifier::external_body]
pub(crate) fn hash_string(s: &str) -> (r: u64)
    ensures
        r == fast_hash_of(s@),
{
    let mut hasher = std::collections::hash_map::DefaultHasher::new();
    std::hash::Hash::hash(s, &mut hasher);
    std::hash::Hasher::finish(&hasher)
}

/// Text with `sep` between consecutive items.
pub open spec fn join_with(items: Seq<Seq<char>>, sep: Seq<char>) -> Seq<char>
    decreases items.len(),
{
    if items.len() == 0 {
        Seq::empty()
    } else if items.len() == 1 {
        items[0]
    } else {
        join_with(items.drop_last(), sep) + sep + items.last()
    }
}

/// The flat text of a value that its field contributes to the fingerprint.
pub open spec fn value_text(v: ValueModel) -> Seq<char>
    decreases v,
{
    match v {
        ValueModel::Str(s) => s,
        ValueModel::Num(n) => number_text(n),
        ValueModel::Bool(b) => if b {
            "true"@
        } else {
            "false"@
        },
        ValueModel::Path(p) => join_with(p, seq!['.']),
        ValueModel::List(l) => seq!['['] + join_with(value_texts(l), seq![',']) + seq![']'],
        ValueModel::Dict(m) => seq!['{'] + join_with(entry_texts(m), seq![',']) + seq!['}'],
    }
}

pub open spec fn value_texts(s: Seq<ValueModel>) -> Seq<Seq<char>>
    decreases s,
{
    if s.len() == 0 {
        Seq::empty()
    } else {
        value_texts(s.drop_last()).push(value_text(s.last()))
    }
}

pub open spec fn entry_texts(m: Seq<(Seq<char>, ValueModel)>) -> Seq<Seq<char>>
    decreases m,
{
    if m.len() == 0 {
        Seq::empty()
    } else {
        entry_texts(m.drop_last()).push(m.last().0 + seq![':'] + value_text(m.last().1))
    }
}

/// Byte `i` of `h`, counting from the least significant.
pub open spec fn hash_byte(h: u64, i: int) -> u16 {
    ((h >> ((8 * i) as u64)) & 0xff) as u16
}

/// `x + y`, or `u16::MAX` if that is larger.
pub open spec fn sat_add(x: u16, y: u16) -> u16 {
    if x + y > u16::MAX {
        u16::MAX
    } else {
        (x + y) as u16
    }
}

/// Adds the first `n` bytes of `h` into the slots from `off` on (mod 256).
pub open spec fn scatter_bytes(e: Seq<u16>, h: u64, off: int, n: int) -> Seq<u16>
    decreases n,
{
    if n <= 0 {
        e
    } else {
        let prev = scatter_bytes(e, h, off, n - 1);
        let idx = (off + n - 1) % 256;
        prev.update(idx, sat_add(prev[idx], hash_byte(h, n - 1)))
    }
}

pub open spec fn scatter(e: Seq<u16>, h: u64, off: int) -> Seq<u16> {
    scatter_bytes(e, h, off, 8)
}

/// The text hashed for a field: `key:value`.
pub open spec fn field_text(f: FieldModel) -> Seq<char> {
    f.key + seq![':'] + value_text(f.value)
}

/// The fingerprint after the kind and the first `n` fields.
pub open spec fn fingerprint_fields(a: AstModel, n: int) -> Seq<u16>
    decreases n,
{
    if n <= 0 {
        scatter(Seq::new(256, |i: int| 0u16), fast_hash_of(kind_name(a.ttype)), 0)
    } else {
        scatter(
            fingerprint_fields(a, n - 1),
            fast_hash_of(field_text(a.fields[n - 1])),
            (n * 10) % 256,
        )
    }
}

/// The fingerprint after the kind, all fields and the first `n` children.
pub open spec fn fingerprint_children(a: AstModel, n: int) -> Seq<u16>
    decreases n,
{
    if n <= 0 {
        fingerprint_fields(a, a.fields.len() as int)
    } else {
        scatter(
            fingerprint_children(a, n - 1),
            fast_hash_of(kind_name(a.children[n - 1].ttype)),
            (n * 20) % 256,
        )
    }
}

/// The fingerprint of a node.
pub open spec fn fingerprint(a: AstModel) -> Seq<u16> {
    fingerprint_children(a, a.children.len() as int)
}

proof fn lemma_value_texts(s: Seq<ValueModel>)
    ensures
        value_texts(s).len() == s.len(),
        forall|i: int| 0 <= i < s.len() ==> #[trigger] value_texts(s)[i] == value_text(s[i]),
    decreases s.len(),
{
    if s.len() > 0 {
        lemma_value_texts(s.drop_last());
    }
}

proof fn lemma_entry_texts(m: Seq<(Seq<char>, ValueModel)>)
    ensures
        entry_texts(m).len() == m.len(),
        forall|i: int|
            0 <= i < m.len() ==> #[trigger] entry_texts(m)[i] == m[i].0 + seq![':'] + value_text(
                m[i].1,
            ),
    decreases m.len(),
{
    if m.len() > 0 {
        lemma_entry_texts(m.drop_last());
    }
}

proof fn lemma_join_push(items: Seq<Seq<char>>, sep: Seq<char>, i: int)
    requires
        0 <= i < items.len(),
    ensures
        join_with(items.take(i + 1), sep) == if i == 0 {
            items[0]
        } else {
            join_with(items.take(i), sep) + sep + items[i]
        },
{
    assert(items.take(i + 1).drop_last() =~= items.take(i));
}

/// Appends the flat text of a value.
pub fn write_value_text(out: &mut String, v: &Value)
    ensures
        final(out)@ == old(out)@ + value_text(v@),
    decreases v,
{
    let ghost start = out@;
    match v {
        Value::Str(s) => {
            out.append(s.as_str());
        },
        Value::Num(n) => {
            write_number(out, *n);
        },
        Value::Bool(b) => {
            if *b {
                out.append("true");
            } else {
                out.append("false");
            }
        },
        Value::Path(p) => {
            let ghost items = strings_model(p@);
            let mut i: usize = 0;
            while i < p.len()
                invariant
                    i <= p@.len(),
                    items == strings_model(p@),
                    out@ == start + join_with(items.take(i as int), seq!['.']),
                decreases p@.len() - i,
            {
                proof {
                    lemma_join_push(items, seq!['.'], i as int);
                }
                if i > 0 {
                    out.push('.');
                }
                out.append(p[i].as_str());
                proof {
                    assert(out@ =~= start + join_with(items.take(i + 1), seq!['.']));
                }
                i = i + 1;
            }
            proof {
                assert(items.take(p@.len() as int) =~= items);
            }
        },
        Value::List(l) => {
            out.push('[');
            let ghost head = out@;
            let ghost items = value_texts(values_model(l@));
            proof {
                lemma_values_model(l@);
                lemma_value_texts(values_model(l@));
            }
            let mut i: usize = 0;
            while i < l.len()
                invariant
                    *v == Value::List(*l),
                    i <= l@.len(),
                    items == value_texts(values_model(l@)),
                    items.len() == l@.len(),
                    forall|j: int| 0 <= j < l@.len() ==> #[trigger] items[j] == value_text(value_model(l@[j])),
                    out@ == head + join_with(items.take(i as int), seq![',']),
                decreases l@.len() - i,
            {
                proof {
                    lemma_join_push(items, seq![','], i as int);
                    let ghost w = *v;
                    assert(decreases_to!(w => w->List_0));
                    vstd::std_specs::vec::axiom_vec_index_decreases(w->List_0, i as int);
                }
                if i > 0 {
                    out.push(',');
                }
                write_value_text(out, &l[i]);
                proof {
                    assert(out@ =~= head + join_with(items.take(i + 1), seq![',']));
                }
                i = i + 1;
            }
            out.push(']');
            proof {
                assert(items.take(l@.len() as int) =~= items);
                assert(out@ =~= start + value_text(v@));
            }
        },
        Value::Dict(m) => {
            out.push('{');
            let ghost head = out@;
            let ghost items = entry_texts(pairs_model(m@));
            proof {
                lemma_pairs_model(m@);
                lemma_entry_texts(pairs_model(m@));
            }
            let mut i: usize = 0;
            while i < m.len()
                invariant
                    *v == Value::Dict(*m),
                    i <= m@.len(),
                    items == entry_texts(pairs_model(m@)),
                    items.len() == m@.len(),
                    forall|j: int|
                        0 <= j < m@.len() ==> #[trigger] items[j] == m@[j].0@ + seq![':'] + value_text(
                            value_model(m@[j].1),
                        ),
                    out@ == head + join_with(items.take(i as int), seq![',']),
                decreases m@.len() - i,
            {
                proof {
                    lemma_join_push(items, seq![','], i as int);
                    let ghost w = *v;
                    assert(decreases_to!(w => w->Dict_0));
                    vstd::std_specs::vec::axiom_vec_index_decreases(w->Dict_0, i as int);
                }
                if i > 0 {
                    out.push(',');
                }
                out.append(m[i].0.as_str());
                out.push(':');
                write_value_text(out, &m[i].1);
                proof {
                    assert(out@ =~= head + join_with(items.take(i + 1), seq![',']));
                }
                i = i + 1;
            }
            out.push('}');
            proof {
                assert(items.take(m@.len() as int) =~= items);
                assert(out@ =~= start + value_text(v@));
            }
        },
    }
}

/// The flat text of a value.
pub fn value_to_string(v: &Value) -> (r: String)
    ensures
        r@ == value_text(v@),
{
    let mut r = String::new();
    write_value_text(&mut r, v);
    proof {
        assert(r@ =~= value_text(v@));
    }
    r
}

/// Adds the eight bytes of `hash` into the eight slots from `offset` on,
/// wrapping around the end of the vector.
pub fn distribute_hash(hash: u64, embedding: &mut Vec<u16>, offset: usize)
    requires
        old(embedding)@.len() == EMBEDDING_DIM,
        offset < EMBEDDING_DIM,
    ensures
        final(embedding)@ == scatter(old(embedding)@, hash, offset as int),
        final(embedding)@.len() == EMBEDDING_DIM,
{
    let ghost start = embedding@;
    let mut i: u64 = 0;
    while i < 8
        invariant
            i <= 8,
            offset < 256,
            embedding@.len() == 256,
            embedding@ == scatter_bytes(start, hash, offset as int, i as int),
        decreases 8 - i,
    {
        let idx = (offset + i as usize) % 256;
        let val = ((hash >> (i * 8)) & 0xff) as u16;
        proof {
            assert(val == hash_byte(hash, i as int));
        }
        let cur = embedding[idx];
        embedding.set(idx, cur.saturating_add(val));
        i = i + 1;
    }
}

/// The text hashed for a field.
fn field_text_of(key: &str, value: &Value) -> (r: String)
    ensures
        r@ == key@ + seq![':'] + value_text(value@),
{
    let mut r = String::from_str(key);
    r.push(':');
    write_value_text(&mut r, value);
    r
}

/// The fingerprint of a node: its kind at slot 0, field `i` at slot
/// `10 (i + 1)` and child `i`'s kind at slot `20 (i + 1)` (mod 256), eight
/// slots each.
pub fn encode(ast: &SentienceTokenAst) -> (r: Vec<u16>)
    ensures
        r@ == fingerprint(ast@),
        r@.len() == EMBEDDING_DIM,
{
    let mut e: Vec<u16> = Vec::new();
    let mut z: usize = 0;
    while z < EMBEDDING_DIM
        invariant
            z <= 256,
            e@ == Seq::new(z as nat, |i: int| 0u16),
        decreases 256 - z,
    {
        e.push(0);
        proof {
            assert(e@ =~= Seq::new((z + 1) as nat, |i: int| 0u16));
        }
        z = z + 1;
    }
    let kind_hash = hash_string(ast.ttype.name());
    distribute_hash(kind_hash, &mut e, 0);
    let ghost a = ast@;
    let mut i: usize = 0;
    let mut off: usize = 0;
    while i < ast.fields.len()
        invariant
            a == ast@,
            i <= ast.fields@.len(),
            off == (i * 10) % 256,
            e@.len() == 256,
            e@ == fingerprint_fields(a, i as int),
        decreases ast.fields@.len() - i,
    {
        proof {
            vstd::arithmetic::div_mod::lemma_add_mod_noop(i * 10, 10, 256);
            assert((i * 10 + 10) == (i + 1) * 10) by (nonlinear_arith);
        }
        off = (off + 10) % 256;
        let text = field_text_of(ast.fields[i].key.as_str(), &ast.fields[i].value);
        let h = hash_string(text.as_str());
        distribute_hash(h, &mut e, off);
        proof {
            assert(a.fields[i as int] == field_model(ast.fields@[i as int]));
        }
        i = i + 1;
    }
    let mut j: usize = 0;
    off = 0;
    proof {
        lemma_asts_model(ast.children@);
    }
    while j < ast.children.len()
        invariant
            a == ast@,
            j <= ast.children@.len(),
            a.children.len() == ast.children@.len(),
            forall|q: int| 0 <= q < a.children.len() ==> #[trigger] a.children[q] == ast_model(ast.children@[q]),
            off == (j * 20) % 256,
            e@.len() == 256,
            e@ == fingerprint_children(a, j as int),
        decreases ast.children@.len() - j,
    {
        proof {
            vstd::arithmetic::div_mod::lemma_add_mod_noop(j * 20, 20, 256);
            assert((j * 20 + 20) == (j + 1) * 20) by (nonlinear_arith);
        }
        off = (off + 20) % 256;
        let h = hash_string(ast.children[j].ttype.name());
        distribute_hash(h, &mut e, off);
        j = j + 1;
    }
    e
}

} // verus!
