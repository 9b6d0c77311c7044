//! Content identifiers. A canonical node is written out in a key-order-stable
//! JSON text (its span left out), wrapped with a schema tag, hashed with
//! SHA-256, and named by the hex form of the first eight bytes of the digest.
//! Two different nodes share an identifier only if their digests agree in
//! those 64 bits; that risk is accepted as negligible, not handled.

use vstd::prelude::*;
use vstd::string::StringExecFns;
use vstd::utf8::encode_utf8;

use sha2::Digest;

use crate::sentience_core::ast::{
    kind_name, AstModel, Field, FieldModel, Number, SentienceTokenAst, Value, ValueModel, value_model,
    values_model, pairs_model, field_model, fields_model, ast_model, asts_model, lemma_values_model,
    lemma_pairs_model, lemma_asts_model, strings_model,
};
use crate::text::chars_of;

verus! {

/// The SHA-256 digest of a byte sequence.
pub uninterp spec fn sha256_of(data: Seq<u8>) -> Seq<u8>;

/// Relies on `sha2::Sha256::digest`: the digest of `data`, 32 bytes long.
#[verifier::external_body]
fn sha256(data: &[u8]) -> (r: Vec<u8>)
    ensures
        r@ == sha256_of(data@),
        r@.len() == 32,
{
    sha2::Sha256::digest(data).to_vec()
}

/// The lower-case hex digit of a value below 16.
pub open spec fn hex_digit(d: int) -> char {
    if d < 10 {
        (('0' as u8) + d) as char
    } else {
        (('a' as u8) + d - 10) as char
    }
}

/// Two lower-case hex digits per byte, high nibble first.
pub open spec fn hex_lower(b: Seq<u8>) -> Seq<char>
    decreases b.len(),
{
    if b.len() == 0 {
        Seq::empty()
    } else {
        seq![hex_digit(b[0] as int / 16), hex_digit(b[0] as int % 16)] + hex_lower(b.drop_first())
    }
}

/// Relies on `hex::encode`: two lower-case digits per byte, in order.
#[verifier::external_body]
fn hex_encode(b: &[u8]) -> (r: String)
    ensures
        r@ == hex_lower(b@),
{
    hex::encode(b)
}

/// A lower-case hex digit.
pub open spec fn is_hex_digit(c: char) -> bool {
    ('0' <= c && c <= '9') || ('a' <= c && c <= 'f')
}

pub proof fn lemma_hex_lower(b: Seq<u8>)
    ensures
        hex_lower(b).len() == 2 * b.len(),
        forall|i: int| 0 <= i < hex_lower(b).len() ==> is_hex_digit(#[trigger] hex_lower(b)[i]),
    decreases b.len(),
{
    if b.len() > 0 {
        lemma_hex_lower(b.drop_first());
        let h = hex_lower(b);
        let t = hex_lower(b.drop_first());
        assert forall|i: int| 0 <= i < h.len() implies is_hex_digit(#[trigger] h[i]) by {
            if i >= 2 {
                assert(h[i] == t[i - 2]);
            } else {
                let d = if i == 0 { b[0] as int / 16 } else { b[0] as int % 16 };
                assert(0 <= d < 16);
            }
        }
    }
}

/// A double-quoted string literal: `"` and `\` are escaped with a backslash,
/// control characters as `\u00XX`.
pub open spec fn escape_char(c: char) -> Seq<char> {
    if c == '"' {
        seq!['\\', '"']
    } else if c == '\\' {
        seq!['\\', '\\']
    } else if (c as u32) < 0x20 {
        seq!['\\', 'u', '0', '0', hex_digit(c as u32 as int / 16), hex_digit(c as u32 as int % 16)]
    } else {
        seq![c]
    }
}

pub open spec fn escape(s: Seq<char>) -> Seq<char>
    decreases s.len(),
{
    if s.len() == 0 {
        Seq::empty()
    } else {
        escape(s.drop_last()) + escape_char(s.last())
    }
}

pub open spec fn quoted(s: Seq<char>) -> Seq<char> {
    seq!['"'] + escape(s) + seq!['"']
}

/// The decimal digits of a natural number.
pub open spec fn decimal(u: nat) -> Seq<char>
    decreases u,
{
    if u < 10 {
        seq![hex_digit(u as int)]
    } else {
        decimal(u / 10).push(hex_digit((u % 10) as int))
    }
}

/// The digits `d` padded with zeros on the left to more than `s` digits.
pub open spec fn padded(d: Seq<char>, s: int) -> Seq<char> {
    Seq::new(if d.len() <= s { (s + 1 - d.len()) as nat } else { 0 }, |i: int| '0') + d
}

/// `p` with a decimal point before its last `s` characters.
pub open spec fn with_point(p: Seq<char>, s: int) -> Seq<char> {
    p.take(p.len() - s) + seq!['.'] + p.skip(p.len() - s)
}

/// The magnitude of a mantissa.
pub open spec fn magnitude(m: i64) -> nat {
    if m < 0 {
        (-(m as int)) as nat
    } else {
        m as nat
    }
}

/// `n` written out in decimal: a minus sign if negative, and a decimal point
/// before the last `scale` digits, padded with zeros on the left as needed.
pub open spec fn number_text(n: Number) -> Seq<char> {
    let sign = if n.mantissa < 0 { seq!['-'] } else { Seq::<char>::empty() };
    let d = decimal(magnitude(n.mantissa));
    if n.scale == 0 {
        sign + d
    } else {
        sign + with_point(padded(d, n.scale as int), n.scale as int)
    }
}

/// Items joined by commas.
pub open spec fn joined(items: Seq<Seq<char>>) -> Seq<char>
    decreases items.len(),
{
    if items.len() == 0 {
        Seq::empty()
    } else if items.len() == 1 {
        items[0]
    } else {
        joined(items.drop_last()) + seq![','] + items.last()
    }
}

pub open spec fn encode_value(v: ValueModel) -> Seq<char>
    decreases v,
{
    match v {
        ValueModel::Str(s) => "{\"Str\":"@ + quoted(s) + "}"@,
        ValueModel::Num(n) => "{\"Num\":"@ + number_text(n) + "}"@,
        ValueModel::Bool(b) => if b {
            "{\"Bool\":true}"@
        } else {
            "{\"Bool\":false}"@
        },
        ValueModel::Path(p) => "{\"Path\":["@ + joined(p.map_values(|x: Seq<char>| quoted(x)))
            + "]}"@,
        ValueModel::List(l) => "{\"List\":["@ + joined(encode_values(l)) + "]}"@,
        ValueModel::Dict(m) => "{\"Dict\":["@ + joined(encode_entries(m)) + "]}"@,
    }
}

pub open spec fn encode_values(s: Seq<ValueModel>) -> Seq<Seq<char>>
    decreases s,
{
    if s.len() == 0 {
        Seq::empty()
    } else {
        encode_values(s.drop_last()).push(encode_value(s.last()))
    }
}

pub open spec fn encode_entries(m: Seq<(Seq<char>, ValueModel)>) -> Seq<Seq<char>>
    decreases m,
{
    if m.len() == 0 {
        Seq::empty()
    } else {
        encode_entries(m.drop_last()).push(
            seq!['['] + quoted(m.last().0) + seq![','] + encode_value(m.last().1) + seq![']'],
        )
    }
}

pub open spec fn encode_field(f: FieldModel) -> Seq<char> {
    "{\"key\":"@ + quoted(f.key) + ",\"value\":"@ + encode_value(f.value) + "}"@
}

/// The JSON text of a node: kind, fields and children, without the span.
pub open spec fn encode_ast(a: AstModel) -> Seq<char>
    decreases a,
{
    "{\"ttype\":"@ + quoted(kind_name(a.ttype)) + ",\"fields\":["@ + joined(
        a.fields.map_values(|f: FieldModel| encode_field(f)),
    ) + "],\"children\":["@ + joined(encode_asts(a.children)) + "]}"@
}

pub open spec fn encode_asts(s: Seq<AstModel>) -> Seq<Seq<char>>
    decreases s,
{
    if s.len() == 0 {
        Seq::empty()
    } else {
        encode_asts(s.drop_last()).push(encode_ast(s.last()))
    }
}

/// The text that is hashed for a record: the node under a schema tag.
pub open spec fn record_text(a: AstModel) -> Seq<char> {
    "{\"schema\":\"sentience/0.2\",\"ast\":"@ + encode_ast(a) + "}"@
}

/// `prefix` followed by sixteen lower-case hex digits.
pub open spec fn is_hex_id(s: Seq<char>, prefix: Seq<char>) -> bool {
    &&& s.len() == prefix.len() + 16
    &&& s.take(prefix.len() as int) == prefix
    &&& forall|i: int| prefix.len() <= i < s.len() ==> is_hex_digit(#[trigger] s[i])
}

/// The identifier of a canonical node.
pub open spec fn record_id(a: AstModel) -> Seq<char> {
    "mem_"@ + hex_lower(sha256_of(encode_utf8(record_text(a))).take(8))
}

/// The identifier of a relation `source|kind|target`.
pub open spec fn edge_id(source: Seq<char>, kind: Seq<char>, target: Seq<char>) -> Seq<char> {
    "edge_"@ + hex_lower(
        sha256_of(encode_utf8(source + seq!['|'] + kind + seq!['|'] + target)).take(8),
    )
}

fn hex_char(d: u32) -> (r: char)
    requires
        d < 16,
    ensures
        r == hex_digit(d as int),
{
    if d < 10 {
        ((48 + d) as u8) as char
    } else {
        ((97 + d - 10) as u8) as char
    }
}

proof fn lemma_joined_push(items: Seq<Seq<char>>, i: int)
    requires
        0 <= i < items.len(),
    ensures
        joined(items.take(i + 1)) == if i == 0 {
            items[0]
        } else {
            joined(items.take(i)) + seq![','] + items[i]
        },
{
    assert(items.take(i + 1).drop_last() =~= items.take(i));
}

/// Appends `"` + escaped `s` + `"`.
fn write_quoted(out: &mut String, s: &str)
    ensures
        final(out)@ == old(out)@ + quoted(s@),
{
    let cs = chars_of(s);
    let ghost start = out@;
    out.push('"');
    let mut i: usize = 0;
    while i < cs.len()
        invariant
            i <= cs@.len(),
            cs@ == s@,
            out@ == start + seq!['"'] + escape(cs@.take(i as int)),
        decreases cs@.len() - i,
    {
        let c = cs[i];
        let ghost before = out@;
        if c == '"' {
            out.push('\\');
            out.push('"');
        } else if c == '\\' {
            out.push('\\');
            out.push('\\');
        } else if (c as u32) < 0x20 {
            out.push('\\');
            out.push('u');
            out.push('0');
            out.push('0');
            out.push(hex_char((c as u32) / 16));
            out.push(hex_char((c as u32) % 16));
        } else {
            out.push(c);
        }
        proof {
            assert(out@ =~= before + escape_char(c));
            assert(cs@.take(i + 1).drop_last() =~= cs@.take(i as int));
        }
        i = i + 1;
    }
    out.push('"');
    proof {
        assert(cs@.take(cs@.len() as int) =~= cs@);
        assert(out@ =~= start + quoted(s@));
    }
}

fn decimal_chars(u: u64) -> (r: Vec<char>)
    ensures
        r@ == decimal(u as nat),
    decreases u,
{
    if u < 10 {
        let mut r: Vec<char> = Vec::new();
        r.push(hex_char(u as u32));
        proof {
            assert(r@ =~= seq![hex_digit(u as int)]);
        }
        r
    } else {
        let mut r = decimal_chars(u / 10);
        r.push(hex_char((u % 10) as u32));
        r
    }
}

/// Appends the characters of `v`.
fn write_chars(out: &mut String, v: &[char])
    ensures
        final(out)@ == old(out)@ + v@,
{
    let ghost start = out@;
    let mut i: usize = 0;
    while i < v.len()
        invariant
            i <= v@.len(),
            out@ == start + v@.take(i as int),
        decreases v@.len() - i,
    {
        out.push(v[i]);
        proof {
            assert(v@.take(i + 1) =~= v@.take(i as int).push(v@[i as int]));
        }
        i = i + 1;
    }
    proof {
        assert(v@.take(v@.len() as int) =~= v@);
    }
}

fn padded_chars(d: &[char], scale: u32) -> (r: Vec<char>)
    ensures
        r@ == padded(d@, scale as int),
{
    let mut p: Vec<char> = Vec::new();
    let ghost pad: nat = if d@.len() <= scale as int { (scale as int + 1 - d@.len()) as nat } else { 0 };
    let padding: u64 = if (d.len() as u64) <= (scale as u64) {
        (scale as u64) + 1 - (d.len() as u64)
    } else {
        0
    };
    let mut z: u64 = 0;
    while z < padding
        invariant
            z <= padding,
            padding == pad,
            p@ == Seq::new(z as nat, |i: int| '0'),
        decreases padding - z,
    {
        p.push('0');
        proof {
            assert(p@ =~= Seq::new((z + 1) as nat, |i: int| '0'));
        }
        z = z + 1;
    }
    let mut i: usize = 0;
    while i < d.len()
        invariant
            i <= d@.len(),
            p@ == Seq::new(pad, |i: int| '0') + d@.take(i as int),
        decreases d@.len() - i,
    {
        p.push(d[i]);
        proof {
            assert(d@.take(i + 1) =~= d@.take(i as int).push(d@[i as int]));
        }
        i = i + 1;
    }
    proof {
        assert(d@.take(d@.len() as int) =~= d@);
    }
    p
}

fn write_with_point(out: &mut String, p: &[char], s: usize)
    requires
        s < p@.len(),
    ensures
        final(out)@ == old(out)@ + with_point(p@, s as int),
{
    let ghost start = out@;
    let cut = p.len() - s;
    let mut j: usize = 0;
    while j < cut
        invariant
            j <= cut,
            cut == p@.len() - s,
            out@ == start + p@.take(j as int),
        decreases cut - j,
    {
        out.push(p[j]);
        proof {
            assert(p@.take(j + 1) =~= p@.take(j as int).push(p@[j as int]));
        }
        j = j + 1;
    }
    out.push('.');
    while j < p.len()
        invariant
            cut <= j <= p@.len(),
            cut == p@.len() - s,
            out@ == start + p@.take(cut as int) + seq!['.'] + p@.subrange(cut as int, j as int),
        decreases p@.len() - j,
    {
        out.push(p[j]);
        proof {
            assert(p@.subrange(cut as int, j + 1) =~= p@.subrange(cut as int, j as int).push(
                p@[j as int],
            ));
        }
        j = j + 1;
    }
    proof {
        assert(p@.subrange(cut as int, p@.len() as int) =~= p@.skip(cut as int));
    }
}

/// Appends the decimal text of a number.
pub fn write_number(out: &mut String, n: Number)
    ensures
        final(out)@ == old(out)@ + number_text(n),
{
    let ghost start = out@;
    let mag: u64 = if n.mantissa < 0 {
        (-(n.mantissa as i128)) as u64
    } else {
        n.mantissa as u64
    };
    assert(mag == magnitude(n.mantissa));
    let d = decimal_chars(mag);
    if n.mantissa < 0 {
        out.push('-');
    }
    if n.scale == 0 {
        write_chars(out, d.as_slice());
    } else {
        let p = padded_chars(d.as_slice(), n.scale);
        write_with_point(out, p.as_slice(), n.scale as usize);
    }
    proof {
        let sign = if n.mantissa < 0 { seq!['-'] } else { Seq::<char>::empty() };
        assert(out@ =~= start + number_text(n));
    }
}

proof fn lemma_encode_values(s: Seq<ValueModel>)
    ensures
        encode_values(s).len() == s.len(),
        forall|i: int| 0 <= i < s.len() ==> #[trigger] encode_values(s)[i] == encode_value(s[i]),
    decreases s.len(),
{
    if s.len() > 0 {
        lemma_encode_values(s.drop_last());
    }
}

proof fn lemma_encode_entries(m: Seq<(Seq<char>, ValueModel)>)
    ensures
        encode_entries(m).len() == m.len(),
        forall|i: int|
            0 <= i < m.len() ==> #[trigger] encode_entries(m)[i] == seq!['['] + quoted(m[i].0)
                + seq![','] + encode_value(m[i].1) + seq![']'],
    decreases m.len(),
{
    if m.len() > 0 {
        lemma_encode_entries(m.drop_last());
    }
}

proof fn lemma_encode_asts(s: Seq<AstModel>)
    ensures
        encode_asts(s).len() == s.len(),
        forall|i: int| 0 <= i < s.len() ==> #[trigger] encode_asts(s)[i] == encode_ast(s[i]),
    decreases s.len(),
{
    if s.len() > 0 {
        lemma_encode_asts(s.drop_last());
    }
}

/// Appends the encoding of a value.
pub fn write_value(out: &mut String, v: &Value)
    ensures
        final(out)@ == old(out)@ + encode_value(v@),
    decreases v,
{
    let ghost start = out@;
    match v {
        Value::Str(s) => {
            out.append("{\"Str\":");
            write_quoted(out, s.as_str());
            out.append("}");
            proof {
                assert(out@ =~= start + encode_value(v@));
            }
        },
        Value::Num(n) => {
            out.append("{\"Num\":");
            write_number(out, *n);
            out.append("}");
            proof {
                assert(out@ =~= start + encode_value(v@));
            }
        },
        Value::Bool(b) => {
            if *b {
                out.append("{\"Bool\":true}");
            } else {
                out.append("{\"Bool\":false}");
            }
        },
        Value::Path(p) => {
            out.append("{\"Path\":[");
            let ghost head = out@;
            let ghost items = strings_model(p@).map_values(|x: Seq<char>| quoted(x));
            let mut i: usize = 0;
            while i < p.len()
                invariant
                    i <= p@.len(),
                    items == strings_model(p@).map_values(|x: Seq<char>| quoted(x)),
                    items.len() == p@.len(),
                    out@ == head + joined(items.take(i as int)),
                decreases p@.len() - i,
            {
                proof {
                    lemma_joined_push(items, i as int);
                }
                if i > 0 {
                    out.push(',');
                }
                write_quoted(out, p[i].as_str());
                proof {
                    assert(items[i as int] == quoted(p@[i as int]@));
                    assert(out@ =~= head + joined(items.take(i + 1)));
                }
                i = i + 1;
            }
            out.append("]}");
            proof {
                assert(items.take(p@.len() as int) =~= items);
                assert(out@ =~= start + encode_value(v@));
            }
        },
        Value::List(l) => {
            out.append("{\"List\":[");
            let ghost head = out@;
            let ghost items = encode_values(values_model(l@));
            proof {
                lemma_values_model(l@);
                lemma_encode_values(values_model(l@));
            }
            let mut i: usize = 0;
            while i < l.len()
                invariant
                    *v == Value::List(*l),
                    i <= l@.len(),
                    items == encode_values(values_model(l@)),
                    items.len() == l@.len(),
                    forall|j: int| 0 <= j < l@.len() ==> #[trigger] items[j] == encode_value(value_model(l@[j])),
                    out@ == head + joined(items.take(i as int)),
                decreases l@.len() - i,
            {
                proof {
                    lemma_joined_push(items, i as int);
                    let ghost w = *v;
                    assert(decreases_to!(w => w->List_0));
                    vstd::std_specs::vec::axiom_vec_index_decreases(w->List_0, i as int);
                }
                if i > 0 {
                    out.push(',');
                }
                write_value(out, &l[i]);
                proof {
                    assert(out@ =~= head + joined(items.take(i + 1)));
                }
                i = i + 1;
            }
            out.append("]}");
            proof {
                assert(items.take(l@.len() as int) =~= items);
                assert(out@ =~= start + encode_value(v@));
            }
        },
        Value::Dict(m) => {
            out.append("{\"Dict\":[");
            let ghost head = out@;
            let ghost items = encode_entries(pairs_model(m@));
            proof {
                lemma_pairs_model(m@);
                lemma_encode_entries(pairs_model(m@));
            }
            let mut i: usize = 0;
            while i < m.len()
                invariant
                    *v == Value::Dict(*m),
                    i <= m@.len(),
                    items == encode_entries(pairs_model(m@)),
                    items.len() == m@.len(),
                    forall|j: int|
                        0 <= j < m@.len() ==> #[trigger] items[j] == seq!['['] + quoted(m@[j].0@)
                            + seq![','] + encode_value(value_model(m@[j].1)) + seq![']'],
                    out@ == head + joined(items.take(i as int)),
                decreases m@.len() - i,
            {
                proof {
                    lemma_joined_push(items, i as int);
                    let ghost w = *v;
                    assert(decreases_to!(w => w->Dict_0));
                    vstd::std_specs::vec::axiom_vec_index_decreases(w->Dict_0, i as int);
                }
                if i > 0 {
                    out.push(',');
                }
                out.push('[');
                write_quoted(out, m[i].0.as_str());
                out.push(',');
                write_value(out, &m[i].1);
                out.push(']');
                proof {
                    assert(out@ =~= head + joined(items.take(i + 1)));
                }
                i = i + 1;
            }
            out.append("]}");
            proof {
                assert(items.take(m@.len() as int) =~= items);
                assert(out@ =~= start + encode_value(v@));
            }
        },
    }
}

/// Appends the encoding of a field.
fn write_field(out: &mut String, f: &Field)
    ensures
        final(out)@ == old(out)@ + encode_field(f@),
{
    let ghost start = out@;
    out.append("{\"key\":");
    write_quoted(out, f.key.as_str());
    out.append(",\"value\":");
    write_value(out, &f.value);
    out.append("}");
    proof {
        assert(out@ =~= start + encode_field(f@));
    }
}

/// Appends the encodings of fields, separated by commas.
fn write_fields(out: &mut String, fields: &Vec<Field>)
    ensures
        final(out)@ == old(out)@ + joined(
            fields_model(fields@).map_values(|f: FieldModel| encode_field(f)),
        ),
{
    let ghost head = out@;
    let ghost items = fields_model(fields@).map_values(|f: FieldModel| encode_field(f));
    let mut i: usize = 0;
    while i < fields.len()
        invariant
            i <= fields@.len(),
            items == fields_model(fields@).map_values(|f: FieldModel| encode_field(f)),
            items.len() == fields@.len(),
            out@ == head + joined(items.take(i as int)),
        decreases fields@.len() - i,
    {
        proof {
            lemma_joined_push(items, i as int);
        }
        if i > 0 {
            out.push(',');
        }
        write_field(out, &fields[i]);
        proof {
            assert(items[i as int] == encode_field(field_model(fields@[i as int])));
            assert(out@ =~= head + joined(items.take(i + 1)));
        }
        i = i + 1;
    }
    proof {
        assert(items.take(fields@.len() as int) =~= items);
    }
}

/// Appends the encoding of a node.
pub fn write_ast(out: &mut String, a: &SentienceTokenAst)
    ensures
        final(out)@ == old(out)@ + encode_ast(a@),
    decreases a,
{
    let ghost start = out@;
    out.append("{\"ttype\":");
    write_quoted(out, a.ttype.name());
    out.append(",\"fields\":[");
    write_fields(out, &a.fields);
    out.append("],\"children\":[");
    let ghost head2 = out@;
    let ghost kids = encode_asts(asts_model(a.children@));
    proof {
        lemma_asts_model(a.children@);
        lemma_encode_asts(asts_model(a.children@));
    }
    let mut j: usize = 0;
    while j < a.children.len()
        invariant
            j <= a.children@.len(),
            kids == encode_asts(asts_model(a.children@)),
            kids.len() == a.children@.len(),
            forall|q: int| 0 <= q < a.children@.len() ==> #[trigger] kids[q] == encode_ast(ast_model(a.children@[q])),
            out@ == head2 + joined(kids.take(j as int)),
        decreases a.children@.len() - j,
    {
        proof {
            lemma_joined_push(kids, j as int);
        }
        if j > 0 {
            out.push(',');
        }
        write_ast(out, &a.children[j]);
        proof {
            assert(out@ =~= head2 + joined(kids.take(j + 1)));
        }
        j = j + 1;
    }
    out.append("]}");
    proof {
        assert(kids.take(a.children@.len() as int) =~= kids);
        assert(out@ =~= start + encode_ast(a@));
    }
}

/// The first eight bytes of the digest of `text`, in hex.
fn short_digest_hex(text: &str) -> (r: String)
    ensures
        r@ == hex_lower(sha256_of(encode_utf8(text@)).take(8)),
        r@.len() == 16,
        forall|i: int| 0 <= i < 16 ==> is_hex_digit(#[trigger] r@[i]),
{
    let digest = sha256(text.as_bytes());
    let mut prefix: Vec<u8> = Vec::new();
    let mut i: usize = 0;
    while i < 8
        invariant
            i <= 8,
            digest@.len() == 32,
            prefix@ == digest@.take(i as int),
        decreases 8 - i,
    {
        prefix.push(digest[i]);
        proof {
            assert(digest@.take(i + 1) =~= digest@.take(i as int).push(digest@[i as int]));
        }
        i = i + 1;
    }
    proof {
        lemma_hex_lower(prefix@);
    }
    hex_encode(prefix.as_slice())
}

fn prefixed(prefix: &str, h: String) -> (r: String)
    requires
        h@.len() == 16,
        forall|i: int| 0 <= i < 16 ==> is_hex_digit(#[trigger] h@[i]),
    ensures
        r@ == prefix@ + h@,
        is_hex_id(r@, prefix@),
{
    let mut r = String::from_str(prefix);
    r.append(h.as_str());
    proof {
        assert(r@.take(prefix@.len() as int) =~= prefix@);
        assert forall|i: int| prefix@.len() <= i < r@.len() implies is_hex_digit(#[trigger] r@[i]) by {
            assert(r@[i] == h@[i - prefix@.len()]);
        }
    }
    r
}

/// The content identifier of a canonical node: `mem_` and sixteen hex digits.
pub fn token_hash(canon_ast: &SentienceTokenAst) -> (r: String)
    ensures
        r@ == record_id(canon_ast@),
        is_hex_id(r@, "mem_"@),
{
    let mut text = String::new();
    text.append("{\"schema\":\"sentience/0.2\",\"ast\":");
    write_ast(&mut text, canon_ast);
    text.append("}");
    proof {
        assert(text@ =~= record_text(canon_ast@));
    }
    let h = short_digest_hex(text.as_str());
    prefixed("mem_", h)
}

/// The identifier of the relation `source_id|edge_type|target_id`:
/// `edge_` and sixteen hex digits.
pub fn edge_hash(source_id: &str, edge_type: &str, target_id: &str) -> (r: String)
    ensures
        r@ == edge_id(source_id@, edge_type@, target_id@),
        is_hex_id(r@, "edge_"@),
{
    let mut text = String::from_str(source_id);
    text.push('|');
    text.append(edge_type);
    text.push('|');
    text.append(target_id);
    proof {
        assert(text@ =~= source_id@ + seq!['|'] + edge_type@ + seq!['|'] + target_id@);
    }
    let h = short_digest_hex(text.as_str());
    prefixed("edge_", h)
}

} // verus!
