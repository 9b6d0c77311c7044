//! The thought front end: one node from the first line that describes one.
//! `agent NAME` gives a self-model, `embed SOURCE -> TARGET` a text percept,
//! and `reflect {...}` a reflection over recall, reframe and consolidate.
//! Blank lines and `//` comments are skipped; other lines are ignored.

use vstd::prelude::*;
use vstd::string::StringExecFns;

use crate::sentience_core::ast::{
    FieldModel, SentienceTokenAst, Span, ThoughtType, Value, ValueModel, AstModel, values_model,
    lemma_values_model,
};
use crate::text::{chars_of, string_of, trim, trim_chars};

verus! {

/// `s` without one trailing carriage return.
pub open spec fn strip_cr(s: Seq<char>) -> Seq<char> {
    if s.len() > 0 && s.last() == '\r' {
        s.drop_last()
    } else {
        s
    }
}

/// The position of the first occurrence of `pat` in `s` at or after `from`.
pub open spec fn find_from(s: Seq<char>, pat: Seq<char>, from: int) -> Option<int>
    decreases s.len() + 1 - from,
{
    if from < 0 || from + pat.len() > s.len() {
        None
    } else if s.subrange(from, from + pat.len()) == pat {
        Some(from)
    } else {
        find_from(s, pat, from + 1)
    }
}

/// The lines of `s`, split at `\n`, each without a trailing `\r`; a final
/// line break does not start an empty line (as `str::lines` does).
pub open spec fn split_lines(s: Seq<char>) -> Seq<Seq<char>>
    decreases s.len(),
{
    if s.len() == 0 {
        Seq::empty()
    } else {
        match find_from(s, seq!['\n'], 0) {
            Some(i) => if 0 <= i < s.len() {
                seq![strip_cr(s.take(i))] + split_lines(s.skip(i + 1))
            } else {
                seq![strip_cr(s)]
            },
            None => seq![strip_cr(s)],
        }
    }
}

pub open spec fn starts_with(s: Seq<char>, pre: Seq<char>) -> bool {
    s.len() >= pre.len() && s.take(pre.len() as int) == pre
}

pub open spec fn text_field(key: Seq<char>, value: Seq<char>) -> FieldModel {
    FieldModel { key, value: ValueModel::Str(value) }
}

/// The span of trimmed line `t` on line `n` (counted from 1).
pub open spec fn line_span(n: int, t: Seq<char>) -> Span {
    Span { line: n as usize, col: 1, end_line: n as usize, end_col: t.len() as usize }
}

/// The operations of a reflection block.
pub open spec fn reflect_ops() -> ValueModel {
    ValueModel::List(
        seq![ValueModel::Str("recall"@), ValueModel::Str("reframe"@), ValueModel::Str("consolidate"@)],
    )
}

/// The node that the trimmed line `t`, line `n` of the input, describes, if any.
pub open spec fn line_node(t: Seq<char>, n: int) -> Option<AstModel> {
    let span = line_span(n, t);
    if t.len() == 0 || starts_with(t, "//"@) {
        None
    } else if starts_with(t, "agent "@) {
        Some(AstModel {
            ttype: ThoughtType::SelfModel,
            fields: seq![text_field("name"@, t.skip("agent "@.len() as int))],
            children: Seq::empty(),
            span,
        })
    } else if starts_with(t, "embed "@) {
        let rest = t.skip("embed "@.len() as int);
        let arrow = " -> "@;
        match find_from(rest, arrow, 0) {
            Some(p) => if find_from(rest.skip(p + arrow.len()), arrow, 0) is None {
                Some(AstModel {
                    ttype: ThoughtType::Percept,
                    fields: seq![
                        text_field("modality"@, "text"@),
                        text_field("content"@, rest.take(p)),
                        text_field("target"@, rest.skip(p + arrow.len())),
                    ],
                    children: Seq::empty(),
                    span,
                })
            } else {
                None
            },
            None => None,
        }
    } else if starts_with(t, "reflect {"@) {
        Some(AstModel {
            ttype: ThoughtType::Reflection,
            fields: seq![FieldModel { key: "ops"@, value: reflect_ops() }],
            children: Seq::empty(),
            span,
        })
    } else {
        None
    }
}

/// The node of the first line, from line `k` on, that describes one.
pub open spec fn first_node(lines: Seq<Seq<char>>, k: int) -> Option<AstModel>
    decreases lines.len() - k,
{
    if k < 0 || k >= lines.len() {
        None
    } else {
        match line_node(trim(lines[k]), k + 1) {
            Some(a) => Some(a),
            None => first_node(lines, k + 1),
        }
    }
}

/// Whether `s` starts with `pre`.
fn starts_with_chars(s: &[char], pre: &[char]) -> (r: bool)
    ensures
        r == starts_with(s@, pre@),
{
    if s.len() < pre.len() {
        return false;
    }
    let mut i: usize = 0;
    while i < pre.len()
        invariant
            i <= pre@.len(),
            pre@.len() <= s@.len(),
            forall|j: int| 0 <= j < i ==> s@[j] == pre@[j],
        decreases pre@.len() - i,
    {
        if s[i] != pre[i] {
            proof {
                assert(s@.take(pre@.len() as int)[i as int] != pre@[i as int]);
            }
            return false;
        }
        i = i + 1;
    }
    proof {
        assert(s@.take(pre@.len() as int) =~= pre@);
    }
    true
}

/// The characters of `s` from position `from` on.
fn chars_from(s: &[char], from: usize) -> (r: Vec<char>)
    requires
        from <= s@.len(),
    ensures
        r@ == s@.skip(from as int),
{
    let mut r: Vec<char> = Vec::new();
    let mut i: usize = from;
    while i < s.len()
        invariant
            from <= i <= s@.len(),
            r@ == s@.subrange(from as int, i as int),
        decreases s@.len() - i,
    {
        r.push(s[i]);
        proof {
            assert(s@.subrange(from as int, i + 1) =~= s@.subrange(from as int, i as int).push(
                s@[i as int],
            ));
        }
        i = i + 1;
    }
    r
}

/// The characters of `s` before position `to`.
fn chars_to(s: &[char], to: usize) -> (r: Vec<char>)
    requires
        to <= s@.len(),
    ensures
        r@ == s@.take(to as int),
{
    let mut r: Vec<char> = Vec::new();
    let mut i: usize = 0;
    while i < to
        invariant
            i <= to <= s@.len(),
            r@ == s@.take(i as int),
        decreases to - i,
    {
        r.push(s[i]);
        proof {
            assert(s@.take(i + 1) =~= s@.take(i as int).push(s@[i as int]));
        }
        i = i + 1;
    }
    r
}

/// The position of the first occurrence of `pat` in `s`.
pub fn find_pattern(s: &[char], pat: &[char]) -> (r: Option<usize>)
    ensures
        match r {
            Some(i) => find_from(s@, pat@, 0) == Some(i as int) && i + pat@.len() <= s@.len(),
            None => find_from(s@, pat@, 0) is None,
        },
{
    if pat.len() > s.len() {
        return None;
    }
    if pat.len() == 0 {
        proof {
            assert(s@.subrange(0, 0) =~= pat@);
        }
        return Some(0);
    }
    let mut i: usize = 0;
    let last = s.len() - pat.len();
    while i <= last
        invariant
            last == s@.len() - pat@.len(),
            0 < pat@.len() <= s@.len(),
            s@.len() == s.len(),
            i <= s@.len() - pat@.len() + 1,
            find_from(s@, pat@, 0) == find_from(s@, pat@, i as int),
        decreases s@.len() + 1 - i,
    {
        let mut j: usize = 0;
        let mut same = true;
        while j < pat.len() && same
            invariant
                i <= last,
                last == s@.len() - pat@.len(),
                0 < pat@.len() <= s@.len(),
                s@.len() == s.len(),
                j <= pat@.len(),
                same ==> forall|q: int| 0 <= q < j ==> s@[i + q] == pat@[q],
                !same ==> s@.subrange(i as int, i + pat@.len()) != pat@,
            decreases pat@.len() - j + (if same { 1int } else { 0int }),
        {
            if s[i + j] != pat[j] {
                same = false;
                proof {
                    assert(s@.subrange(i as int, i + pat@.len())[j as int] != pat@[j as int]);
                }
            } else {
                j = j + 1;
            }
        }
        if same {
            proof {
                assert(s@.subrange(i as int, i + pat@.len()) =~= pat@);
            }
            return Some(i);
        }
        i = i + 1;
    }
    None
}

fn text_value(key: &str, value: &[char]) -> (r: (String, Value))
    ensures
        r.0@ == key@,
        r.1@ == ValueModel::Str(value@),
{
    (String::from_str(key), Value::Str(string_of(value)))
}

/// The node that the trimmed line `t`, line `n` of the input, describes.
fn parse_line(t: &[char], n: usize) -> (r: Option<SentienceTokenAst>)
    ensures
        match r {
            Some(a) => line_node(t@, n as int) == Some(a@),
            None => line_node(t@, n as int) is None,
        },
{
    let span = Span { line: n, col: 1, end_line: n, end_col: t.len() };
    let comment = chars_of("//");
    let agent = chars_of("agent ");
    let embed = chars_of("embed ");
    let reflect = chars_of("reflect {");
    if t.len() == 0 || starts_with_chars(t, comment.as_slice()) {
        None
    } else if starts_with_chars(t, agent.as_slice()) {
        let name = chars_from(t, agent.len());
        let (k, v) = text_value("name", name.as_slice());
        let node = SentienceTokenAst::new(ThoughtType::SelfModel, span).with_field(k, v);
        proof {
            assert(node@.fields =~= seq![text_field("name"@, t@.skip("agent "@.len() as int))]);
            assert(node@.children =~= Seq::<AstModel>::empty());
        }
        Some(node)
    } else if starts_with_chars(t, embed.as_slice()) {
        let rest = chars_from(t, embed.len());
        let arrow = chars_of(" -> ");
        match find_pattern(rest.as_slice(), arrow.as_slice()) {
            Some(p) => {
                let after = chars_from(rest.as_slice(), p + arrow.len());
                if find_pattern(after.as_slice(), arrow.as_slice()).is_none() {
                    let before = chars_to(rest.as_slice(), p);
                    let text = chars_of("text");
                    let (k1, v1) = text_value("modality", text.as_slice());
                    let (k2, v2) = text_value("content", before.as_slice());
                    let (k3, v3) = text_value("target", after.as_slice());
                    let node = SentienceTokenAst::new(ThoughtType::Percept, span).with_field(
                        k1,
                        v1,
                    ).with_field(k2, v2).with_field(k3, v3);
                    proof {
                        assert(node@.fields =~= seq![
                            text_field("modality"@, "text"@),
                            text_field("content"@, rest@.take(p as int)),
                            text_field("target"@, rest@.skip(p + " -> "@.len())),
                        ]);
                        assert(node@.children =~= Seq::<AstModel>::empty());
                    }
                    Some(node)
                } else {
                    None
                }
            },
            None => None,
        }
    } else if starts_with_chars(t, reflect.as_slice()) {
        let mut ops: Vec<Value> = Vec::new();
        ops.push(Value::Str(String::from_str("recall")));
        ops.push(Value::Str(String::from_str("reframe")));
        ops.push(Value::Str(String::from_str("consolidate")));
        let node = SentienceTokenAst::new(ThoughtType::Reflection, span).with_field(
            String::from_str("ops"),
            Value::List(ops),
        );
        proof {
            lemma_values_model(ops@);
            assert(values_model(ops@) =~= seq![
                ValueModel::Str("recall"@),
                ValueModel::Str("reframe"@),
                ValueModel::Str("consolidate"@),
            ]);
            assert(node@.fields =~= seq![FieldModel { key: "ops"@, value: reflect_ops() }]);
            assert(node@.children =~= Seq::<AstModel>::empty());
        }
        Some(node)
    } else {
        None
    }
}

/// The node of the first line of `src` that describes one; a parse error if
/// no line does.
pub fn parse_program(src: &str) -> (r: Result<SentienceTokenAst, String>)
    ensures
        match first_node(split_lines(src@), 0) {
            Some(a) => r matches Ok(n) && n@ == a,
            None => r matches Err(e) && e@ == "No valid tokens found in input"@,
        },
{
    let s = chars_of(src);
    let ghost all = split_lines(s@);
    let mut newline: Vec<char> = Vec::new();
    newline.push('\n');
    let mut rest = chars_from(s.as_slice(), 0);
    let mut line_no: usize = 0;
    let ghost mut prefix: Seq<Seq<char>> = Seq::empty();
    let total = s.len();
    proof {
        assert(s@.skip(0) =~= s@);
        assert(prefix + split_lines(rest@) =~= all);
    }
    while rest.len() > 0
        invariant
            all == split_lines(src@),
            newline@ == seq!['\n'],
            prefix + split_lines(rest@) == all,
            prefix.len() == line_no,
            line_no + rest@.len() <= s@.len(),
            s@.len() == total,
            first_node(all, 0) == first_node(all, line_no as int),
        decreases rest@.len(),
    {
        let ghost old_rest = rest@;
        let (mut line, next) = match find_pattern(rest.as_slice(), newline.as_slice()) {
            Some(i) => (chars_to(rest.as_slice(), i), chars_from(rest.as_slice(), i + 1)),
            None => (chars_from(rest.as_slice(), 0), Vec::new()),
        };
        proof {
            assert(old_rest.skip(0) =~= old_rest);
        }
        if line.len() > 0 && line[line.len() - 1] == '\r' {
            line.pop();
        }
        proof {
            assert(split_lines(old_rest) =~= seq![line@] + split_lines(next@));
            assert(all[line_no as int] == line@);
        }
        let t = trim_chars(line.as_slice());
        match parse_line(t.as_slice(), line_no + 1) {
            Some(node) => {
                return Ok(node);
            },
            None => {},
        }
        proof {
            prefix = prefix.push(line@);
            assert(prefix + split_lines(next@) =~= all);
        }
        rest = next;
        line_no = line_no + 1;
    }
    proof {
        assert(prefix =~= all);
    }
    Err(String::from_str("No valid tokens found in input"))
}

} // verus!
