//! The evaluator of the agent scripting language.

use vstd::prelude::*;
use vstd::string::StringExecFns;

use crate::context::AgentContext;
use crate::sentience_core::parser::find_pattern;
use crate::text::{chars_of, same_str, string_of, trim, trim_chars};
use crate::types::Statement;

verus! {

/// `s` without leading double quotes.
pub open spec fn strip_leading_quotes(s: Seq<char>) -> Seq<char>
    decreases s.len(),
{
    if s.len() > 0 && s[0] == '"' {
        strip_leading_quotes(s.drop_first())
    } else {
        s
    }
}

/// `s` without trailing double quotes.
pub open spec fn strip_trailing_quotes(s: Seq<char>) -> Seq<char>
    decreases s.len(),
{
    if s.len() > 0 && s.last() == '"' {
        strip_trailing_quotes(s.drop_last())
    } else {
        s
    }
}

/// The value of an expression: the input for `input` or `msg`, otherwise
/// the expression without surrounding double quotes.
pub open spec fn expr_value(expr: Seq<char>, input: Seq<char>) -> Seq<char> {
    if trim(expr) == "input"@ || trim(expr) == "msg"@ {
        input
    } else {
        strip_trailing_quotes(strip_leading_quotes(expr))
    }
}

/// The lines an agent declaration prints for its body: one per memory
/// declaration and one per goal.
pub open spec fn declaration_lines(body: Seq<Statement>) -> Seq<Seq<char>>
    decreases body.len(),
{
    if body.len() == 0 {
        Seq::empty()
    } else {
        let rest = declaration_lines(body.drop_last());
        match body.last() {
            Statement::MemDeclaration { target } => rest.push("  Init mem: "@ + target@),
            Statement::Goal(text) => rest.push("  Goal: \""@ + text@ + "\""@),
            _ => rest,
        }
    }
}

pub open spec fn lines_model(v: Seq<String>) -> Seq<Seq<char>> {
    v.map_values(|s: String| s@)
}

fn strip_quotes(s: &[char]) -> (r: Vec<char>)
    ensures
        r@ == strip_trailing_quotes(strip_leading_quotes(s@)),
{
    let mut start: usize = 0;
    proof {
        assert(s@.skip(0) =~= s@);
    }
    while start < s.len() && s[start] == '"'
        invariant
            start <= s@.len(),
            strip_leading_quotes(s@) == strip_leading_quotes(s@.skip(start as int)),
        decreases s@.len() - start,
    {
        proof {
            assert(s@.skip(start as int).drop_first() =~= s@.skip(start + 1));
        }
        start = start + 1;
    }
    let ghost t = s@.skip(start as int);
    let mut end: usize = s.len();
    proof {
        assert(t.take(t.len() as int) =~= t);
    }
    while end > start && s[end - 1] == '"'
        invariant
            start <= end <= s@.len(),
            t == s@.skip(start as int),
            strip_trailing_quotes(t) == strip_trailing_quotes(t.take(end - start)),
        decreases end,
    {
        proof {
            assert(t.take(end - start).drop_last() =~= t.take(end - start - 1));
        }
        end = end - 1;
    }
    let mut r: Vec<char> = Vec::new();
    let mut i: usize = start;
    while i < end
        invariant
            start <= i <= end <= s@.len(),
            r@ == s@.subrange(start as int, i as int),
        decreases end - i,
    {
        r.push(s[i]);
        proof {
            assert(s@.subrange(start as int, i + 1) =~= s@.subrange(start as int, i as int).push(
                s@[i as int],
            ));
        }
        i = i + 1;
    }
    proof {
        assert(t.take(end - start) =~= r@);
    }
    r
}

fn eval_expr(expr: &str, input: &str, _ctx: &AgentContext) -> (r: String)
    ensures
        r@ == expr_value(expr@, input@),
{
    let e = chars_of(expr);
    let t = trim_chars(e.as_slice());
    let ts = string_of(t.as_slice());
    if same_str(ts.as_str(), "input") || same_str(ts.as_str(), "msg") {
        String::from_str(input)
    } else {
        let stripped = strip_quotes(e.as_slice());
        string_of(stripped.as_slice())
    }
}

fn concat(a: &str, b: &str) -> (r: String)
    ensures
        r@ == a@ + b@,
{
    let mut r = String::from_str(a);
    r.append(b);
    r
}

/// Whether `hay` contains `needle`.
fn contains(hay: &str, needle: &str) -> (r: bool) {
    let h = chars_of(hay);
    let n = chars_of(needle);
    find_pattern(h.as_slice(), n.as_slice()).is_some()
}

/// Evaluates one statement: prints go to `output` (each line prefixed with
/// `indent`), assignments and input handlers write short-term memory, an
/// agent declaration registers the agent.
pub fn eval(stmt: &Statement, indent: &str, input: &str, ctx: &mut AgentContext, output: &mut Vec<String>)
    ensures
        match stmt {
            Statement::Print(text) => {
                &&& lines_model(final(output)@) == lines_model(old(output)@).push(indent@ + text@)
                &&& final(ctx).short() == old(ctx).short()
            },
            Statement::Unknown(text) => {
                &&& lines_model(final(output)@) == lines_model(old(output)@).push(
                    indent@ + "Unknown statement: "@ + text@,
                )
                &&& final(ctx).short() == old(ctx).short()
            },
            Statement::Assignment(name, expr) => if name@ == "output"@ {
                &&& lines_model(final(output)@) == lines_model(old(output)@).push(
                    expr_value(expr@, input@),
                )
                &&& final(ctx).last_output() == Some(expr_value(expr@, input@))
                &&& final(ctx).short() == old(ctx).short()
            } else {
                &&& lines_model(final(output)@) == lines_model(old(output)@)
                &&& final(ctx).short() == old(ctx).short().insert(name@, expr_value(expr@, input@))
            },
            Statement::ReflectAccess { mem_target, key } => {
                let v = if mem_target@ == "short"@ {
                    crate::context::value_or_empty(old(ctx).short(), key@)
                } else if mem_target@ == "long"@ {
                    crate::context::value_or_empty(old(ctx).long(), key@)
                } else {
                    Seq::empty()
                };
                &&& lines_model(final(output)@) == lines_model(old(output)@).push(indent@ + v)
                &&& final(ctx).last_output() == Some(v)
                &&& final(ctx).short() == old(ctx).short()
            },
            Statement::AgentDeclaration { name, body } => {
                &&& lines_model(final(output)@) == lines_model(old(output)@).push(
                    "Agent: "@ + name@,
                ) + declaration_lines(body@) + seq!["Agent: "@ + name@ + " [registered]"@]
                &&& final(ctx).has_agent()
                &&& final(ctx).short() == old(ctx).short()
            },
            Statement::MemDeclaration { .. } | Statement::Train { .. } | Statement::Evolve { .. }
            | Statement::Goal(_) | Statement::Embed { .. } => {
                &&& lines_model(final(output)@) == lines_model(old(output)@)
                &&& final(ctx).short() == old(ctx).short()
            },
            _ => true,
        },
        final(ctx).long() == old(ctx).long(),
        !(stmt is AgentDeclaration || stmt is OnInput || stmt is Reflect
            || stmt is IfContextIncludes) ==> final(ctx).agent() == old(ctx).agent(),
    decreases stmt,
{
    let ghost start = lines_model(output@);
    match stmt {
        Statement::AgentDeclaration { name, body } => {
            output.push(concat("Agent: ", name.as_str()));
            let ghost head = start.push("Agent: "@ + name@);
            let mut i: usize = 0;
            while i < body.len()
                invariant
                    i <= body@.len(),
                    lines_model(output@) == head + declaration_lines(body@.take(i as int)),
                    ctx.short() == old(ctx).short(),
                    ctx.long() == old(ctx).long(),
                decreases body@.len() - i,
            {
                let ghost before = lines_model(output@);
                match &body[i] {
                    Statement::MemDeclaration { target } => {
                        output.push(concat("  Init mem: ", target.as_str()));
                        proof {
                            assert(lines_model(output@) =~= before.push("  Init mem: "@ + target@));
                        }
                    },
                    Statement::Goal(text) => {
                        let line = concat("  Goal: \"", text.as_str());
                        output.push(concat(line.as_str(), "\""));
                        proof {
                            assert(lines_model(output@) =~= before.push(
                                "  Goal: \""@ + text@ + "\""@,
                            ));
                        }
                    },
                    _ => {},
                }
                proof {
                    let t = body@.take(i + 1);
                    assert(t.drop_last() =~= body@.take(i as int));
                    assert(t.last() == body@[i as int]);
                    assert(declaration_lines(t) == match body@[i as int] {
                        Statement::MemDeclaration { target } => declaration_lines(
                            body@.take(i as int),
                        ).push("  Init mem: "@ + target@),
                        Statement::Goal(text) => declaration_lines(body@.take(i as int)).push(
                            "  Goal: \""@ + text@ + "\""@,
                        ),
                        _ => declaration_lines(body@.take(i as int)),
                    });
                    assert(lines_model(output@) =~= head + declaration_lines(t));
                }
                i = i + 1;
            }
            proof {
                assert(body@.take(body@.len() as int) =~= body@);
            }
            ctx.set_current_agent(stmt.clone());
            let line = concat("Agent: ", name.as_str());
            let ghost mid = lines_model(output@);
            output.push(concat(line.as_str(), " [registered]"));
            proof {
                assert(lines_model(output@) =~= mid.push("Agent: "@ + name@ + " [registered]"@));
                assert(mid + seq!["Agent: "@ + name@ + " [registered]"@] =~= mid.push(
                    "Agent: "@ + name@ + " [registered]"@,
                ));
            }
        },
        Statement::MemDeclaration { .. } => {},
        Statement::OnInput { param, body } => {
            proof {
                reveal_strlit("short");
                reveal_strlit("long");
                assert("short"@.len() != "long"@.len());
            }
            ctx.set_mem("short", param.as_str(), input);
            let mut i: usize = 0;
            while i < body.len()
                invariant
                    *stmt == (Statement::OnInput { param: *param, body: *body }),
                    ctx.long() == old(ctx).long(),
                decreases body@.len() - i,
            {
                proof {
                    let ghost w = *stmt;
                    assert(decreases_to!(w => w->OnInput_body));
                    vstd::std_specs::vec::axiom_vec_index_decreases(w->OnInput_body, i as int);
                }
                eval(&body[i], indent, input, ctx, output);
                i = i + 1;
            }
        },
        Statement::Reflect { body } => {
            let nested = concat(indent, "  ");
            let mut i: usize = 0;
            while i < body.len()
                invariant
                    *stmt == (Statement::Reflect { body: *body }),
                    ctx.long() == old(ctx).long(),
                decreases body@.len() - i,
            {
                proof {
                    let ghost w = *stmt;
                    assert(decreases_to!(w => w->Reflect_body));
                    vstd::std_specs::vec::axiom_vec_index_decreases(w->Reflect_body, i as int);
                }
                eval(&body[i], nested.as_str(), input, ctx, output);
                i = i + 1;
            }
        },
        Statement::ReflectAccess { mem_target, key } => {
            let val = ctx.get_mem(mem_target.as_str(), key.as_str());
            ctx.set_output(val.clone());
            output.push(concat(indent, val.as_str()));
            proof {
                assert(lines_model(output@) =~= start.push(indent@ + val@));
            }
        },
        Statement::Train { .. } => {},
        Statement::Evolve { .. } => {},
        Statement::Goal(_) => {},
        Statement::Embed { .. } => {},
        Statement::IfContextIncludes { values, body } => {
            let current_val = ctx.get_mem("short", "msg");
            let mut j: usize = 0;
            let mut matched = false;
            while j < values.len() && !matched
                decreases values@.len() - j + (if matched { 0int } else { 1int }),
            {
                if contains(current_val.as_str(), values[j].as_str()) {
                    matched = true;
                } else {
                    j = j + 1;
                }
            }
            if matched {
                let mut i: usize = 0;
                while i < body.len()
                    invariant
                        *stmt == (Statement::IfContextIncludes { values: *values, body: *body }),
                        ctx.long() == old(ctx).long(),
                    decreases body@.len() - i,
                {
                    proof {
                        let ghost w = *stmt;
                        assert(decreases_to!(w => w->IfContextIncludes_body));
                        vstd::std_specs::vec::axiom_vec_index_decreases(
                            w->IfContextIncludes_body,
                            i as int,
                        );
                    }
                    eval(&body[i], indent, input, ctx, output);
                    i = i + 1;
                }
            }
        },
        Statement::Print(text) => {
            output.push(concat(indent, text.as_str()));
            proof {
                assert(lines_model(output@) =~= start.push(indent@ + text@));
            }
        },
        Statement::Assignment(name, expr) => {
            let val = eval_expr(expr.as_str(), input, ctx);
            if same_str(name.as_str(), "output") {
                ctx.set_output(val.clone());
                output.push(val);
                proof {
                    assert(lines_model(output@) =~= start.push(expr_value(expr@, input@)));
                }
            } else {
                proof {
                    reveal_strlit("short");
                    reveal_strlit("long");
                    assert("short"@.len() != "long"@.len());
                }
                ctx.set_mem("short", name.as_str(), val.as_str());
            }
        },
        Statement::Unknown(text) => {
            let line = concat(indent, "Unknown statement: ");
            output.push(concat(line.as_str(), text.as_str()));
            proof {
                assert(lines_model(output@) =~= start.push(indent@ + "Unknown statement: "@ + text@));
            }
        },
    }
}

} // verus!
