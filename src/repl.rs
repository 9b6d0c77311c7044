//! The decisions of the interactive shell: how deep a line nests braces,
//! and what a `.command` does to a registered agent.

use vstd::prelude::*;
use vstd::string::StringExecFns;

use crate::context::AgentContext;
use crate::eval::eval;
use crate::text::{chars_of, same_str, string_of, trim, trim_chars};
use crate::types::Statement;

verus! {

/// The number of `c` in `s`.
pub open spec fn count_char(s: Seq<char>, c: char) -> nat
    decreases s.len(),
{
    if s.len() == 0 {
        0
    } else {
        count_char(s.drop_last(), c) + if s.last() == c {
            1nat
        } else {
            0nat
        }
    }
}

/// How many `{` and `}` a line holds.
pub fn brace_counts(line: &str) -> (r: (usize, usize))
    ensures
        r.0 == count_char(line@, '{'),
        r.1 == count_char(line@, '}'),
{
    let cs = chars_of(line);
    let mut open: usize = 0;
    let mut close: usize = 0;
    let mut i: usize = 0;
    while i < cs.len()
        invariant
            i <= cs@.len(),
            cs@ == line@,
            open == count_char(cs@.take(i as int), '{'),
            close == count_char(cs@.take(i as int), '}'),
            open <= i,
            close <= i,
        decreases cs@.len() - i,
    {
        proof {
            assert(cs@.take(i + 1).drop_last() =~= cs@.take(i as int));
        }
        if cs[i] == '{' {
            open = open + 1;
        } else if cs[i] == '}' {
            close = close + 1;
        }
        i = i + 1;
    }
    proof {
        assert(cs@.take(cs@.len() as int) =~= cs@);
    }
    (open, close)
}

fn text_after(cs: &Vec<char>, from: usize) -> (r: String)
    requires
        from <= cs@.len(),
    ensures
        r@ == cs@.skip(from as int),
{
    let mut part: Vec<char> = Vec::new();
    let mut i: usize = from;
    while i < cs.len()
        invariant
            from <= i <= cs@.len(),
            part@ == cs@.subrange(from as int, i as int),
        decreases cs@.len() - i,
    {
        part.push(cs[i]);
        proof {
            assert(cs@.subrange(from as int, i + 1) =~= cs@.subrange(from as int, i as int).push(
                cs@[i as int],
            ));
        }
        i = i + 1;
    }
    string_of(part.as_slice())
}

/// The position of the first space in `s` at or after `i`, or its length.
pub open spec fn first_space(s: Seq<char>, i: int) -> int
    decreases s.len() - i,
{
    if i >= s.len() {
        s.len() as int
    } else if s[i] == ' ' {
        i
    } else {
        first_space(s, i + 1)
    }
}

/// Where the command name starts: after a leading `.`, if any.
pub open spec fn command_start(s: Seq<char>) -> int {
    if s.len() > 0 && s[0] == '.' {
        1
    } else {
        0
    }
}

/// Splits `.cmd rest` into the command and the trimmed rest.
pub fn split_command(line: &str) -> (r: (String, String))
    ensures
        ({
            let s = line@;
            let sp = first_space(s, command_start(s));
            &&& r.0@ == s.subrange(command_start(s), sp)
            &&& r.1@ == if sp < s.len() {
                trim(s.skip(sp + 1))
            } else {
                Seq::<char>::empty()
            }
        }),
{
    let cs = chars_of(line);
    let start: usize = if cs.len() > 0 && cs[0] == '.' { 1 } else { 0 };
    let mut i: usize = start;
    while i < cs.len() && cs[i] != ' '
        invariant
            start <= i <= cs@.len(),
            cs@ == line@,
            start == command_start(cs@),
            first_space(cs@, start as int) == first_space(cs@, i as int),
        decreases cs@.len() - i,
    {
        i = i + 1;
    }
    let mut cmd: Vec<char> = Vec::new();
    let mut j: usize = start;
    while j < i
        invariant
            start <= j <= i <= cs@.len(),
            cmd@ == cs@.subrange(start as int, j as int),
        decreases i - j,
    {
        cmd.push(cs[j]);
        proof {
            assert(cs@.subrange(start as int, j + 1) =~= cs@.subrange(start as int, j as int).push(
                cs@[j as int],
            ));
        }
        j = j + 1;
    }
    let rest = if i < cs.len() {
        let r = text_after(&cs, i + 1);
        let rc = chars_of(r.as_str());
        string_of(trim_chars(rc.as_slice()).as_slice())
    } else {
        String::new()
    };
    (string_of(cmd.as_slice()), rest)
}

fn run_body(body: &Vec<Statement>, input: &str, ctx: &mut AgentContext, out: &mut Vec<String>) {
    let mut i: usize = 0;
    while i < body.len()
        decreases body@.len() - i,
    {
        eval(&body[i], "  ", input, ctx, out);
        i = i + 1;
    }
}

/// Runs a shell command (`.input TEXT`, `.train TEXT`, `.evolve TEXT`)
/// against the registered agent and returns the lines to show. The text is
/// stored in short-term memory (under the handler's parameter for `input`,
/// under `msg` otherwise) before the block runs.
pub fn handle_command(line: &str, ctx: &mut AgentContext) -> (r: Vec<String>)
    ensures
        !old(ctx).has_agent() ==> r@.len() == 1 && r@[0]@ == "No agent registered."@,
{
    let (cmd, input_value) = split_command(line);
    let mut out: Vec<String> = Vec::new();
    match ctx.current_agent() {
        None => {
            out.push(String::from_str("No agent registered."));
            out
        },
        Some(Statement::AgentDeclaration { body, .. }) => {
            let mut i: usize = 0;
            while i < body.len()
                invariant
                    old(ctx).has_agent(),
                decreases body@.len() - i,
            {
                match &body[i] {
                    Statement::OnInput { param, body: handler } => {
                        if same_str(cmd.as_str(), "input") {
                            ctx.set_mem("short", param.as_str(), input_value.as_str());
                            run_body(handler, input_value.as_str(), ctx, &mut out);
                            return out;
                        }
                    },
                    Statement::Train { body: block } => {
                        if same_str(cmd.as_str(), "train") {
                            ctx.set_mem("short", "msg", input_value.as_str());
                            run_body(block, input_value.as_str(), ctx, &mut out);
                            return out;
                        }
                    },
                    Statement::Evolve { body: block } => {
                        if same_str(cmd.as_str(), "evolve") {
                            ctx.set_mem("short", "msg", input_value.as_str());
                            run_body(block, input_value.as_str(), ctx, &mut out);
                            return out;
                        }
                    },
                    _ => {},
                }
                i = i + 1;
            }
            if same_str(cmd.as_str(), "input") {
                out.push(String::from_str("Agent has no on input handler."));
            } else {
                let mut msg = String::from_str("Agent has no ");
                msg.append(cmd.as_str());
                msg.append(" block.");
                out.push(msg);
            }
            out
        },
        Some(_) => out,
    }
}

} // verus!
