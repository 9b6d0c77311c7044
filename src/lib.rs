//! A deterministic pipeline that turns declarative "thought" descriptions into
//! canonical, content-addressed memory records, together with the small agent
//! scripting language that drives it.

pub mod text;
pub mod sentience_core;
pub mod types;
pub mod lexer;
pub mod parser;
pub mod context;
pub mod eval;
pub mod repl;

use vstd::prelude::*;
use vstd::string::StringExecFns;

use crate::context::{assoc_map, value_or_empty, AgentContext};
use crate::eval::eval;
use crate::lexer::Lexer;
use crate::parser::Parser;
use crate::text::{chars_of, string_of, trim_chars};
use crate::types::{has_input_handler, Statement};

verus! {

/// The lines of `v` joined with `\n`.
fn join_lines(v: &Vec<String>) -> (r: String) {
    let mut r = String::new();
    let mut i: usize = 0;
    while i < v.len()
        decreases v@.len() - i,
    {
        if i > 0 {
            r.push('\n');
        }
        r.append(v[i].as_str());
        i = i + 1;
    }
    r
}

/// An agent driven by scripts of the agent language.
pub struct SentienceAgent {
    ctx: AgentContext,
}

impl SentienceAgent {
    /// The agent's short-term memory.
    pub closed spec fn short(&self) -> Map<Seq<char>, Seq<char>> {
        self.ctx.short()
    }

    /// Whether a script has registered an agent.
    pub closed spec fn has_agent(&self) -> bool {
        self.ctx.has_agent()
    }

    /// Whether the registered agent has an input handler.
    pub closed spec fn has_handler(&self) -> bool {
        self.ctx.has_agent() && has_input_handler(self.ctx.agent()->0)
    }

    /// The agent's long-term memory.
    pub closed spec fn long(&self) -> Map<Seq<char>, Seq<char>> {
        self.ctx.long()
    }

    pub fn new() -> (r: Self)
        ensures
            r.short() == Map::<Seq<char>, Seq<char>>::empty(),
            r.long() == Map::<Seq<char>, Seq<char>>::empty(),
            !r.has_agent(),
    {
        SentienceAgent { ctx: AgentContext::new() }
    }

    /// Runs a script: every statement is evaluated in turn, and the printed
    /// lines come back joined with line breaks.
    pub fn run_sentience(&mut self, code: &str) -> (r: Result<String, String>)
        ensures
            r is Ok,
            final(self).long() == old(self).long(),
    {
        let c = chars_of(code);
        let trimmed = string_of(trim_chars(c.as_slice()).as_slice());
        let lexer = Lexer::new(trimmed.as_str());
        let mut parser = Parser::new(lexer);
        let program = parser.parse_program();
        let mut output: Vec<String> = Vec::new();
        let mut i: usize = 0;
        while i < program.statements.len()
            invariant
                self.ctx.long() == old(self).ctx.long(),
            decreases program.statements@.len() - i,
        {
            eval(&program.statements[i], "", "", &mut self.ctx, &mut output);
            i = i + 1;
        }
        Ok(join_lines(&output))
    }

    /// Feeds `input` to the registered agent's input handler and returns
    /// what it printed; `None` if no agent with a handler is registered.
    pub fn handle_input(&mut self, input: &str) -> (r: Option<String>)
        ensures
            r is Some <==> old(self).has_handler(),
            final(self).long() == old(self).long(),
    {
        let current = self.ctx.current_agent();
        let mut output: Vec<String> = Vec::new();
        match current {
            Some(Statement::AgentDeclaration { body, .. }) => {
                let ghost d = current->0;
                let mut i: usize = 0;
                while i < body.len()
                    invariant
                        old(self).has_agent(),
                        i <= body@.len(),
                        d == (Statement::AgentDeclaration { name: d->AgentDeclaration_name, body }),
                        has_input_handler(d) == has_input_handler(old(self).ctx.agent()->0),
                        forall|j: int| 0 <= j < i ==> !(#[trigger] body@[j] is OnInput),
                        self.ctx.long() == old(self).ctx.long(),
                        output@.len() == 0,
                    decreases body@.len() - i,
                {
                    match &body[i] {
                        Statement::OnInput { body: handler, .. } => {
                            let mut j: usize = 0;
                            while j < handler.len()
                                invariant
                                    self.ctx.long() == old(self).ctx.long(),
                                decreases handler@.len() - j,
                            {
                                eval(&handler[j], "", input, &mut self.ctx, &mut output);
                                j = j + 1;
                            }
                            return Some(join_lines(&output));
                        },
                        _ => {},
                    }
                    i = i + 1;
                }
                None
            },
            _ => {
                proof {
                    if old(self).ctx.has_agent() {
                        assert(!has_input_handler(old(self).ctx.agent()->0));
                    }
                }
                None
            },
        }
    }

    pub fn get_short(&self, key: &str) -> (r: String)
        ensures
            r@ == value_or_empty(self.short(), key@),
    {
        proof {
            reveal_strlit("short");
        }
        self.ctx.get_mem("short", key)
    }

    pub fn get_long(&self, key: &str) -> (r: String)
        ensures
            r@ == value_or_empty(self.long(), key@),
    {
        proof {
            reveal_strlit("short");
            reveal_strlit("long");
            assert("short"@.len() != "long"@.len());
        }
        self.ctx.get_mem("long", key)
    }

    pub fn set_short(&mut self, key: &str, value: &str)
        ensures
            final(self).short() == old(self).short().insert(key@, value@),
            final(self).long() == old(self).long(),
    {
        proof {
            reveal_strlit("short");
            reveal_strlit("long");
            assert("short"@.len() != "long"@.len());
        }
        self.ctx.set_mem("short", key, value);
    }

    pub fn set_long(&mut self, key: &str, value: &str)
        ensures
            final(self).long() == old(self).long().insert(key@, value@),
            final(self).short() == old(self).short(),
    {
        proof {
            reveal_strlit("short");
            reveal_strlit("long");
            assert("short"@.len() != "long"@.len());
        }
        self.ctx.set_mem("long", key, value);
    }

    /// The entries of the short-term memory.
    pub fn all_short(&self) -> (r: Vec<(String, String)>)
        ensures
            assoc_map(r@) == self.short(),
    {
        proof {
            reveal_strlit("short");
        }
        self.ctx.entries("short")
    }

    /// The entries of the long-term memory.
    pub fn all_long(&self) -> (r: Vec<(String, String)>)
        ensures
            assoc_map(r@) == self.long(),
    {
        proof {
            reveal_strlit("long");
        }
        self.ctx.entries("long")
    }
}

} // verus!
