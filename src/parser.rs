//! The recursive-descent parser of the agent scripting language.

use vstd::prelude::*;
use vstd::string::StringExecFns;

use crate::lexer::{tokenize, Lexer, Token, TokenType};
use crate::types::{Program, Statement};
use crate::text::same_str;

verus! {

/// Reads statements from the tokens of a script.
pub struct Parser {
    tokens: Vec<Token>,
    pos: usize,
    eof: Token,
}

impl Parser {
    pub closed spec fn wf(&self) -> bool {
        &&& self.pos <= self.tokens@.len()
        &&& self.eof.token_type == TokenType::Eof
        &&& forall|i: int|
            0 <= i < self.tokens@.len() ==> (#[trigger] self.tokens@[i]).token_type != TokenType::Eof
    }

    /// The tokens not yet consumed, counting the current one.
    pub closed spec fn remaining(&self) -> nat {
        (self.tokens@.len() - self.pos) as nat
    }

    /// The position of the current token.
    pub closed spec fn at(&self) -> int {
        self.pos as int
    }

    /// The kind of the token at position `i` (`Eof` past the end).
    pub closed spec fn type_at(&self, i: int) -> TokenType {
        if 0 <= i < self.tokens@.len() {
            self.tokens@[i].token_type
        } else {
            TokenType::Eof
        }
    }

    /// The text of the token at position `i` (that of `Eof` past the end).
    pub closed spec fn lit_at(&self, i: int) -> Seq<char> {
        if 0 <= i < self.tokens@.len() {
            self.tokens@[i].literal@
        } else {
            self.eof.literal@
        }
    }

    /// The position after `i`: one further unless at the end.
    pub closed spec fn after(&self, i: int) -> int {
        if i < self.tokens@.len() {
            i + 1
        } else {
            i
        }
    }

    pub closed spec fn mem_post(&self, r: Option<Statement>) -> bool {
        let q1 = self.after(self.at());
        r matches Some(Statement::MemDeclaration { target }) && target@ == self.lit_at(q1)
    }

    pub closed spec fn goal_post(&self, r: Option<Statement>) -> bool {
        let q1 = self.after(self.at());
        let q2 = self.after(q1);
        &&& (r is Some <==> self.type_at(q1) == TokenType::Colon && self.type_at(q2)
            == TokenType::String)
        &&& r matches Some(st) ==> (st matches Statement::Goal(g) && g@ == self.lit_at(q2))
    }

    pub closed spec fn print_post(&self, r: Option<Statement>) -> bool {
        let q1 = self.after(self.at());
        &&& (r is Some <==> self.type_at(q1) == TokenType::String)
        &&& r matches Some(st) ==> (st matches Statement::Print(t) && t@ == self.lit_at(q1))
    }

    pub closed spec fn embed_post(&self, r: Option<Statement>) -> bool {
        let q1 = self.after(self.at());
        let q2 = self.after(q1);
        let q3 = self.after(q2);
        let q4 = self.after(q3);
        let q5 = self.after(q4);
        &&& (r is Some <==> self.type_at(q2) == TokenType::Arrow)
        &&& r matches Some(st) ==> (st matches Statement::Embed { source, target }
            && source@ == self.lit_at(q1) && target@ == if self.type_at(q4)
            == TokenType::Dot {
            self.lit_at(q3) + seq!['.'] + self.lit_at(q5)
        } else {
            self.lit_at(q3)
        })
    }

    pub closed spec fn agent_post(&self, r: Option<Statement>) -> bool {
        let q1 = self.after(self.at());
        &&& (r is Some <==> self.type_at(q1 + 1) == TokenType::LBrace)
        &&& r matches Some(st) ==> (st matches Statement::AgentDeclaration { name, .. } && name@
            == self.lit_at(q1))
    }

    pub closed spec fn on_input_post(&self, r: Option<Statement>) -> bool {
        let q1 = self.after(self.at());
        let q2 = self.after(q1);
        let q3 = self.after(q2);
        let q4 = self.after(q3);
        let q5 = self.after(q4);
        &&& (r is Some <==> self.type_at(q1) == TokenType::Input && self.type_at(q2)
            == TokenType::LParen && self.type_at(q4) == TokenType::RParen && self.type_at(q5)
            == TokenType::LBrace)
        &&& r matches Some(st) ==> (st matches Statement::OnInput { param, .. } && param@
            == self.lit_at(q3))
    }

    pub closed spec fn train_post(&self, r: Option<Statement>) -> bool {
        let q1 = self.after(self.at());
        &&& (r is Some <==> self.type_at(q1) == TokenType::LBrace)
        &&& r matches Some(st) ==> st is Train
    }

    pub closed spec fn evolve_post(&self, r: Option<Statement>) -> bool {
        let q1 = self.after(self.at());
        &&& (r is Some <==> self.type_at(q1) == TokenType::LBrace)
        &&& r matches Some(st) ==> st is Evolve
    }

    pub closed spec fn if_post(&self, r: Option<Statement>) -> bool {
        let q1 = self.after(self.at());
        let q2 = self.after(q1);
        let q3 = self.after(q2);
        r matches Some(st) ==> {
            &&& st is IfContextIncludes
            &&& self.type_at(q1) == TokenType::Ident && self.lit_at(q1) == "context"@
            &&& self.type_at(q2) == TokenType::Ident && self.lit_at(q2) == "includes"@
            &&& self.type_at(q3) == TokenType::LBracket
        }
    }

    pub closed spec fn cur_type(&self) -> TokenType {
        if self.pos < self.tokens@.len() {
            self.tokens@[self.pos as int].token_type
        } else {
            TokenType::Eof
        }
    }

    /// A parser over all the tokens of the lexer's script.
    pub fn new(lexer: Lexer) -> (r: Self)
        requires
            lexer.wf(),
        ensures
            r.wf(),
    {
        let mut lexer = lexer;
        let tokens = tokenize(&mut lexer);
        Parser { tokens, pos: 0, eof: Token::new(TokenType::Eof, "") }
    }

    fn cur(&self) -> (r: &Token)
        requires
            self.wf(),
        ensures
            r.token_type == self.cur_type(),
            r.literal@ == self.lit_at(self.pos as int),
    {
        if self.pos < self.tokens.len() {
            &self.tokens[self.pos]
        } else {
            &self.eof
        }
    }

    fn peek(&self) -> (r: &Token)
        requires
            self.wf(),
        ensures
            r.token_type == self.type_at(self.pos + 1),
            r.literal@ == self.lit_at(self.pos + 1),
    {
        if self.pos < self.tokens.len() && self.pos + 1 < self.tokens.len() {
            &self.tokens[self.pos + 1]
        } else {
            &self.eof
        }
    }

    fn cur_is(&self, t: TokenType) -> (r: bool)
        requires
            self.wf(),
        ensures
            r == (self.cur_type() == t),
    {
        self.cur().token_type == t
    }

    fn peek_is(&self, t: TokenType) -> (r: bool)
        requires
            self.wf(),
        ensures
            r == (self.type_at(self.pos + 1) == t),
    {
        self.peek().token_type == t
    }

    fn cur_literal(&self) -> (r: String)
        requires
            self.wf(),
        ensures
            r@ == self.lit_at(self.pos as int),
    {
        self.cur().literal.clone()
    }

    fn next_token(&mut self)
        requires
            old(self).wf(),
        ensures
            final(self).wf(),
            final(self).tokens == old(self).tokens,
            final(self).eof == old(self).eof,
            old(self).cur_type() != TokenType::Eof ==> final(self).pos == old(self).pos + 1,
            final(self).pos >= old(self).pos,
            final(self).pos == old(self).after(old(self).pos as int),
            final(self).eof == old(self).eof,
    {
        if self.pos < self.tokens.len() {
            self.pos = self.pos + 1;
        }
    }

    /// All statements up to the end of the script, which it consumes.
    pub fn parse_program(&mut self) -> (r: Program)
        requires
            old(self).wf(),
        ensures
            final(self).wf(),
            final(self).remaining() == 0,
    {
        let mut program = Program { statements: Vec::new() };
        while !self.cur_is(TokenType::Eof)
            invariant
                self.wf(),
            decreases self.remaining(),
        {
            if let Some(stmt) = self.parse_statement() {
                program.statements.push(stmt);
            }
            self.next_token();
        }
        program
    }

    /// The statements of a `{ ... }` body whose opening brace is already
    /// consumed, up to the closing brace or the end.
    fn parse_block(&mut self) -> (r: Vec<Statement>)
        requires
            old(self).wf(),
        ensures
            final(self).wf(),
            final(self).tokens == old(self).tokens,
            final(self).eof == old(self).eof,
            final(self).pos >= old(self).pos,
        decreases old(self).remaining(), 2nat,
    {
        let mut body: Vec<Statement> = Vec::new();
        let ghost start = self.pos;
        while !self.cur_is(TokenType::RBrace) && !self.cur_is(TokenType::Eof)
            invariant
                self.wf(),
                self.tokens == old(self).tokens,
                self.eof == old(self).eof,
                self.pos >= start,
                start == old(self).pos,
            decreases self.remaining(),
        {
            if let Some(s) = self.parse_statement() {
                body.push(s);
            }
            self.next_token();
        }
        body
    }

    fn parse_statement(&mut self) -> (r: Option<Statement>)
        requires
            old(self).wf(),
        ensures
            final(self).wf(),
            final(self).tokens == old(self).tokens,
            final(self).eof == old(self).eof,
            final(self).pos >= old(self).pos,
            old(self).cur_type() == TokenType::Agent ==> old(self).agent_post(r),
            old(self).cur_type() == TokenType::On ==> old(self).on_input_post(r),
            old(self).cur_type() == TokenType::Train ==> old(self).train_post(r),
            old(self).cur_type() == TokenType::Evolve ==> old(self).evolve_post(r),
            old(self).cur_type() == TokenType::If ==> old(self).if_post(r),
            old(self).cur_type() == TokenType::Mem ==> old(self).mem_post(r),
            old(self).cur_type() == TokenType::Goal ==> old(self).goal_post(r),
            old(self).cur_type() == TokenType::Print ==> old(self).print_post(r),
            old(self).cur_type() == TokenType::Embed ==> old(self).embed_post(r),
            old(self).cur_type() == TokenType::Ident && old(self).type_at(old(self).at() + 1)
                == TokenType::Equal ==> (r matches Some(Statement::Assignment(k, v)) && k@ == old(
                self,
            ).lit_at(old(self).at()) && v@ == old(self).lit_at(
                old(self).after(old(self).after(old(self).at())),
            )),
            old(self).cur_type() == TokenType::Ident && old(self).type_at(old(self).at() + 1)
                != TokenType::Equal ==> (r matches Some(Statement::Unknown(t)) && t@ == old(
                self,
            ).lit_at(old(self).at())),
        decreases old(self).remaining(), 1nat,
    {
        match self.cur().token_type {
            TokenType::Agent => self.parse_agent(),
            TokenType::Mem => self.parse_mem(),
            TokenType::On => self.parse_on_input(),
            TokenType::Reflect => self.parse_reflect(),
            TokenType::Train => self.parse_train(),
            TokenType::Evolve => self.parse_evolve(),
            TokenType::Goal => self.parse_goal(),
            TokenType::Embed => self.parse_embed(),
            TokenType::If => self.parse_if_context_includes(),
            TokenType::Print => self.parse_print(),
            _ => {
                if self.cur_is(TokenType::Ident) && self.peek_is(TokenType::Equal) {
                    let key = self.cur_literal();
                    self.next_token();
                    self.next_token();
                    let value = self.cur_literal();
                    return Some(Statement::Assignment(key, value));
                }
                Some(Statement::Unknown(self.cur_literal()))
            },
        }
    }
}

impl Parser {
    /// `agent NAME { ... }`.
    fn parse_agent(&mut self) -> (r: Option<Statement>)
        requires
            old(self).wf(),
            old(self).cur_type() != TokenType::Eof,
        ensures
            final(self).wf(),
            final(self).tokens == old(self).tokens,
            final(self).eof == old(self).eof,
            final(self).pos >= old(self).pos,
            old(self).agent_post(r),
        decreases old(self).remaining(), 0nat,
    {
        self.next_token();
        let name = self.cur_literal();
        if !self.peek_is(TokenType::LBrace) {
            return None;
        }
        self.next_token();
        self.next_token();
        let body = self.parse_block();
        Some(Statement::AgentDeclaration { name, body })
    }

    /// `mem TARGET`.
    fn parse_mem(&mut self) -> (r: Option<Statement>)
        requires
            old(self).wf(),
        ensures
            final(self).wf(),
            final(self).tokens == old(self).tokens,
            final(self).eof == old(self).eof,
            final(self).pos >= old(self).pos,
            old(self).mem_post(r),
    {
        self.next_token();
        let target = self.cur_literal();
        Some(Statement::MemDeclaration { target })
    }

    /// `on input(PARAM) { ... }`.
    fn parse_on_input(&mut self) -> (r: Option<Statement>)
        requires
            old(self).wf(),
            old(self).cur_type() != TokenType::Eof,
        ensures
            final(self).wf(),
            final(self).tokens == old(self).tokens,
            final(self).eof == old(self).eof,
            final(self).pos >= old(self).pos,
            old(self).on_input_post(r),
        decreases old(self).remaining(), 0nat,
    {
        self.next_token();
        if !self.cur_is(TokenType::Input) {
            return None;
        }
        self.next_token();
        if !self.cur_is(TokenType::LParen) {
            return None;
        }
        self.next_token();
        let param = self.cur_literal();
        self.next_token();
        if !self.cur_is(TokenType::RParen) {
            return None;
        }
        self.next_token();
        if !self.cur_is(TokenType::LBrace) {
            return None;
        }
        self.next_token();
        let body = self.parse_block();
        Some(Statement::OnInput { param, body })
    }

    /// Either `reflect { mem.TARGET["KEY"] ... }` or `reflect mem.TARGET["KEY"]`.
    fn parse_reflect(&mut self) -> (r: Option<Statement>)
        requires
            old(self).wf(),
        ensures
            final(self).wf(),
            final(self).tokens == old(self).tokens,
            final(self).eof == old(self).eof,
            final(self).pos >= old(self).pos,
    {
        if self.peek_is(TokenType::LBrace) {
            self.next_token();
            self.next_token();
            if !self.cur_is(TokenType::Mem) {
                return None;
            }
            let (mem_target, key) = match self.expect_dot_and_bracket() {
                Some(p) => p,
                None => {
                    return None;
                },
            };
            while !self.cur_is(TokenType::RBrace) && !self.cur_is(TokenType::Eof)
                invariant
                    self.wf(),
                    self.tokens == old(self).tokens,
                    self.eof == old(self).eof,
                self.eof == old(self).eof,
                    self.pos >= old(self).pos,
                decreases self.remaining(),
            {
                self.next_token();
            }
            let mut body: Vec<Statement> = Vec::new();
            body.push(Statement::ReflectAccess { mem_target, key });
            return Some(Statement::Reflect { body });
        }
        self.next_token();
        if !self.cur_is(TokenType::Mem) {
            return None;
        }
        match self.expect_dot_and_bracket() {
            Some((mem_target, key)) => Some(Statement::ReflectAccess { mem_target, key }),
            None => None,
        }
    }

    /// `.TARGET["KEY"]` after `mem`, ending on `]` (or `}`).
    fn expect_dot_and_bracket(&mut self) -> (r: Option<(String, String)>)
        requires
            old(self).wf(),
        ensures
            final(self).wf(),
            final(self).tokens == old(self).tokens,
            final(self).eof == old(self).eof,
            final(self).pos >= old(self).pos,
            ({
                let q1 = old(self).after(old(self).at());
                let q2 = old(self).after(q1);
                let q3 = old(self).after(q2);
                let q4 = old(self).after(q3);
                let q5 = old(self).after(q4);
                &&& (r is Some <==> old(self).type_at(q1) == TokenType::Dot && old(self).type_at(q2)
                    == TokenType::Ident && old(self).type_at(q3) == TokenType::LBracket
                    && old(self).type_at(q4) == TokenType::String && (old(self).type_at(q5)
                    == TokenType::RBracket || old(self).type_at(q5) == TokenType::RBrace))
                &&& r matches Some(pair) ==> pair.0@ == old(self).lit_at(q2) && pair.1@ == old(
                    self,
                ).lit_at(q4)
            }),
    {
        self.next_token();
        if !self.cur_is(TokenType::Dot) {
            return None;
        }
        self.next_token();
        if !self.cur_is(TokenType::Ident) {
            return None;
        }
        let mem_target = self.cur_literal();
        self.next_token();
        if !self.cur_is(TokenType::LBracket) {
            return None;
        }
        self.next_token();
        if !self.cur_is(TokenType::String) {
            return None;
        }
        let key = self.cur_literal();
        self.next_token();
        if !self.cur_is(TokenType::RBracket) && !self.cur_is(TokenType::RBrace) {
            return None;
        }
        Some((mem_target, key))
    }

    /// `train { ... }`.
    fn parse_train(&mut self) -> (r: Option<Statement>)
        requires
            old(self).wf(),
            old(self).cur_type() != TokenType::Eof,
        ensures
            final(self).wf(),
            final(self).tokens == old(self).tokens,
            final(self).eof == old(self).eof,
            final(self).pos >= old(self).pos,
            old(self).train_post(r),
        decreases old(self).remaining(), 0nat,
    {
        self.next_token();
        if !self.cur_is(TokenType::LBrace) {
            return None;
        }
        self.next_token();
        let body = self.parse_block();
        Some(Statement::Train { body })
    }

    /// `evolve { ... }`.
    fn parse_evolve(&mut self) -> (r: Option<Statement>)
        requires
            old(self).wf(),
            old(self).cur_type() != TokenType::Eof,
        ensures
            final(self).wf(),
            final(self).tokens == old(self).tokens,
            final(self).eof == old(self).eof,
            final(self).pos >= old(self).pos,
            old(self).evolve_post(r),
        decreases old(self).remaining(), 0nat,
    {
        self.next_token();
        if !self.cur_is(TokenType::LBrace) {
            return None;
        }
        self.next_token();
        let body = self.parse_block();
        Some(Statement::Evolve { body })
    }

    /// `goal: "TEXT"`.
    fn parse_goal(&mut self) -> (r: Option<Statement>)
        requires
            old(self).wf(),
        ensures
            final(self).wf(),
            final(self).tokens == old(self).tokens,
            final(self).eof == old(self).eof,
            final(self).pos >= old(self).pos,
            old(self).goal_post(r),
    {
        self.next_token();
        if !self.cur_is(TokenType::Colon) {
            return None;
        }
        self.next_token();
        if !self.cur_is(TokenType::String) {
            return None;
        }
        Some(Statement::Goal(self.cur_literal()))
    }

    /// `embed SOURCE -> TARGET` or `embed SOURCE -> A.B`.
    fn parse_embed(&mut self) -> (r: Option<Statement>)
        requires
            old(self).wf(),
        ensures
            final(self).wf(),
            final(self).tokens == old(self).tokens,
            final(self).eof == old(self).eof,
            final(self).pos >= old(self).pos,
            old(self).embed_post(r),
    {
        self.next_token();
        let source = self.cur_literal();
        self.next_token();
        if !self.cur_is(TokenType::Arrow) {
            return None;
        }
        self.next_token();
        let mut target = self.cur_literal();
        self.next_token();
        let ghost t0 = target@;
        if self.cur_is(TokenType::Dot) {
            self.next_token();
            target.push('.');
            target.append(self.cur().literal.as_str());
            proof {
                assert(target@ =~= t0 + seq!['.'] + self.lit_at(self.pos as int));
            }
        }
        Some(Statement::Embed { source, target })
    }

    /// `if context includes ["A", "B"] { ... }`.
    fn parse_if_context_includes(&mut self) -> (r: Option<Statement>)
        requires
            old(self).wf(),
            old(self).cur_type() != TokenType::Eof,
        ensures
            final(self).wf(),
            final(self).tokens == old(self).tokens,
            final(self).eof == old(self).eof,
            final(self).pos >= old(self).pos,
            old(self).if_post(r),
        decreases old(self).remaining(), 0nat,
    {
        self.next_token();
        if !self.cur_is(TokenType::Ident) || !same_str(self.cur().literal.as_str(), "context") {
            return None;
        }
        self.next_token();
        if !self.cur_is(TokenType::Ident) || !same_str(self.cur().literal.as_str(), "includes") {
            return None;
        }
        self.next_token();
        if !self.cur_is(TokenType::LBracket) {
            return None;
        }
        let mut values: Vec<String> = Vec::new();
        loop
            invariant
                self.wf(),
                self.tokens == old(self).tokens,
                self.eof == old(self).eof,
                self.pos > old(self).pos,
                self.cur_type() != TokenType::Eof,
            decreases self.remaining(),
        {
            self.next_token();
            if self.cur_is(TokenType::String) {
                values.push(self.cur_literal());
            } else if self.cur_is(TokenType::RBracket) {
                break;
            } else {
                return None;
            }
        }
        self.next_token();
        if !self.cur_is(TokenType::LBrace) {
            return None;
        }
        self.next_token();
        let body = self.parse_block();
        Some(Statement::IfContextIncludes { values, body })
    }

    /// `print "TEXT"`.
    fn parse_print(&mut self) -> (r: Option<Statement>)
        requires
            old(self).wf(),
        ensures
            final(self).wf(),
            final(self).tokens == old(self).tokens,
            final(self).eof == old(self).eof,
            final(self).pos >= old(self).pos,
            old(self).print_post(r),
    {
        self.next_token();
        if !self.cur_is(TokenType::String) {
            return None;
        }
        Some(Statement::Print(self.cur_literal()))
    }
}

} // verus!
