//! The lexer of the agent scripting language.

use vstd::prelude::*;
use vstd::string::StringExecFns;

use crate::text::{chars_of, string_of};

verus! {

#[derive(Clone, Copy, Debug, PartialEq, Eq, Structural)]
pub enum TokenType {
    Illegal,
    Eof,
    Ident,
    String,
    Arrow,
    LParen,
    RParen,
    LBrace,
    RBrace,
    Dot,
    Colon,
    LBracket,
    RBracket,
    Agent,
    Mem,
    On,
    Goal,
    Reflect,
    Train,
    If,
    Enter,
    Embed,
    Link,
    Input,
    Print,
    Evolve,
    LinkArrow,
    Equal,
}

/// A token and the text it was read from.
#[derive(Debug)]
pub struct Token {
    pub token_type: TokenType,
    pub literal: String,
}

impl Clone for Token {
    fn clone(&self) -> (r: Self)
        ensures
            r.token_type == self.token_type,
            r.literal@ == self.literal@,
    {
        Token { token_type: self.token_type, literal: self.literal.clone() }
    }
}

impl Token {
    pub fn new(token_type: TokenType, literal: &str) -> (r: Self)
        ensures
            r.token_type == token_type,
            r.literal@ == literal@,
    {
        Token { token_type, literal: String::from_str(literal) }
    }
}

/// ASCII letters and `_` start identifiers.
pub open spec fn is_letter_spec(c: char) -> bool {
    ('a' <= c && c <= 'z') || ('A' <= c && c <= 'Z') || c == '_'
}

pub open spec fn is_digit_spec(c: char) -> bool {
    '0' <= c && c <= '9'
}

pub fn is_letter(c: char) -> (r: bool)
    ensures
        r == is_letter_spec(c),
{
    ('a' <= c && c <= 'z') || ('A' <= c && c <= 'Z') || c == '_'
}

fn is_digit(c: char) -> (r: bool)
    ensures
        r == is_digit_spec(c),
{
    '0' <= c && c <= '9'
}

/// The keyword an identifier spells, or `Ident`.
pub open spec fn keyword(s: Seq<char>) -> TokenType {
    if s == "agent"@ {
        TokenType::Agent
    } else if s == "mem"@ {
        TokenType::Mem
    } else if s == "on"@ {
        TokenType::On
    } else if s == "goal"@ {
        TokenType::Goal
    } else if s == "reflect"@ {
        TokenType::Reflect
    } else if s == "train"@ {
        TokenType::Train
    } else if s == "if"@ {
        TokenType::If
    } else if s == "enter"@ {
        TokenType::Enter
    } else if s == "embed"@ {
        TokenType::Embed
    } else if s == "link"@ {
        TokenType::Link
    } else if s == "input"@ {
        TokenType::Input
    } else if s == "print"@ {
        TokenType::Print
    } else if s == "evolve"@ {
        TokenType::Evolve
    } else {
        TokenType::Ident
    }
}

pub fn lookup_ident(ident: &str) -> (r: TokenType)
    ensures
        r == keyword(ident@),
{
    if crate::text::same_str(ident, "agent") {
        TokenType::Agent
    } else if crate::text::same_str(ident, "mem") {
        TokenType::Mem
    } else if crate::text::same_str(ident, "on") {
        TokenType::On
    } else if crate::text::same_str(ident, "goal") {
        TokenType::Goal
    } else if crate::text::same_str(ident, "reflect") {
        TokenType::Reflect
    } else if crate::text::same_str(ident, "train") {
        TokenType::Train
    } else if crate::text::same_str(ident, "if") {
        TokenType::If
    } else if crate::text::same_str(ident, "enter") {
        TokenType::Enter
    } else if crate::text::same_str(ident, "embed") {
        TokenType::Embed
    } else if crate::text::same_str(ident, "link") {
        TokenType::Link
    } else if crate::text::same_str(ident, "input") {
        TokenType::Input
    } else if crate::text::same_str(ident, "print") {
        TokenType::Print
    } else if crate::text::same_str(ident, "evolve") {
        TokenType::Evolve
    } else {
        TokenType::Ident
    }
}

/// The characters the lexer skips between tokens.
pub open spec fn is_space(c: char) -> bool {
    c == ' ' || c == '\t' || c == '\n' || c == '\r'
}

/// The position of the first character at or after `i` that is not a space.
pub open spec fn skip_spaces(s: Seq<char>, i: int) -> int
    decreases s.len() - i,
{
    if i >= s.len() {
        s.len() as int
    } else if is_space(s[i]) {
        skip_spaces(s, i + 1)
    } else {
        i
    }
}

pub open spec fn is_ident_char(c: char) -> bool {
    is_letter_spec(c) || is_digit_spec(c) || c == '_'
}

/// The end of the run of identifier characters starting at `i`.
pub open spec fn ident_end(s: Seq<char>, i: int) -> int
    decreases s.len() - i,
{
    if i >= s.len() || !is_ident_char(s[i]) {
        if i >= s.len() { s.len() as int } else { i }
    } else {
        ident_end(s, i + 1)
    }
}

/// The end of the run of digits starting at `i`.
pub open spec fn digits_end(s: Seq<char>, i: int) -> int
    decreases s.len() - i,
{
    if i >= s.len() || !is_digit_spec(s[i]) {
        if i >= s.len() { s.len() as int } else { i }
    } else {
        digits_end(s, i + 1)
    }
}

/// The position of the first `"` at or after `i`, or the length of `s`.
pub open spec fn quote_end(s: Seq<char>, i: int) -> int
    decreases s.len() - i,
{
    if i >= s.len() || s[i] == '"' {
        if i >= s.len() { s.len() as int } else { i }
    } else {
        quote_end(s, i + 1)
    }
}

pub open spec fn min_int(a: int, b: int) -> int {
    if a < b { a } else { b }
}

/// The token type of a single-character token, or `Illegal`.
pub open spec fn punctuation(c: char) -> TokenType {
    if c == '=' {
        TokenType::Equal
    } else if c == '(' {
        TokenType::LParen
    } else if c == ')' {
        TokenType::RParen
    } else if c == '{' {
        TokenType::LBrace
    } else if c == '}' {
        TokenType::RBrace
    } else if c == '.' {
        TokenType::Dot
    } else if c == ':' {
        TokenType::Colon
    } else if c == '[' {
        TokenType::LBracket
    } else if c == ']' {
        TokenType::RBracket
    } else {
        TokenType::Illegal
    }
}

/// Reads tokens from a script, one character of lookahead at a time.
pub struct Lexer {
    input: Vec<char>,
    position: usize,
    read_position: usize,
    ch: Option<char>,
}

fn single(c: char) -> (r: String)
    ensures
        r@ == seq![c],
{
    let mut r = String::new();
    r.push(c);
    proof {
        assert(r@ =~= seq![c]);
    }
    r
}

fn text_between(v: &Vec<char>, from: usize, to: usize) -> (r: String)
    requires
        from <= to <= v@.len(),
    ensures
        r@ == v@.subrange(from as int, to as int),
{
    let mut part: Vec<char> = Vec::new();
    let mut i: usize = from;
    while i < to
        invariant
            from <= i <= to <= v@.len(),
            part@ == v@.subrange(from as int, i as int),
        decreases to - i,
    {
        part.push(v[i]);
        proof {
            assert(v@.subrange(from as int, i + 1) =~= v@.subrange(from as int, i as int).push(
                v@[i as int],
            ));
        }
        i = i + 1;
    }
    string_of(part.as_slice())
}

impl Lexer {
    /// The cursor is consistent: `ch` is the character at `position`, if any.
    pub closed spec fn wf(&self) -> bool {
        &&& self.position <= self.input@.len()
        &&& match self.ch {
            Some(c) => self.position < self.input@.len() && c == self.input@[self.position as int]
                && self.read_position == self.position + 1,
            None => self.position == self.input@.len() && self.read_position == self.position,
        }
    }

    /// The characters not yet consumed, counting the current one.
    pub closed spec fn remaining(&self) -> nat {
        (self.input@.len() - self.position) as nat
    }

    /// The whole script.
    pub closed spec fn source(&self) -> Seq<char> {
        self.input@
    }

    /// Where the next token starts: the cursor, past any spaces.
    pub open spec fn token_start(&self) -> int {
        skip_spaces(self.source(), self.cursor())
    }

    /// Where the cursor stands.
    pub closed spec fn cursor(&self) -> int {
        self.position as int
    }

    /// The text still to be read, from the current character on.
    pub closed spec fn rest(&self) -> Seq<char> {
        self.input@.skip(self.position as int)
    }

    pub fn new(input: &str) -> (r: Self)
        ensures
            r.wf(),
            r.rest() == input@,
    {
        let mut l = Lexer { input: chars_of(input), position: 0, read_position: 0, ch: None };
        l.read_char();
        proof {
            assert(l.input@.skip(0) =~= input@);
        }
        l
    }

    fn read_char(&mut self)
        requires
            old(self).position == old(self).read_position || old(self).wf(),
            old(self).read_position <= old(self).input@.len(),
            old(self).position <= old(self).input@.len(),
        ensures
            final(self).wf(),
            final(self).input == old(self).input,
            final(self).position == old(self).read_position,
    {
        if self.read_position >= self.input.len() {
            self.ch = None;
        } else {
            self.ch = Some(self.input[self.read_position]);
        }
        self.position = self.read_position;
        if self.ch.is_some() {
            self.read_position = self.read_position + 1;
        }
    }

    fn peek_char(&self) -> (r: Option<char>)
        requires
            self.wf(),
        ensures
            r == if self.read_position < self.input@.len() {
                Some(self.input@[self.read_position as int])
            } else {
                None::<char>
            },
    {
        if self.read_position >= self.input.len() {
            None
        } else {
            Some(self.input[self.read_position])
        }
    }

    fn skip_whitespace(&mut self)
        requires
            old(self).wf(),
        ensures
            final(self).wf(),
            final(self).input == old(self).input,
            final(self).position >= old(self).position,
            final(self).position == skip_spaces(old(self).input@, old(self).position as int),
    {
        while self.ch.is_some() && (self.ch.unwrap() == ' ' || self.ch.unwrap() == '\t'
            || self.ch.unwrap() == '\n' || self.ch.unwrap() == '\r')
            invariant
                self.wf(),
                self.input == old(self).input,
                self.position >= old(self).position,
                skip_spaces(self.input@, self.position as int) == skip_spaces(
                    old(self).input@,
                    old(self).position as int,
                ),
            decreases self.input@.len() - self.position,
        {
            self.read_char();
        }
    }

    fn read_identifier(&mut self) -> (r: String)
        requires
            old(self).wf(),
            old(self).ch is Some,
        ensures
            final(self).wf(),
            final(self).input == old(self).input,
            final(self).position > old(self).position || !is_letter_spec(old(self).ch->0),
            final(self).position >= old(self).position,
            final(self).position == ident_end(old(self).input@, old(self).position as int),
            r@ == old(self).input@.subrange(old(self).position as int, final(self).position as int),
    {
        let start = self.position;
        while self.ch.is_some() && (is_letter(self.ch.unwrap()) || is_digit(self.ch.unwrap())
            || self.ch.unwrap() == '_')
            invariant
                self.wf(),
                self.input == old(self).input,
                self.position >= start,
                start == old(self).position,
                self.position == start ==> self.ch == old(self).ch,
                ident_end(self.input@, self.position as int) == ident_end(self.input@, start as int),
            decreases self.input@.len() - self.position,
        {
            self.read_char();
        }
        text_between(&self.input, start, self.position)
    }

    fn read_number(&mut self) -> (r: String)
        requires
            old(self).wf(),
            old(self).ch is Some,
        ensures
            final(self).wf(),
            final(self).input == old(self).input,
            final(self).position > old(self).position || !is_digit_spec(old(self).ch->0),
            final(self).position >= old(self).position,
            final(self).position == digits_end(old(self).input@, old(self).position as int),
            r@ == old(self).input@.subrange(old(self).position as int, final(self).position as int),
    {
        let start = self.position;
        while self.ch.is_some() && is_digit(self.ch.unwrap())
            invariant
                self.wf(),
                self.input == old(self).input,
                self.position >= start,
                start == old(self).position,
                self.position == start ==> self.ch == old(self).ch,
                digits_end(self.input@, self.position as int) == digits_end(self.input@, start as int),
            decreases self.input@.len() - self.position,
        {
            self.read_char();
        }
        text_between(&self.input, start, self.position)
    }

    /// Reads a string literal whose opening quote is the current character;
    /// stops on the closing quote, which it consumes.
    fn read_string(&mut self) -> (r: String)
        requires
            old(self).wf(),
            old(self).ch is Some,
        ensures
            final(self).wf(),
            final(self).input == old(self).input,
            final(self).position > old(self).position,
            ({
                let q = quote_end(old(self).input@, old(self).position + 1);
                &&& r@ == old(self).input@.subrange(old(self).position + 1, q)
                &&& final(self).position == min_int(q + 1, old(self).input@.len() as int)
            }),
    {
        self.read_char();
        let start = self.position;
        while self.ch.is_some() && self.ch.unwrap() != '"'
            invariant
                self.wf(),
                self.input == old(self).input,
                self.position >= start,
                start == old(self).position + 1,
                quote_end(self.input@, self.position as int) == quote_end(self.input@, start as int),
            decreases self.input@.len() - self.position,
        {
            self.read_char();
        }
        let literal = text_between(&self.input, start, self.position);
        self.read_char();
        literal
    }

    /// The next token. An `Eof` token means the input is used up; any other
    /// token consumes at least one character. The token's kind follows from
    /// the first character after the spaces: punctuation stands for itself,
    /// a letter starts an identifier or keyword, a digit or a quote a string.
    pub fn next_token(&mut self) -> (r: Token)
        requires
            old(self).wf(),
        ensures
            (r.token_type == TokenType::Eof <==> old(self).token_start() >=
                old(self).source().len()),
            old(self).token_start() < old(self).source().len() &&
                punctuation(old(self).source()[old(self).token_start()]) != TokenType::Illegal ==>
                r.token_type == punctuation(old(self).source()[old(self).token_start()]),
            old(self).token_start() < old(self).source().len() &&
                is_letter_spec(old(self).source()[old(self).token_start()]) ==> r.token_type ==
                keyword(r.literal@),
            old(self).token_start() < old(self).source().len() &&
                (is_digit_spec(old(self).source()[old(self).token_start()]) ||
                old(self).source()[old(self).token_start()] == '"') ==> r.token_type ==
                TokenType::String,
            old(self).token_start() >= old(self).source().len() ==> r.literal@.len() == 0 &&
                final(self).cursor() == old(self).source().len(),
            old(self).token_start() < old(self).source().len() &&
                punctuation(old(self).source()[old(self).token_start()]) != TokenType::Illegal ==>
                r.literal@ == seq![old(self).source()[old(self).token_start()]] &&
                final(self).cursor() == old(self).token_start() + 1,
            old(self).token_start() < old(self).source().len() &&
                is_letter_spec(old(self).source()[old(self).token_start()]) ==> r.literal@ ==
                old(self).source().subrange(old(self).token_start(), ident_end(old(self).source(),
                old(self).token_start())) && final(self).cursor() == ident_end(old(self).source(),
                old(self).token_start()),
            old(self).token_start() < old(self).source().len() &&
                is_digit_spec(old(self).source()[old(self).token_start()]) ==> r.literal@ ==
                old(self).source().subrange(old(self).token_start(),
                digits_end(old(self).source(), old(self).token_start())) && final(self).cursor()
                == digits_end(old(self).source(), old(self).token_start()),
            old(self).token_start() < old(self).source().len() &&
                old(self).source()[old(self).token_start()] == '"' ==> r.literal@ ==
                old(self).source().subrange(old(self).token_start() + 1,
                quote_end(old(self).source(), old(self).token_start() + 1)) &&
                final(self).cursor() == min_int(quote_end(old(self).source(),
                old(self).token_start() + 1) + 2, old(self).source().len() as int),
            old(self).token_start() < old(self).source().len() &&
                old(self).source()[old(self).token_start()] == '-' ==> if old(self).token_start()
                + 1 < old(self).source().len() && old(self).source()[old(self).token_start() + 1]
                == '>' { r.token_type == TokenType::Arrow && r.literal@ == "->"@ &&
                final(self).cursor() == old(self).token_start() + 2 } else { r.token_type ==
                TokenType::Illegal && r.literal@ == "-"@ && final(self).cursor() ==
                old(self).token_start() + 1 },
            old(self).token_start() < old(self).source().len() &&
                old(self).source()[old(self).token_start()] == '<' ==> if old(self).token_start()
                + 2 < old(self).source().len() && old(self).source()[old(self).token_start() + 1]
                == '-' && old(self).source()[old(self).token_start() + 2] == '>' { r.token_type ==
                TokenType::LinkArrow && r.literal@ == "<->"@ && final(self).cursor() ==
                min_int(old(self).token_start() + 4, old(self).source().len() as int) } else {
                r.token_type == TokenType::Illegal && r.literal@ == "<"@ && final(self).cursor()
                == old(self).token_start() + 1 },
            old(self).token_start() < old(self).source().len() &&
                punctuation(old(self).source()[old(self).token_start()]) == TokenType::Illegal &&
                !is_letter_spec(old(self).source()[old(self).token_start()]) &&
                !is_digit_spec(old(self).source()[old(self).token_start()]) &&
                old(self).source()[old(self).token_start()] != '"' &&
                old(self).source()[old(self).token_start()] != '-' &&
                old(self).source()[old(self).token_start()] != '<' ==> r.token_type ==
                TokenType::Illegal && r.literal@ ==
                seq![old(self).source()[old(self).token_start()]] && final(self).cursor() ==
                old(self).token_start() + 1,

            final(self).wf(),
            final(self).source() == old(self).source(),
            r.token_type == TokenType::Eof ==> final(self).remaining() == 0,
            r.token_type != TokenType::Eof ==> final(self).remaining() < old(self).remaining(),
    {
        self.skip_whitespace();
        let tok = match self.ch {
            Some('=') => Token { token_type: TokenType::Equal, literal: single('=') },
            Some('(') => Token { token_type: TokenType::LParen, literal: single('(') },
            Some(')') => Token { token_type: TokenType::RParen, literal: single(')') },
            Some('{') => Token { token_type: TokenType::LBrace, literal: single('{') },
            Some('}') => Token { token_type: TokenType::RBrace, literal: single('}') },
            Some('.') => Token { token_type: TokenType::Dot, literal: single('.') },
            Some(':') => Token { token_type: TokenType::Colon, literal: single(':') },
            Some('[') => Token { token_type: TokenType::LBracket, literal: single('[') },
            Some(']') => Token { token_type: TokenType::RBracket, literal: single(']') },
            Some('-') => {
                if self.peek_char() == Some('>') {
                    self.read_char();
                    Token::new(TokenType::Arrow, "->")
                } else {
                    Token::new(TokenType::Illegal, "-")
                }
            },
            Some('<') => {
                let ahead = if self.read_position < self.input.len() && self.read_position + 1
                    < self.input.len() {
                    Some(self.input[self.read_position + 1])
                } else {
                    None
                };
                if self.peek_char() == Some('-') && ahead == Some('>') {
                    self.read_char();
                    self.read_char();
                    self.read_char();
                    Token::new(TokenType::LinkArrow, "<->")
                } else {
                    Token::new(TokenType::Illegal, "<")
                }
            },
            Some('"') => {
                let literal = self.read_string();
                Token { token_type: TokenType::String, literal }
            },
            None => Token { token_type: TokenType::Eof, literal: String::new() },
            Some(c) => {
                if is_letter(c) {
                    let literal = self.read_identifier();
                    let token_type = lookup_ident(literal.as_str());
                    return Token { token_type, literal };
                } else if is_digit(c) {
                    let literal = self.read_number();
                    return Token { token_type: TokenType::String, literal };
                } else {
                    let mut literal = String::new();
                    literal.push(c);
                    Token { token_type: TokenType::Illegal, literal }
                }
            },
        };
        self.read_char();
        tok
    }
}

/// All the tokens of a script, up to its end.
pub fn tokenize(lexer: &mut Lexer) -> (r: Vec<Token>)
    requires
        old(lexer).wf(),
    ensures
        final(lexer).wf(),
        forall|i: int| 0 <= i < r@.len() ==> (#[trigger] r@[i]).token_type != TokenType::Eof,
{
    let mut r: Vec<Token> = Vec::new();
    loop
        invariant
            lexer.wf(),
            forall|i: int| 0 <= i < r@.len() ==> (#[trigger] r@[i]).token_type != TokenType::Eof,
        decreases lexer.remaining(),
    {
        let t = lexer.next_token();
        if t.token_type == TokenType::Eof {
            break;
        }
        r.push(t);
    }
    r
}

} // verus!
