//! A minimal character-level lexer, a free-standing public surface beside
//! the assembler.  It hands the source out one character at a time, each
//! wrapped as a token; the assembler drives its own scanner and does not
//! depend on it.

use vstd::prelude::*;
use vstd::string::StrSliceExecFns;

verus! {

/// A lexical token.
#[allow(non_camel_case_types)]
#[derive(Debug)]
pub enum Token {
    LABEL(String),
    INSTRUCTION(String),
    EOL,
}

/// A cursor over the input characters.
#[derive(Debug)]
pub struct Lexer<'a> {
    input: &'a str,
    pos: usize,
}

impl<'a> Lexer<'a> {
    /// The text being lexed.
    pub closed spec fn source(&self) -> Seq<char> {
        self.input@
    }

    /// The index of the next character to hand out.
    pub closed spec fn position(&self) -> int {
        self.pos as int
    }

    pub closed spec fn wf(&self) -> bool {
        self.pos <= self.input@.len()
    }

    pub fn new(input: &'a str) -> (l: Lexer<'a>)
        ensures
            l.wf(),
            l.source() == input@,
            l.position() == 0,
    {
        Lexer { input, pos: 0 }
    }

    #[allow(dead_code)]
    fn is_letter(&self, c: char) -> (b: bool)
        ensures
            b == ((('a' as u32) <= (c as u32) && (c as u32) <= ('z' as u32)) || (('A' as u32) <= (c
                as u32) && (c as u32) <= ('Z' as u32))),
    {
        ((c as u32) >= ('a' as u32) && (c as u32) <= ('z' as u32)) || ((c as u32) >= ('A' as u32)
            && (c as u32) <= ('Z' as u32))
    }

    #[allow(dead_code)]
    fn is_digit(&self, c: char) -> (b: bool)
        ensures
            b == (('0' as u32) <= (c as u32) && (c as u32) <= ('9' as u32)),
    {
        (c as u32) >= ('0' as u32) && (c as u32) <= ('9' as u32)
    }

    /// The lexer's own notion of whitespace: space and tab only.
    #[allow(dead_code)]
    fn is_whitespace(&self, c: char) -> (b: bool)
        ensures
            b == (c == ' ' || c == '\t'),
    {
        c == ' ' || c == '\t'
    }

    /// Wraps one character, handed over as a one-character slice, into a
    /// token; every character comes out as a `LABEL`.
    fn process(&self, c: &str) -> (t: Token)
        ensures
            t matches Token::LABEL(x) && x@ == c@,
    {
        Token::LABEL(c.to_owned())
    }

    /// The next token: one character of the input, or `None` at its end.
    pub fn next(&mut self) -> (t: Option<Token>)
        requires
            old(self).wf(),
        ensures
            final(self).wf(),
            final(self).source() == old(self).source(),
            old(self).position() < old(self).source().len() ==> {
                &&& final(self).position() == old(self).position() + 1
                &&& t matches Some(tok) && (tok matches Token::LABEL(x) && x@ == seq![
                    old(self).source()[old(self).position()],
                ])
            },
            old(self).position() >= old(self).source().len() ==> t is None && final(self).position()
                == old(self).position(),
    {
        let n = self.input.unicode_len();
        if self.pos < n {
            let c = self.input.substring_char(self.pos, self.pos + 1);
            self.pos = self.pos + 1;
            proof {
                assert(c@ =~= seq![old(self).source()[old(self).position()]]);
            }
            Some(self.process(c))
        } else {
            None
        }
    }
}

} // verus!
