//! The executable scanner: a cursor over the input bytes that produces one
//! token per call to `next`.

use vstd::prelude::*;
use vstd::string::StrSliceExecFns;
use vstd::string::StringSliceAdditionalSpecFns;

use crate::token::Token;
use crate::token::is_digit_byte;
use crate::token::is_identifier_byte;
use crate::token::is_whitespace_byte;
use crate::token::operator_token;
use crate::token::tokens_after_identifier;
use crate::token::tokens_after_number;
use crate::token::tokens_of;

verus! {

/// A lazy, forward-only tokenizer over a byte sequence.
///
/// The view `self@` is the input that remains to be scanned; once the scan
/// has halted (end of input consumed, or an invalid byte seen) the view is
/// empty and every further call to `next` returns `None`.
#[derive(Debug)]
pub struct Lexer {
    bytes: Vec<u8>,
    pos: usize,
    halted: bool,
}

impl View for Lexer {
    type V = Seq<u8>;

    closed spec fn view(&self) -> Seq<u8> {
        if self.halted {
            Seq::empty()
        } else {
            self.bytes@.skip(self.pos as int)
        }
    }
}

impl Lexer {
    /// The cursor never points past the end of the input.
    pub closed spec fn wf(self) -> bool {
        self.pos <= self.bytes.len()
    }

    /// Positions a cursor at the start of `source`. The bytes to be scanned
    /// are the UTF-8 bytes of the string; no validation happens here, and
    /// the source may be empty.
    pub fn new(source: &str) -> (r: Lexer)
        ensures
            r.wf(),
            r@ == source.spec_bytes(),
    {
        let bytes = source.as_bytes_vec();
        let r = Lexer { bytes, pos: 0, halted: false };
        proof {
            assert(r@ =~= source.spec_bytes());
        }
        r
    }

    /// Produces the next token of the input, or `None` when the scan is
    /// over: either the remaining input holds no further token (end of
    /// input, possibly after trailing whitespace), or an unrecognized byte
    /// was reached, which halts scanning permanently. Successive calls
    /// yield exactly `tokens_of` of the input, then `None` forever.
    pub fn next(&mut self) -> (r: Option<Token>)
        requires
            old(self).wf(),
        ensures
            final(self).wf(),
            ({
                let toks = tokens_of(old(self)@);
                match r {
                    Some(t) => toks.len() > 0 && t == toks[0] && tokens_of(final(self)@)
                        == toks.skip(1),
                    None => toks.len() == 0 && final(self)@ == Seq::<u8>::empty(),
                }
            }),
    {
        if self.halted {
            return None;
        }
        // Skip leading whitespace: it produces no token.
        while self.pos < self.bytes.len() && byte_is_whitespace(self.bytes[self.pos])
            invariant
                self.wf(),
                !self.halted,
                self.bytes@ == old(self).bytes@,
                tokens_of(self@) == tokens_of(old(self)@),
            decreases self.bytes@.len() - self.pos,
        {
            proof {
                let u = self.bytes@.skip(self.pos as int);
                assert(u[0] == self.bytes@[self.pos as int]);
                assert(u.skip(1) =~= self.bytes@.skip(self.pos as int + 1));
            }
            self.pos = self.pos + 1;
        }
        if self.pos == self.bytes.len() {
            proof {
                assert(self@ =~= Seq::<u8>::empty());
            }
            return None;
        }
        let b = self.bytes[self.pos];
        let ghost u = self.bytes@.skip(self.pos as int);
        proof {
            assert(u[0] == b);
            assert(u.skip(1) =~= self.bytes@.skip(self.pos as int + 1));
        }
        if byte_is_identifier(b) {
            // An identifier run: consume every following letter/underscore.
            self.pos = self.pos + 1;
            let ghost entry = self.bytes@.skip(self.pos as int);
            while self.pos < self.bytes.len() && byte_is_identifier(self.bytes[self.pos])
                invariant
                    self.wf(),
                    !self.halted,
                    self.bytes@ == old(self).bytes@,
                    tokens_after_identifier(self@) == tokens_after_identifier(entry),
                decreases self.bytes@.len() - self.pos,
            {
                proof {
                    let v = self.bytes@.skip(self.pos as int);
                    assert(v[0] == self.bytes@[self.pos as int]);
                    assert(v.skip(1) =~= self.bytes@.skip(self.pos as int + 1));
                }
                self.pos = self.pos + 1;
            }
            proof {
                assert(tokens_after_identifier(self@) == tokens_of(self@));
                assert(tokens_of(old(self)@) == seq![Token::Identifier] + tokens_of(self@));
                assert((seq![Token::Identifier] + tokens_of(self@)).skip(1) =~= tokens_of(self@));
            }
            Some(Token::Identifier)
        } else if byte_is_digit(b) {
            // A number run: consume every following digit.
            self.pos = self.pos + 1;
            let ghost entry = self.bytes@.skip(self.pos as int);
            while self.pos < self.bytes.len() && byte_is_digit(self.bytes[self.pos])
                invariant
                    self.wf(),
                    !self.halted,
                    self.bytes@ == old(self).bytes@,
                    tokens_after_number(self@) == tokens_after_number(entry),
                decreases self.bytes@.len() - self.pos,
            {
                proof {
                    let v = self.bytes@.skip(self.pos as int);
                    assert(v[0] == self.bytes@[self.pos as int]);
                    assert(v.skip(1) =~= self.bytes@.skip(self.pos as int + 1));
                }
                self.pos = self.pos + 1;
            }
            proof {
                assert(tokens_after_number(self@) == tokens_of(self@));
                assert(tokens_of(old(self)@) == seq![Token::Number] + tokens_of(self@));
                assert((seq![Token::Number] + tokens_of(self@)).skip(1) =~= tokens_of(self@));
            }
            Some(Token::Number)
        } else if b == 43 || b == 45 || b == 42 || b == 47 || b == 61 || b == 59 {
            // A single-byte operator token.
            self.pos = self.pos + 1;
            proof {
                assert(tokens_of(old(self)@) == seq![operator_token(b)] + tokens_of(self@));
                assert((seq![operator_token(b)] + tokens_of(self@)).skip(1) =~= tokens_of(self@));
            }
            if b == 43 {
                Some(Token::Add)  // '+'
            } else if b == 45 {
                Some(Token::Subtract)  // '-'
            } else if b == 42 {
                Some(Token::Multiply)  // '*'
            } else if b == 47 {
                Some(Token::Divide)  // '/'
            } else if b == 61 {
                Some(Token::Assign)  // '='
            } else {
                Some(Token::Semicolon)  // ';'
            }
        } else {
            // An unrecognized byte: the scan halts permanently.
            self.halted = true;
            None
        }
    }
}

/// Restartability: two independently constructed lexers whose remaining
/// inputs hold the same bytes scan the same token sequence, each
/// exhaustible on its own — what `next` produces depends on the input
/// bytes alone, never on the instance.
pub proof fn lemma_restartable(l1: Lexer, l2: Lexer)
    requires
        l1@ == l2@,
    ensures
        tokens_of(l1@) == tokens_of(l2@),
{
}

/// `is_whitespace_byte`, decided by executable code.
fn byte_is_whitespace(b: u8) -> (r: bool)
    ensures
        r == is_whitespace_byte(b),
{
    b == 32 || b == 9 || b == 10
}

/// `is_identifier_byte`, decided by executable code.
fn byte_is_identifier(b: u8) -> (r: bool)
    ensures
        r == is_identifier_byte(b),
{
    (97 <= b && b <= 122) || (65 <= b && b <= 90) || b == 95
}

/// `is_digit_byte`, decided by executable code.
fn byte_is_digit(b: u8) -> (r: bool)
    ensures
        r == is_digit_byte(b),
{
    48 <= b && b <= 57
}

} // verus!
