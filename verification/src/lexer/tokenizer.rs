//! A reader of every token of a text, error tokens included: where the
//! `Lexer` stops at the first token no pattern matches, the `Tokenizer`
//! records it and reads on until the end of input.
use crate::lexer::token::Token;
use crate::lexer::{lemma_next_lexeme_advances, next_lexeme, token_of, Lexeme, Lexer, Rule};
use vstd::prelude::*;

verus! {

/// The tokens of a text from position `i` on line `line` up to and including
/// the end of input, with a one-character error token wherever no pattern
/// matches
pub open spec fn tokenize_from(s: Seq<char>, i: int, line: nat) -> Seq<Lexeme>
    decreases s.len() - i,
{
    let (t, j, l) = next_lexeme(s, i, line);
    if t.rule == Rule::EOI || !(i < j <= s.len()) {
        seq![t]
    } else {
        seq![t] + tokenize_from(s, j, l)
    }
}

/// The tokens of a whole text, starting on line 1
pub open spec fn tokenize(s: Seq<char>) -> Seq<Lexeme> {
    tokenize_from(s, 0, 1)
}

/// Reads the tokens of a text one after the other
pub struct Tokenizer(Lexer);

impl Tokenizer {
    /// The text being read
    pub closed spec fn source(&self) -> Seq<char> {
        self.0.source()
    }

    /// The position the next token is looked for at
    pub closed spec fn pos(&self) -> int {
        self.0.pos()
    }

    /// The line the next token is looked for on
    pub closed spec fn line(&self) -> nat {
        self.0.line()
    }

    /// The reader's state agrees with its text
    pub closed spec fn wf(&self) -> bool {
        self.0.wf()
    }

    /// A reader at the start of `input`, on line 1
    pub fn new(input: &str) -> (t: Self)
        requires
            input@.len() < usize::MAX,
        ensures
            t.wf(),
            t.source() == input@,
            t.pos() == 0,
            t.line() == 1,
    {
        Tokenizer(Lexer::new(input))
    }

    /// Consumes and returns the next token: the end of input past the end of
    /// the text, an error token one character long where no pattern matches
    pub fn consume_next(&mut self) -> (t: Token)
        requires
            old(self).wf(),
        ensures
            final(self).wf(),
            final(self).source() == old(self).source(),
            ({
                let (lexeme, j, l) = next_lexeme(old(self).source(), old(self).pos(), old(self).line());
                &&& t@ == token_of(lexeme, old(self).source())
                &&& final(self).pos() == j
                &&& final(self).line() == l
            }),
    {
        self.0.consume_next()
    }

    /// Consumes the reader, returning every token of the rest of its text up
    /// to and including the end of input
    pub fn all_tokens(self) -> (v: Vec<Token>)
        requires
            self.wf(),
        ensures
            ({
                let ls = tokenize_from(self.source(), self.pos(), self.line());
                &&& v@.len() == ls.len()
                &&& forall|k: int| 0 <= k < v@.len() ==> #[trigger] v@[k]@ == token_of(ls[k], self.source())
            }),
    {
        let ghost s = self.source();
        let ghost whole = tokenize_from(s, self.pos(), self.line());
        let mut reader = self;
        let mut tokens: Vec<Token> = Vec::new();
        let ghost mut found: Seq<Lexeme> = Seq::empty();
        loop
            invariant
                reader.wf(),
                reader.source() == s,
                s == self.source(),
                whole == tokenize_from(s, self.pos(), self.line()),
                tokens@.len() == found.len(),
                forall|k: int| 0 <= k < found.len() ==> #[trigger] tokens@[k]@ == token_of(found[k], s),
                found + tokenize_from(s, reader.pos(), reader.line()) == whole,
            decreases s.len() - reader.pos(),
        {
            let ghost before_pos = reader.pos();
            let ghost before_line = reader.line();
            proof {
                reader.0.lemma_wf_pos();
                lemma_next_lexeme_advances(s, before_pos, before_line);
            }
            let next = reader.consume_next();
            let ghost t = next_lexeme(s, before_pos, before_line).0;
            let is_end = next.rule() == Rule::EOI;
            let ghost prev = found;
            tokens.push(next);
            proof {
                found = found.push(t);
                assert(prev + seq![t] =~= found);
            }
            if is_end {
                assert(tokenize_from(s, before_pos, before_line) == seq![t]);
                assert(found == whole);
                return tokens;
            }
            proof {
                reader.0.lemma_wf_pos();
                let rest = tokenize_from(s, reader.pos(), reader.line());
                assert(tokenize_from(s, before_pos, before_line) == seq![t] + rest);
                assert(prev + (seq![t] + rest) =~= found + rest);
            }
        }
    }
}

} // verus!
