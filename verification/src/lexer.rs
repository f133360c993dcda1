//! The lexer of the language: splits source text into tokens.
//! `Rule` names each kind of token, `Token` is one token over its input,
//! `Stack` is the token queue with rewind that the parser reads from, and
//! `Lexer` reads the tokens of a source text one after the other.
pub mod category;
pub mod error;
pub mod rule;
pub mod scan;
pub mod stack;
pub mod token;
pub mod tokenizer;

pub use category::Category;
pub use error::LexerError;
pub use rule::Rule;
pub use stack::Stack;
pub use token::{SerializedToken, Token, TokenSpan};
pub use tokenizer::Tokenizer;

use crate::lexer::scan::{fixed_entry, fixed_table, scan, FIXED_COUNT};
use crate::lexer::token::{share, TokenView};
use crate::text::chars_of;
use std::rc::Rc;
use vstd::prelude::*;

verus! {

/// A token as the lexer finds it in a text
pub struct Lexeme {
    pub rule: Rule,
    pub start: int,
    pub end: int,
    pub line: nat,
}

/// Lexemes of these kinds are passed over: blanks, escaped line breaks and
/// comments that are not doc comments
pub open spec fn is_skipped(kind: Option<Rule>) -> bool {
    match kind {
        None => true,
        Some(r) => r == Rule::SkippedEOL || r == Rule::LineComment || r == Rule::BlockComment,
    }
}

/// Lexemes of these kinds advance the line count by the line breaks they hold
pub open spec fn counts_lines(kind: Option<Rule>) -> bool {
    kind == Some(Rule::EOL) || kind == Some(Rule::SkippedEOL) || kind == Some(Rule::BlockComment)
}

/// The number of line breaks in a text
pub open spec fn count_newlines(s: Seq<char>) -> nat
    decreases s.len(),
{
    if s.len() == 0 {
        0
    } else {
        count_newlines(s.drop_last()) + if s.last() == '\n' {
            1nat
        } else {
            0nat
        }
    }
}

/// The next token at or after position `i` on line `line`, the position after
/// it and the line after it. Past the end it is the end of input; where no
/// pattern matches it is an error token one character long. A token's line is
/// the line after the line breaks it holds.
pub open spec fn next_lexeme(s: Seq<char>, i: int, line: nat) -> (Lexeme, int, nat)
    decreases s.len() - i,
{
    if i >= s.len() {
        (Lexeme { rule: Rule::EOI, start: s.len() as int, end: s.len() as int, line }, i, line)
    } else {
        let (len, kind) = scan(s, i);
        if len == 0 || i + len > s.len() || i < 0 {
            (Lexeme { rule: Rule::Error, start: i, end: i + 1, line }, i + 1, line)
        } else {
            let next_line = if counts_lines(kind) {
                line + count_newlines(s.subrange(i, i + len))
            } else {
                line
            };
            if is_skipped(kind) {
                next_lexeme(s, i + len, next_line)
            } else {
                (
                    Lexeme { rule: kind->0, start: i, end: i + len, line: next_line },
                    i + len,
                    next_line,
                )
            }
        }
    }
}

/// The tokens of a text from position `i` on line `line` up to and including
/// the end of input, or the first error token
pub open spec fn lex_from(s: Seq<char>, i: int, line: nat) -> Result<Seq<Lexeme>, Lexeme>
    decreases s.len() - i,
{
    let (t, j, l) = next_lexeme(s, i, line);
    if t.rule == Rule::EOI {
        Ok(seq![t])
    } else if t.rule == Rule::Error {
        Err(t)
    } else if i < j <= s.len() {
        match lex_from(s, j, l) {
            Ok(rest) => Ok(seq![t] + rest),
            Err(e) => Err(e),
        }
    } else {
        Err(t)
    }
}

/// The tokens of a whole text, starting on line 1
pub open spec fn lex(s: Seq<char>) -> Result<Seq<Lexeme>, Lexeme> {
    lex_from(s, 0, 1)
}

/// The token over `input` that a lexeme describes
pub open spec fn token_of(l: Lexeme, input: Seq<char>) -> TokenView {
    TokenView {
        line: l.line,
        start: l.start as nat,
        end: l.end as nat,
        rule: l.rule,
        input,
    }
}

/// Tokens found before the rest of the text's tokens
pub open spec fn after(found: Seq<Lexeme>, rest: Result<Seq<Lexeme>, Lexeme>) -> Result<
    Seq<Lexeme>,
    Lexeme,
> {
    match rest {
        Ok(r) => Ok(found + r),
        Err(e) => Err(e),
    }
}

/// From a position within the text, the next token ends within the text, after
/// the position unless it is the end of input; a token found by a pattern is
/// neither the end of input nor an error, and covers some text
pub proof fn lemma_next_lexeme_advances(s: Seq<char>, i: int, line: nat)
    requires
        0 <= i <= s.len(),
    ensures
        ({
            let (t, j, l) = next_lexeme(s, i, line);
            &&& i <= j <= s.len()
            &&& t.rule != Rule::EOI ==> i < j
            &&& t.rule != Rule::EOI && t.rule != Rule::Error ==> t.start < t.end == j
            &&& l >= line
        }),
    decreases s.len() - i,
{
    if i < s.len() {
        let (len, kind) = scan(s, i);
        if len > 0 && i + len <= s.len() {
            let next_line = if counts_lines(kind) {
                line + count_newlines(s.subrange(i, i + len))
            } else {
                line
            };
            if is_skipped(kind) {
                lemma_next_lexeme_advances(s, i + len, next_line);
            } else {
                lemma_scan_rule(s, i);
            }
        }
    }
}

/// Where the next token starts and on which line it stands
proof fn lemma_next_lexeme_place(s: Seq<char>, i: int, line: nat)
    requires
        0 <= i <= s.len(),
    ensures
        ({
            let (t, j, l) = next_lexeme(s, i, line);
            &&& t.start >= i
            &&& t.line == l
            &&& t.rule == Rule::EOI ==> t.start == s.len()
        }),
    decreases s.len() - i,
{
    if i < s.len() {
        let (len, kind) = scan(s, i);
        if len > 0 && i + len <= s.len() {
            let next_line = if counts_lines(kind) {
                line + count_newlines(s.subrange(i, i + len))
            } else {
                line
            };
            if is_skipped(kind) {
                lemma_next_lexeme_place(s, i + len, next_line);
            } else {
                lemma_scan_rule(s, i);
            }
        }
    }
}

/// The tokens lie in order within the text from `i` on: each but the last
/// covers some text and ends before the next one starts, their lines do not
/// go down from `line`, and the last is the end of input at the end of the
/// text
pub open spec fn lexemes_in_order(ls: Seq<Lexeme>, s_len: int, i: int, line: nat) -> bool {
    &&& ls.len() > 0
    &&& ls.last().rule == Rule::EOI
    &&& ls.last().start == s_len
    &&& ls[0].start >= i
    &&& ls[0].line >= line
    &&& forall|k: int|
        0 <= k < ls.len() - 1 ==> {
            &&& (#[trigger] ls[k]).rule != Rule::EOI
            &&& ls[k].start < ls[k].end <= ls[k + 1].start
            &&& ls[k].line <= ls[k + 1].line
        }
}

/// Lexing a text succeeds only with tokens in order: no token is lost or
/// overlaps another, and the end of input closes them
#[verifier::spinoff_prover]
#[verifier::rlimit(40)]
pub proof fn lemma_lex_in_order(s: Seq<char>, i: int, line: nat)
    requires
        0 <= i <= s.len(),
    ensures
        lex_from(s, i, line) matches Ok(ls) ==> lexemes_in_order(ls, s.len() as int, i, line),
    decreases s.len() - i,
{
    let (t, j, l) = next_lexeme(s, i, line);
    lemma_next_lexeme_advances(s, i, line);
    lemma_next_lexeme_place(s, i, line);
    if t.rule != Rule::EOI && t.rule != Rule::Error && i < j <= s.len() {
        lemma_lex_in_order(s, j, l);
        if let Ok(rest) = lex_from(s, j, l) {
            let ls = seq![t] + rest;
            assert forall|k: int| 0 <= k < ls.len() - 1 implies {
                &&& (#[trigger] ls[k]).rule != Rule::EOI
                &&& ls[k].start < ls[k].end <= ls[k + 1].start
                &&& ls[k].line <= ls[k + 1].line
            } by {
                if k > 0 {
                    assert(ls[k] == rest[k - 1]);
                    assert(ls[k + 1] == rest[k]);
                }
            }
            assert(ls.last() == rest.last());
        }
    }
}

/// A pattern never finds the end of input or an error
proof fn lemma_scan_rule(s: Seq<char>, i: int)
    requires
        scan(s, i).0 > 0,
    ensures
        scan(s, i).1 != Some(Rule::EOI),
        scan(s, i).1 != Some(Rule::Error),
{
    let fixed = crate::lexer::scan::fixed_best(s, i, FIXED_COUNT as int);
    if fixed.0 > 0 {
        lemma_fixed_best_rule(s, i, FIXED_COUNT as int);
    }
}

proof fn lemma_fixed_best_rule(s: Seq<char>, i: int, k: int)
    requires
        crate::lexer::scan::fixed_best(s, i, k).0 > 0,
        k <= FIXED_COUNT,
    ensures
        crate::lexer::scan::fixed_best(s, i, k).1 != Rule::EOI,
        crate::lexer::scan::fixed_best(s, i, k).1 != Rule::Error,
    decreases k,
{
    if k > 0 {
        let prev = crate::lexer::scan::fixed_best(s, i, k - 1);
        if prev.0 > 0 {
            lemma_fixed_best_rule(s, i, k - 1);
        }
        assert(fixed_entry(k - 1).1 != Rule::EOI && fixed_entry(k - 1).1 != Rule::Error);
    }
}

/// A lexer over a text: reads its tokens one after the other
pub struct Lexer {
    input: Rc<String>,
    chars: Vec<char>,
    pos: usize,
    line: usize,
    table: Vec<(Vec<char>, Rule)>,
}

impl Lexer {
    /// The text being read
    pub closed spec fn source(&self) -> Seq<char> {
        self.chars@
    }

    /// The position the next token is looked for at
    pub closed spec fn pos(&self) -> int {
        self.pos as int
    }

    /// The line the next token is looked for on
    pub closed spec fn line(&self) -> nat {
        self.line as nat
    }

    /// The lexer's state agrees with its text
    pub closed spec fn wf(&self) -> bool {
        &&& self.chars@ == (*self.input)@
        &&& self.pos <= self.chars@.len()
        &&& self.chars@.len() < usize::MAX
        &&& self.line <= 1 + self.pos
        &&& self.table@.len() == FIXED_COUNT
        &&& forall|k: int|
            0 <= k < self.table@.len() ==> #[trigger] self.table@[k].0@ == fixed_entry(k).0
                && self.table@[k].1 == fixed_entry(k).1
    }

    /// The position of a well-formed lexer lies within its text
    pub proof fn lemma_wf_pos(&self)
        requires
            self.wf(),
        ensures
            0 <= self.pos() <= self.source().len(),
    {
    }

    /// Creates a new lexer at the start of `input`, on line 1
    pub fn new(input: &str) -> (l: Self)
        requires
            input@.len() < usize::MAX,
        ensures
            l.wf(),
            l.source() == input@,
            l.pos() == 0,
            l.line() == 1,
    {
        let input = Rc::new(String::from_str(input));
        let chars = chars_of(input.as_str());
        Lexer { input, chars, pos: 0, line: 1, table: fixed_table() }
    }

    fn newlines(&self, start: usize, end: usize) -> (n: usize)
        requires
            self.wf(),
            start <= end <= self.chars@.len(),
        ensures
            n == count_newlines(self.chars@.subrange(start as int, end as int)),
            n <= end - start,
    {
        let mut n: usize = 0;
        let mut k = start;
        while k < end
            invariant
                start <= k <= end <= self.chars@.len(),
                n == count_newlines(self.chars@.subrange(start as int, k as int)),
                n <= k - start,
            decreases end - k,
        {
            proof {
                assert(self.chars@.subrange(start as int, k + 1).drop_last() =~= self.chars@.subrange(
                    start as int,
                    k as int,
                ));
            }
            if self.chars[k] == '\n' {
                n = n + 1;
            }
            k = k + 1;
        }
        n
    }

    /// Consumes and returns the next token
    pub fn consume_next(&mut self) -> (t: Token)
        requires
            old(self).wf(),
        ensures
            final(self).wf(),
            final(self).source() == old(self).source(),
            ({
                let (lexeme, j, l) = next_lexeme(old(self).source(), old(self).pos(), old(self).line());
                &&& t@ == token_of(lexeme, old(self).source())
                &&& final(self).pos() == j
                &&& final(self).line() == l
            }),
    {
        let ghost s = self.chars@;
        let ghost start_pos = self.pos as int;
        let ghost start_line = self.line as nat;
        loop
            invariant
                self.wf(),
                self.chars@ == s,
                s == old(self).source(),
                start_pos == old(self).pos(),
                start_line == old(self).line(),
                next_lexeme(s, self.pos as int, self.line as nat) == next_lexeme(s, start_pos, start_line),
            decreases s.len() - self.pos,
        {
            let ghost p0 = self.pos as int;
            let ghost l0 = self.line as nat;
            let n = self.chars.len();
            if self.pos >= n {
                let t = Token::new(self.line, n..n, Rule::EOI, share(&self.input));
                assert(next_lexeme(s, p0, l0) == (Lexeme { rule: Rule::EOI, start: s.len() as int, end: s.len() as int, line: l0 }, p0, l0));
                return t;
            }
            let (len, kind) = crate::lexer::scan::scan_at(&self.chars, self.pos, &self.table);
            if len == 0 {
                let t = Token::new(self.line, self.pos..self.pos + 1, Rule::Error, share(&self.input));
                self.pos = self.pos + 1;
                assert(next_lexeme(s, p0, l0) == (Lexeme { rule: Rule::Error, start: p0, end: p0 + 1, line: l0 }, p0 + 1, l0));
                return t;
            }
            let start = self.pos;
            let end = self.pos + len;
            let counts = match kind {
                Some(r) => r == Rule::EOL || r == Rule::SkippedEOL || r == Rule::BlockComment,
                None => false,
            };
            assert(counts == counts_lines(kind));
            if counts {
                let nl = self.newlines(start, end);
                self.line = self.line + nl;
            }
            self.pos = end;
            let skipped = match kind {
                None => true,
                Some(r) => r == Rule::SkippedEOL || r == Rule::LineComment || r == Rule::BlockComment,
            };
            assert(skipped == is_skipped(kind));
            let ghost next_line: nat = if counts_lines(kind) {
                l0 + count_newlines(s.subrange(p0, p0 + len))
            } else {
                l0
            };
            assert(self.line == next_line);
            if !skipped {
                let t = Token::new(self.line, start..end, kind.unwrap(), share(&self.input));
                assert(next_lexeme(s, p0, l0) == (Lexeme { rule: kind->0, start: p0, end: p0 + len, line: next_line }, p0 + len, next_line));
                return t;
            }
            assert(next_lexeme(s, p0, l0) == next_lexeme(s, p0 + len, next_line));
        }
    }

    /// Consumes the lexer, returning all tokens of the rest of its text up to
    /// and including the end of input, or the first token no pattern matches
    pub fn all_tokens(self) -> (r: Result<Vec<Token>, LexerError>)
        requires
            self.wf(),
        ensures
            match lex_from(self.source(), self.pos(), self.line()) {
                Ok(ls) => r matches Ok(v) && v@.len() == ls.len() && forall|k: int|
                    0 <= k < v@.len() ==> #[trigger] v@[k]@ == token_of(ls[k], self.source()),
                Err(e) => r matches Err(LexerError::UnrecognizedToken(t)) && t@ == token_of(e, self.source()),
            },
    {
        let ghost s = self.source();
        let ghost whole = lex_from(s, self.pos(), self.line());
        let ghost orig_pos = self.pos();
        let ghost orig_line = self.line();
        let mut lexer = self;
        let mut tokens: Vec<Token> = Vec::new();
        let ghost mut found: Seq<Lexeme> = Seq::empty();
        loop
            invariant
                lexer.wf(),
                lexer.source() == s,
                whole == lex_from(s, orig_pos, orig_line),
                s == self.source(),
                orig_pos == self.pos(),
                orig_line == self.line(),
                tokens@.len() == found.len(),
                forall|k: int| 0 <= k < found.len() ==> #[trigger] tokens@[k]@ == token_of(found[k], s),
                after(found, lex_from(s, lexer.pos(), lexer.line())) == whole,
            decreases s.len() - lexer.pos(),
        {
            let ghost before_pos = lexer.pos();
            let ghost before_line = lexer.line();
            proof {
                lemma_next_lexeme_advances(s, before_pos, before_line);
            }
            let next = lexer.consume_next();
            let ghost t = next_lexeme(s, before_pos, before_line).0;
            if next.rule() == Rule::Error {
                assert(lex_from(s, before_pos, before_line) == Err::<Seq<Lexeme>, Lexeme>(t));
                return Err(LexerError::UnrecognizedToken(next));
            }
            let is_end = next.rule() == Rule::EOI;
            let ghost prev = found;
            tokens.push(next);
            proof {
                found = found.push(t);
            }
            if is_end {
                assert(lex_from(s, before_pos, before_line) == Ok::<Seq<Lexeme>, Lexeme>(seq![t]));
                assert(prev + seq![t] =~= found);
                assert forall|k: int| 0 <= k < found.len() implies #[trigger] tokens@[k]@ == token_of(found[k], s) by {}
                return Ok(tokens);
            }
            proof {
                let rest = lex_from(s, lexer.pos(), lexer.line());
                match rest {
                    Ok(r) => {
                        assert(prev + (seq![t] + r) =~= found + r);
                    },
                    Err(e) => {},
                }
            }
        }
    }
}

} // verus!
