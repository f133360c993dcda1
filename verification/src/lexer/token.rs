//! Tokens: a rule, the line it starts on and the span it covers in the input.
//! Positions count characters of the input.
use crate::lexer::rule::{rule_index, Rule};
use crate::text::{chars_of, string_from_chars};
use crate::traits::{
    lemma_fixed_prefix, lemma_pow256_values, ByteDecodeError, ByteReader, IntoOwned,
    SerializeToBytes,
};
use std::rc::Rc;
use vstd::prelude::*;

verus! {

/// A token span: the positions `start..end` of the input
pub type TokenSpan = std::ops::Range<usize>;

/// Wraps `Rc::clone`. Its documentation: the clone shares the allocation, so it
/// holds the same value.
#[verifier::external_body]
pub(crate) fn share(input: &Rc<String>) -> (r: Rc<String>)
    ensures
        r == *input,
{
    Rc::clone(input)
}

/// A token, with the input string it was read from
#[derive(Debug)]
pub struct Token {
    line: usize,
    span: TokenSpan,
    rule: Rule,
    input: Rc<String>,
}

/// What a token is: its line, span, rule and the text of its input
pub struct TokenView {
    pub line: nat,
    pub start: nat,
    pub end: nat,
    pub rule: Rule,
    pub input: Seq<char>,
}

impl View for Token {
    type V = TokenView;

    closed spec fn view(&self) -> TokenView {
        TokenView {
            line: self.line as nat,
            start: self.span.start as nat,
            end: self.span.end as nat,
            rule: self.rule,
            input: (*self.input)@,
        }
    }
}

impl TokenView {
    /// The span lies within the input
    pub open spec fn in_bounds(&self) -> bool {
        self.start <= self.end <= self.input.len()
    }

    /// The text the token covers
    pub open spec fn text(&self) -> Seq<char> {
        self.input.subrange(self.start as int, self.end as int)
    }
}

/// The position where the line holding `pos` starts: just after the last line
/// break before `pos`, or the start of the input
pub open spec fn line_start(input: Seq<char>, pos: int) -> int
    decreases pos,
{
    if pos <= 0 {
        0
    } else if input[pos - 1] == '\n' {
        pos
    } else {
        line_start(input, pos - 1)
    }
}

/// `n` copies of `c`
pub open spec fn repeat(c: char, n: nat) -> Seq<char>
    decreases n,
{
    if n == 0 {
        Seq::empty()
    } else {
        repeat(c, (n - 1) as nat).push(c)
    }
}

/// The text with each line break followed by the margin `| `
pub open spec fn margin_breaks(s: Seq<char>) -> Seq<char>
    decreases s.len(),
{
    if s.len() == 0 {
        Seq::empty()
    } else if s.last() == '\n' {
        margin_breaks(s.drop_last()) + seq!['\n', '|', ' ']
    } else {
        margin_breaks(s.drop_last()).push(s.last())
    }
}

/// Longest context shown for a token
pub const CONTEXT_LEN: usize = 50;

/// The context of the span `start..end`: the text from the start of its line to
/// the end of the span, at most `CONTEXT_LEN` characters of it, each line behind
/// the margin `| `, and under it a line of `^` below the span
pub open spec fn context(input: Seq<char>, start: int, end: int) -> Seq<char> {
    let ls = line_start(input, start);
    let hl = end - start;
    let shown_start = if hl > CONTEXT_LEN {
        start
    } else if end - ls > CONTEXT_LEN {
        end - CONTEXT_LEN
    } else {
        ls
    };
    let shown_end = if hl > CONTEXT_LEN {
        start + CONTEXT_LEN
    } else {
        end
    };
    let marks = if hl > CONTEXT_LEN {
        CONTEXT_LEN as int
    } else {
        hl
    };
    let pad = if hl > CONTEXT_LEN {
        0
    } else if end - ls > CONTEXT_LEN {
        CONTEXT_LEN - hl
    } else {
        start - ls
    };
    seq!['|', ' '] + margin_breaks(input.subrange(shown_start, shown_end)) + seq!['\n', '|', ' ']
        + repeat(' ', pad as nat) + repeat('^', marks as nat)
}

fn push_repeat(c: char, n: usize, out: &mut Vec<char>)
    ensures
        final(out)@ == old(out)@ + repeat(c, n as nat),
    decreases n,
{
    if n > 0 {
        push_repeat(c, n - 1, out);
        out.push(c);
    }
    assert(final(out)@ =~= old(out)@ + repeat(c, n as nat));
}

fn push_margin_breaks(s: &Vec<char>, from: usize, to: usize, out: &mut Vec<char>)
    requires
        from <= to <= s@.len(),
    ensures
        final(out)@ == old(out)@ + margin_breaks(s@.subrange(from as int, to as int)),
    decreases to - from,
{
    if from < to {
        push_margin_breaks(s, from, to - 1, out);
        let c = s[to - 1];
        if c == '\n' {
            out.push('\n');
            out.push('|');
            out.push(' ');
        } else {
            out.push(c);
        }
        assert(s@.subrange(from as int, to as int).drop_last() =~= s@.subrange(
            from as int,
            to - 1,
        ));
    } else {
        assert(s@.subrange(from as int, to as int) =~= Seq::<char>::empty());
    }
    assert(final(out)@ =~= old(out)@ + margin_breaks(s@.subrange(from as int, to as int)));
}

fn find_line_start(input: &Vec<char>, pos: usize) -> (r: usize)
    requires
        pos <= input@.len(),
    ensures
        r == line_start(input@, pos as int),
        r <= pos,
    decreases pos,
{
    if pos == 0 {
        0
    } else if input[pos - 1] == '\n' {
        pos
    } else {
        find_line_start(input, pos - 1)
    }
}

impl IntoOwned for Token {
    type Owned = Token;

    fn into_owned(self) -> (t: Token)
        ensures
            t == self,
    {
        self
    }
}

impl Clone for Token {
    fn clone(&self) -> (t: Token)
        ensures
            t@ == self@,
    {
        Token {
            line: self.line,
            span: self.span.start..self.span.end,
            rule: self.rule,
            input: share(&self.input),
        }
    }
}

impl Token {
    /// A token of `rule` on `line`, over `span` of `input`
    pub fn new(line: usize, span: TokenSpan, rule: Rule, input: Rc<String>) -> (t: Token)
        ensures
            t@.line == line,
            t@.start == span.start,
            t@.end == span.end,
            t@.rule == rule,
            t@.input == (*input)@,
    {
        Token { line, span, rule, input }
    }

    /// Get the input string
    pub fn borrow_input(&self) -> (r: Rc<String>)
        ensures
            (*r)@ == self@.input,
    {
        share(&self.input)
    }

    /// Get a new token with a different rule and span, but the same line and input
    pub fn child(&self, rule: Rule, span: TokenSpan) -> (t: Token)
        ensures
            t@ == (TokenView { rule, start: span.start as nat, end: span.end as nat, ..self@ }),
    {
        Token { line: self.line, span: span.start..span.end, rule, input: self.borrow_input() }
    }

    /// Set the rule of the token
    pub fn set_rule(&mut self, rule: Rule)
        ensures
            final(self)@ == (TokenView { rule, ..old(self)@ }),
    {
        self.rule = rule;
    }

    /// Expand self to include the span of another token
    pub fn include_span(&mut self, span: TokenSpan)
        ensures
            final(self)@ == (TokenView {
                start: if span.start < old(self)@.start {
                    span.start as nat
                } else {
                    old(self)@.start
                },
                end: if span.end > old(self)@.end {
                    span.end as nat
                } else {
                    old(self)@.end
                },
                ..old(self)@
            }),
    {
        if span.start < self.span.start {
            self.span.start = span.start;
        }
        if span.end > self.span.end {
            self.span.end = span.end;
        }
    }

    /// Get the line number of the token
    pub fn line(&self) -> (l: usize)
        ensures
            l == self@.line,
    {
        self.line
    }

    /// The text of the input around and ending after the token, at most
    /// `CONTEXT_LEN` characters, with a line beneath that marks the token
    pub fn context_slice(&self) -> (s: String)
        requires
            self@.in_bounds(),
        ensures
            s@ == context(self@.input, self@.start as int, self@.end as int),
    {
        let input = chars_of(self.input.as_str());
        let start = self.span.start;
        let end = self.span.end;
        let ls = find_line_start(&input, start);
        let hl = end - start;
        let (shown_start, shown_end, marks, pad) = if hl > CONTEXT_LEN {
            (start, start + CONTEXT_LEN, CONTEXT_LEN, 0)
        } else if end - ls > CONTEXT_LEN {
            (end - CONTEXT_LEN, end, hl, CONTEXT_LEN - hl)
        } else {
            (ls, end, hl, start - ls)
        };
        let mut out: Vec<char> = Vec::new();
        out.push('|');
        out.push(' ');
        push_margin_breaks(&input, shown_start, shown_end, &mut out);
        out.push('\n');
        out.push('|');
        out.push(' ');
        push_repeat(' ', pad, &mut out);
        push_repeat('^', marks, &mut out);
        assert(out@ =~= context(self@.input, start as int, end as int));
        string_from_chars(out.as_slice())
    }

    /// Get the span of the token
    pub fn span(&self) -> (s: TokenSpan)
        ensures
            s.start == self@.start,
            s.end == self@.end,
    {
        self.span.start..self.span.end
    }

    /// Get the rule of the token
    pub fn rule(&self) -> (r: Rule)
        ensures
            r == self@.rule,
    {
        self.rule
    }

    /// Get the input string
    pub fn input(&self) -> (s: &str)
        ensures
            s@ == self@.input,
    {
        self.input.as_str()
    }

    /// Get the text the token covers
    pub fn slice(&self) -> (s: &str)
        requires
            self@.in_bounds(),
        ensures
            s@ == self@.text(),
    {
        self.input.as_str().substring_char(self.span.start, self.span.end)
    }

    /// Get the text of the input at a given span
    pub fn slice_at(&self, span: TokenSpan) -> (s: &str)
        requires
            span.start <= span.end <= self@.input.len(),
        ensures
            s@ == self@.input.subrange(span.start as int, span.end as int),
    {
        self.input.as_str().substring_char(span.start, span.end)
    }

    /// Check if the token is of one of the given rules
    pub fn is_a(&self, v: &[Rule]) -> (r: bool)
        ensures
            r == v@.contains(self@.rule),
    {
        let mut i: usize = 0;
        while i < v.len()
            invariant
                i <= v@.len(),
                forall|k: int| 0 <= k < i ==> v@[k] != self.rule,
            decreases v@.len() - i,
        {
            if v[i] == self.rule {
                return true;
            }
            i = i + 1;
        }
        false
    }

    /// Point this token at a new input string
    pub fn recombobulate(&mut self, new_input: &str)
        ensures
            final(self)@ == (TokenView { input: new_input@, ..old(self)@ }),
    {
        self.input = Rc::new(String::from_str(new_input));
    }

    /// The token as shown in error messages: its line, then its context
    pub fn to_string(&self) -> (s: String)
        requires
            self@.in_bounds(),
        ensures
            s@ == "Line "@ + crate::text::decimal(self@.line) + seq!['\n'] + context(
                self@.input,
                self@.start as int,
                self@.end as int,
            ),
    {
        let mut s = String::from_str("Line ");
        s.append(crate::text::decimal_string(self.line as u64).as_str());
        s.append("\n");
        s.append(self.context_slice().as_str());
        proof {
            reveal_strlit("\n");
        }
        s
    }
}

/// A token without its input string. Call `unpack` to get the full token
#[derive(Debug, PartialEq, Eq, Hash)]
pub struct SerializedToken {
    /// The line number of the token
    pub line: usize,
    /// The span of the token
    pub span: TokenSpan,
    /// The rule of the token
    pub rule: Rule,
}

impl Clone for SerializedToken {
    fn clone(&self) -> (t: SerializedToken)
        ensures
            t == *self,
    {
        SerializedToken { line: self.line, span: self.span.start..self.span.end, rule: self.rule }
    }
}

impl SerializedToken {
    /// Pack a token into a serializable form
    pub fn pack(token: Token) -> (t: Self)
        ensures
            t.line == token@.line,
            t.span.start == token@.start,
            t.span.end == token@.end,
            t.rule == token@.rule,
    {
        SerializedToken { line: token.line, span: token.span, rule: token.rule }
    }

    /// Unpack a token over the given input
    pub fn unpack(&self, input: &str) -> (t: Token)
        ensures
            t@ == (TokenView {
                line: self.line as nat,
                start: self.span.start as nat,
                end: self.span.end as nat,
                rule: self.rule,
                input: input@,
            }),
    {
        Token {
            line: self.line,
            span: self.span.start..self.span.end,
            rule: self.rule,
            input: Rc::new(String::from_str(input)),
        }
    }
}

impl SerializeToBytes for SerializedToken {
    open spec fn encoding(&self) -> Seq<u8> {
        self.line.encoding() + self.span.start.encoding() + self.span.end.encoding()
            + self.rule.encoding()
    }

    open spec fn encodable(&self) -> bool {
        true
    }

    proof fn lemma_prefix_free(a: Self, b: Self, r1: Seq<u8>, r2: Seq<u8>) {
        lemma_pow256_values();
        crate::lexer::rule::lemma_rule_at_index(a.rule);
        crate::lexer::rule::lemma_rule_at_index(b.rule);
        assert(a.encoding() + r1 =~= a.line.encoding() + (a.span.start.encoding() + (
        a.span.end.encoding() + (a.rule.encoding() + r1))));
        assert(b.encoding() + r2 =~= b.line.encoding() + (b.span.start.encoding() + (
        b.span.end.encoding() + (b.rule.encoding() + r2))));
        lemma_fixed_prefix(
            a.line as nat,
            b.line as nat,
            8,
            a.span.start.encoding() + (a.span.end.encoding() + (a.rule.encoding() + r1)),
            b.span.start.encoding() + (b.span.end.encoding() + (b.rule.encoding() + r2)),
        );
        lemma_fixed_prefix(
            a.span.start as nat,
            b.span.start as nat,
            8,
            a.span.end.encoding() + (a.rule.encoding() + r1),
            b.span.end.encoding() + (b.rule.encoding() + r2),
        );
        lemma_fixed_prefix(
            a.span.end as nat,
            b.span.end as nat,
            8,
            a.rule.encoding() + r1,
            b.rule.encoding() + r2,
        );
        lemma_fixed_prefix(rule_index(a.rule), rule_index(b.rule), 2, r1, r2);
    }

    fn serialize_into_bytes(self) -> (bytes: Vec<u8>) {
        let mut bytes = self.line.serialize_into_bytes();
        bytes.extend_from_slice(self.span.start.serialize_into_bytes().as_slice());
        bytes.extend_from_slice(self.span.end.serialize_into_bytes().as_slice());
        bytes.extend_from_slice(self.rule.serialize_into_bytes().as_slice());
        bytes
    }

    fn deserialize_from_bytes(bytes: &mut ByteReader) -> (r: Result<Self, ByteDecodeError>)
        ensures
            forall|v: SerializedToken, tail: Seq<u8>|
                old(bytes).rest() == #[trigger] (v.encoding() + tail) ==> r == Ok::<
                    SerializedToken,
                    ByteDecodeError,
                >(v) && final(bytes).rest() == tail,
    {
        let ghost start = bytes.rest();
        proof {
            assert forall|v: SerializedToken, tail: Seq<u8>| start == #[trigger] (v.encoding()
                + tail) implies start == v.line.encoding() + (v.span.start.encoding() + (
            v.span.end.encoding() + (v.rule.encoding() + tail))) by {
                assert(v.encoding() + tail =~= v.line.encoding() + (v.span.start.encoding() + (
                v.span.end.encoding() + (v.rule.encoding() + tail))));
            }
        }
        let line = usize::deserialize_from_bytes(bytes)?;
        let ghost s1 = bytes.rest();
        let span_start = usize::deserialize_from_bytes(bytes)?;
        let ghost s2 = bytes.rest();
        let span_end = usize::deserialize_from_bytes(bytes)?;
        let ghost s3 = bytes.rest();
        let rule = Rule::deserialize_from_bytes(bytes)?;
        let t = SerializedToken { line, span: span_start..span_end, rule };
        assert(start =~= t.encoding() + bytes.rest());
        Ok(t)
    }
}

} // verus!
