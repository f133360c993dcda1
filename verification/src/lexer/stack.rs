//! The token queue with rewind that the parser reads from.
//!
//! The stack holds the tokens in reverse, so that the next token is the last
//! one held below the current length. Transactions record a length each: one
//! that starts copies the current length, one that is reverted drops its
//! length, one that is applied hands its length down to the one below.
use crate::lexer::category::{categories_of, Category};
use crate::lexer::rule::Rule;
use crate::lexer::token::Token;
use crate::parser::error::ParserError;
use vstd::prelude::*;

verus! {

/// Token queue with rewind
#[derive(Debug, Clone)]
pub struct Stack {
    /// All tokens, last token first
    tokens: Vec<Token>,
    /// The length of the stack before each open transaction, then the current one
    cur_len: Vec<usize>,
    /// The furthest position we tried to match against
    error_pos: usize,
    /// The set of rules we tried to match at `error_pos`
    could_expect: Vec<Rule>,
}

/// Drop the innermost transaction length, giving it back; the outermost length
/// is never dropped, and then 1 is given back
pub open spec fn unborrow(lens: Seq<usize>) -> (Seq<usize>, usize) {
    if lens.len() <= 1 {
        (lens, 1)
    } else {
        (lens.drop_last(), lens.last())
    }
}

/// The lengths after a transaction starts
pub open spec fn started(lens: Seq<usize>) -> Seq<usize> {
    lens.push(lens.last())
}

/// The lengths after the innermost transaction is reverted
pub open spec fn reverted(lens: Seq<usize>) -> Seq<usize> {
    unborrow(lens).0
}

/// The lengths after the innermost transaction is applied: the length it
/// reached becomes the current one of the transaction below. With no open
/// transaction there is nothing pending, and nothing changes
pub open spec fn applied(lens: Seq<usize>) -> Seq<usize> {
    if lens.len() <= 1 {
        lens
    } else {
        let (rest, l) = unborrow(lens);
        rest.update(rest.len() - 1, l)
    }
}

/// The lengths after one token is taken
pub open spec fn taken(lens: Seq<usize>) -> Seq<usize> {
    if lens.last() == 0 {
        lens
    } else {
        lens.update(lens.len() - 1, (lens.last() - 1) as usize)
    }
}

/// Reverting a transaction, whatever tokens it took, gives back the lengths from
/// before it started
pub proof fn lemma_revert_restores(lens: Seq<usize>, reached: usize)
    requires
        lens.len() >= 1,
    ensures
        reverted(started(lens).update(lens.len() as int, reached)) == lens,
{
    assert(started(lens).update(lens.len() as int, reached).drop_last() =~= lens);
}

/// The lengths after `n` tokens are taken, one at a time
pub open spec fn taken_times(lens: Seq<usize>, n: nat) -> Seq<usize>
    decreases n,
{
    if n == 0 {
        lens
    } else {
        taken(taken_times(lens, (n - 1) as nat))
    }
}

/// Taking tokens inside a transaction changes only its own length
proof fn lemma_takes_inside(lens: Seq<usize>, n: nat)
    requires
        lens.len() >= 2,
    ensures
        taken_times(lens, n).len() == lens.len(),
        taken_times(lens, n).drop_last() == lens.drop_last(),
    decreases n,
{
    if n > 0 {
        lemma_takes_inside(lens, (n - 1) as nat);
        lemma_take_one(taken_times(lens, (n - 1) as nat));
    }
}

/// Starting a transaction, taking any number of tokens in it, and reverting it
/// gives back the lengths from before it started
pub proof fn lemma_revert_after_takes(lens: Seq<usize>, n: nat)
    requires
        lens.len() >= 1,
    ensures
        reverted(taken_times(started(lens), n)) == lens,
{
    lemma_takes_inside(started(lens), n);
    assert(started(lens).drop_last() =~= lens);
}

/// Applying a transaction keeps the tokens it took taken, and closes it
pub proof fn lemma_apply_commits(lens: Seq<usize>, reached: usize)
    requires
        lens.len() >= 1,
    ensures
        applied(started(lens).update(lens.len() as int, reached)) == lens.update(
            lens.len() - 1,
            reached,
        ),
{
    assert(applied(started(lens).update(lens.len() as int, reached)) =~= lens.update(
        lens.len() - 1,
        reached,
    ));
}

/// Taking a token only changes the innermost length, by one, and only when a
/// token is left
pub proof fn lemma_take_one(lens: Seq<usize>)
    requires
        lens.len() >= 1,
    ensures
        taken(lens).len() == lens.len(),
        taken(lens).drop_last() == lens.drop_last(),
        lens.last() > 0 ==> taken(lens).last() == lens.last() - 1,
        lens.last() == 0 ==> taken(lens) == lens,
{
    assert(taken(lens).drop_last() =~= lens.drop_last());
}

impl Stack {
    /// The tokens, last one first
    pub closed spec fn queue(&self) -> Seq<Token> {
        self.tokens@
    }

    /// The lengths of the open transactions, the current length last
    pub closed spec fn lens(&self) -> Seq<usize> {
        self.cur_len@
    }

    /// The furthest position a match was tried at
    pub closed spec fn error_pos(&self) -> nat {
        self.error_pos as nat
    }

    /// The rules tried at the furthest position
    pub closed spec fn expected(&self) -> Seq<Rule> {
        self.could_expect@
    }

    /// The lengths and the error position lie within the tokens
    pub closed spec fn wf(&self) -> bool {
        &&& self.tokens@.len() >= 1
        &&& self.cur_len@.len() >= 1
        &&& forall|i: int| 0 <= i < self.cur_len@.len() ==> self.cur_len@[i] <= self.tokens@.len()
        &&& self.error_pos < self.tokens@.len()
    }

    /// A well-formed stack has a current length, within its tokens
    pub proof fn lemma_wf_lens(&self)
        requires
            self.wf(),
        ensures
            self.lens().len() >= 1,
            self.spec_len() <= self.queue().len(),
    {
    }

    /// The current length of the stack
    pub open spec fn spec_len(&self) -> nat {
        self.lens().last() as nat
    }

    /// Creates a new stack over the tokens, the first token on top
    pub fn new(tokens: Vec<Token>) -> (s: Self)
        requires
            tokens@.len() >= 1,
        ensures
            s.wf(),
            s.queue() == tokens@.reverse(),
            s.lens() == seq![tokens@.len() as usize],
            s.error_pos() == tokens@.len() - 1,
            s.expected() == Seq::<Rule>::empty(),
    {
        let len = tokens.len();
        let mut tokens = tokens;
        let mut reversed: Vec<Token> = Vec::new();
        let ghost orig = tokens@;
        while tokens.len() > 0
            invariant
                orig.reverse() == reversed@ + tokens@.reverse(),
            decreases tokens@.len(),
        {
            let ghost before = tokens@;
            let t = tokens.pop().unwrap();
            assert(before =~= tokens@.push(t));
            assert(before.reverse() =~= seq![t] + tokens@.reverse());
            reversed.push(t);
            assert(orig.reverse() =~= reversed@ + tokens@.reverse());
        }
        assert(orig.reverse() =~= reversed@);
        let s = Stack {
            tokens: reversed,
            cur_len: vec![len],
            error_pos: len - 1,
            could_expect: Vec::new(),
        };
        assert(s.cur_len@ =~= seq![len]);
        s
    }

    /// Get the current length of the stack
    pub fn len(&self) -> (n: usize)
        requires
            self.wf(),
        ensures
            n == self.spec_len(),
    {
        self.cur_len[self.cur_len.len() - 1]
    }

    /// Get the number of open transactions
    pub fn depth(&self) -> (n: usize)
        requires
            self.wf(),
        ensures
            n == self.lens().len() - 1,
    {
        self.cur_len.len() - 1
    }

    /// The categories of the rules tried at the furthest position; used for
    /// error reporting
    pub fn expecting(&self) -> (cats: Vec<Category>)
        ensures
            cats@.map_values(|c: Category| c@) == categories_of(self.expected()),
    {
        Category::from_ruleset(self.could_expect.as_slice())
    }

    /// Get the token at the furthest position a match was tried at
    pub fn error_token(&self) -> (t: &Token)
        requires
            self.wf(),
        ensures
            *t == self.queue()[self.error_pos() as int],
    {
        &self.tokens[self.error_pos]
    }

    /// A syntax error at the furthest position a match was tried at, listing
    /// the rules tried there
    pub fn emit_err(&self) -> (e: ParserError)
        requires
            self.wf(),
        ensures
            e is Syntax,
            e->expected@ == self.expected(),
            e->found@ == self.queue()[self.error_pos() as int]@,
    {
        ParserError::Syntax {
            expected: clone_rules(&self.could_expect),
            found: self.error_token().clone(),
        }
    }

    fn try_update_error_pos(&mut self, rules: &[Rule])
        requires
            old(self).wf(),
        ensures
            final(self).wf(),
            final(self).queue() == old(self).queue(),
            final(self).lens() == old(self).lens(),
            ({
                let len = old(self).spec_len();
                let ep = old(self).error_pos();
                let (nep, nexp) = (final(self).error_pos(), final(self).expected());
                &&& len == 0 ==> nep == ep && nexp == old(self).expected()
                &&& len > 0 && len - 1 < ep ==> nep == len - 1 && nexp == Seq::<Rule>::empty()
                &&& len > 0 && len - 1 == ep ==> nep == ep && nexp == old(self).expected() + rules@
                &&& len > 0 && len - 1 > ep ==> nep == ep && nexp == old(self).expected()
            }),
    {
        let len = self.len();
        if len == 0 {
            return ;
        }
        let pos = len - 1;
        if pos < self.error_pos {
            self.error_pos = pos;
            self.could_expect = Vec::new();
        } else if self.error_pos == pos {
            self.could_expect.extend_from_slice(rules);
        }
    }

    fn take_one(&mut self)
        requires
            old(self).wf(),
        ensures
            final(self).wf(),
            final(self).lens() == taken(old(self).lens()),
            final(self).queue() == old(self).queue(),
            final(self).error_pos() == old(self).error_pos(),
            final(self).expected() == old(self).expected(),
    {
        let last = self.cur_len.len() - 1;
        let l = self.cur_len[last];
        if l > 0 {
            self.cur_len.set(last, l - 1);
        }
    }

    fn unborrow_err(&mut self) -> (l: usize)
        requires
            old(self).wf(),
        ensures
            final(self).wf(),
            (final(self).lens(), l) == unborrow(old(self).lens()),
            final(self).queue() == old(self).queue(),
            final(self).error_pos() == old(self).error_pos(),
            final(self).expected() == old(self).expected(),
    {
        if self.cur_len.len() == 1 {
            1
        } else {
            self.cur_len.pop().unwrap()
        }
    }

    fn unborrow_ok(&mut self) -> (l: usize)
        requires
            old(self).wf(),
        ensures
            final(self).wf(),
            final(self).lens() == applied(old(self).lens()),
            final(self).queue() == old(self).queue(),
            final(self).error_pos() == old(self).error_pos(),
            final(self).expected() == old(self).expected(),
    {
        if self.cur_len.len() == 1 {
            return self.len();
        }
        let l = self.unborrow_err();
        let last = self.cur_len.len() - 1;
        self.cur_len.set(last, l);
        l
    }

    fn borrow(&mut self)
        requires
            old(self).wf(),
        ensures
            final(self).wf(),
            final(self).lens() == started(old(self).lens()),
            final(self).queue() == old(self).queue(),
            final(self).error_pos() == old(self).error_pos(),
            final(self).expected() == old(self).expected(),
    {
        let l = self.len();
        self.cur_len.push(l);
    }

    /// Take the next token off the stack; `None` when no token is left.
    /// Changes last until the open transaction is applied or reverted
    pub fn pop(&mut self) -> (t: Option<Token>)
        requires
            old(self).wf(),
        ensures
            final(self).wf(),
            final(self).queue() == old(self).queue(),
            final(self).lens() == taken(old(self).lens()),
            final(self).error_pos() == old(self).error_pos(),
            final(self).expected() == old(self).expected(),
            old(self).spec_len() == 0 ==> t is None,
            old(self).spec_len() > 0 ==> (t matches Some(tok) && tok@ == old(self).queue()[old(self).spec_len() - 1]@),
    {
        let len = self.len();
        if len == 0 {
            return None;
        }
        let t = self.tokens[len - 1].clone();
        self.take_one();
        Some(t)
    }

    /// Peek at the next token on the stack
    pub fn peek(&self) -> (t: Option<&Token>)
        requires
            self.wf(),
        ensures
            self.spec_len() == 0 ==> t is None,
            self.spec_len() > 0 ==> t == Some(&self.queue()[self.spec_len() - 1]),
    {
        let len = self.len();
        if len == 0 {
            None
        } else {
            Some(&self.tokens[len - 1])
        }
    }

    /// Take the next token when it is one of `rules`; otherwise revert the open
    /// transaction. Either way the rules are noted as expected when the next
    /// position is the furthest one tried
    pub fn try_pop_a(&mut self, rules: &[Rule]) -> (t: Option<Token>)
        requires
            old(self).wf(),
        ensures
            final(self).wf(),
            final(self).queue() == old(self).queue(),
            ({
                let len = old(self).spec_len();
                let matched = len > 0 && rules@.contains(old(self).queue()[len - 1]@.rule);
                &&& matched ==> (t matches Some(tok) && tok@ == old(self).queue()[len - 1]@
                    && final(self).lens() == taken(old(self).lens()))
                &&& !matched ==> t is None && final(self).lens() == reverted(old(self).lens())
            }),
    {
        self.try_update_error_pos(rules);
        let matched = match self.peek() {
            Some(t) => t.is_a(rules),
            None => false,
        };
        if matched {
            return self.pop();
        }
        self.revert_transaction();
        None
    }

    /// The next token when it is one of `rules`. The rules are noted as
    /// expected when the next position is the furthest one tried
    pub fn try_peek_a(&mut self, rules: &[Rule]) -> (t: Option<&Token>)
        requires
            old(self).wf(),
        ensures
            final(self).wf(),
            final(self).queue() == old(self).queue(),
            final(self).lens() == old(self).lens(),
            ({
                let len = old(self).spec_len();
                let matched = len > 0 && rules@.contains(old(self).queue()[len - 1]@.rule);
                &&& matched ==> t == Some(&old(self).queue()[len - 1])
                &&& !matched ==> t is None
            }),
    {
        self.try_update_error_pos(rules);
        match self.peek() {
            Some(t) => {
                if t.is_a(rules) {
                    Some(t)
                } else {
                    None
                }
            },
            None => None,
        }
    }

    /// Apply the changes of the open transaction
    pub fn apply_transaction(&mut self)
        requires
            old(self).wf(),
        ensures
            final(self).wf(),
            final(self).lens() == applied(old(self).lens()),
            final(self).queue() == old(self).queue(),
            final(self).error_pos() == old(self).error_pos(),
            final(self).expected() == old(self).expected(),
    {
        self.unborrow_ok();
    }

    /// Revert the stack to its form before the open transaction
    pub fn revert_transaction(&mut self)
        requires
            old(self).wf(),
        ensures
            final(self).wf(),
            final(self).lens() == reverted(old(self).lens()),
            final(self).queue() == old(self).queue(),
            final(self).error_pos() == old(self).error_pos(),
            final(self).expected() == old(self).expected(),
    {
        self.unborrow_err();
    }

    /// Start a new reversible transaction on the stack
    pub fn start_transaction(&mut self)
        requires
            old(self).wf(),
        ensures
            final(self).wf(),
            final(self).lens() == started(old(self).lens()),
            final(self).queue() == old(self).queue(),
            final(self).error_pos() == old(self).error_pos(),
            final(self).expected() == old(self).expected(),
    {
        self.borrow();
    }
}

fn clone_rules(v: &Vec<Rule>) -> (r: Vec<Rule>)
    ensures
        r@ == v@,
{
    let mut r: Vec<Rule> = Vec::new();
    let mut i: usize = 0;
    while i < v.len()
        invariant
            i <= v@.len(),
            r@ == v@.take(i as int),
        decreases v@.len() - i,
    {
        r.push(v[i]);
        i = i + 1;
        assert(r@ =~= v@.take(i as int));
    }
    assert(v@.take(v@.len() as int) =~= v@);
    r
}

} // verus!
