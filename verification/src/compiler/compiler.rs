//! The bytecode buffer the compiler writes, with its debug profile and the
//! jump targets of the loops being compiled.
use crate::compiler::debug_profile::{packed, DebugProfile};
use crate::lexer::token::Token;
use crate::traits::SerializeToBytes;
use crate::value::types::{type_code, ValueType};
use std::ops::Range;
use std::collections::hash_map::DefaultHasher;
use std::hash::Hasher;
use vstd::std_specs::hash::DefaultHasherAdditionalSpecFns;
use vstd::string::StringSliceAdditionalSpecFns;
use vstd::prelude::*;

verus! {

/// Options for the compiler
#[derive(Debug, Clone, Copy, PartialEq, Eq, Structural)]
pub struct CompilerOptions {
    /// Whether to include debug information in the bytecode
    pub debug: bool,
    /// Whether to allow syscalld calls
    pub allow_syscalld: bool,
}

impl Default for CompilerOptions {
    fn default() -> (o: Self)
        ensures
            o.debug,
            !o.allow_syscalld,
    {
        CompilerOptions { debug: true, allow_syscalld: false }
    }
}

/// Compiles source code into bytecode
#[derive(Debug, Clone)]
pub struct Compiler {
    bytecode: Vec<u8>,
    /// For each open loop: where it starts, and the jump targets of its breaks
    loop_stack: Vec<(usize, Vec<Range<usize>>)>,
    debug: DebugProfile,
    options: CompilerOptions,
}

/// The hash of a text: what a fresh `DefaultHasher` finishes with after one
/// write of the text's UTF-8 bytes
pub open spec fn str_hash(s: &str) -> u64 {
    DefaultHasher::spec_finish(seq![s.spec_bytes()])
}

/// Hash a string to a u64
pub trait HashString {
    /// Hash a string to a u64
    fn hash_str(&self) -> u64;
}

/// Hash the UTF-8 bytes of a text with a fresh `DefaultHasher`
fn default_hash(s: &str) -> (h: u64)
    ensures
        h == str_hash(s),
{
    let mut hasher = DefaultHasher::new();
    hasher.write(s.as_bytes());
    hasher.finish()
}

impl HashString for str {
    fn hash_str(&self) -> (h: u64)
        ensures
            h == str_hash(self),
    {
        default_hash(self)
    }
}

impl Compiler {
    /// The bytecode written so far
    pub closed spec fn code(&self) -> Seq<u8> {
        self.bytecode@
    }

    /// The open loops: their starts and the jump targets of their breaks
    pub closed spec fn loops(&self) -> Seq<(usize, Seq<Range<usize>>)> {
        self.loop_stack@.map_values(|l: (usize, Vec<Range<usize>>)| (l.0, l.1@))
    }

    /// The debug profile written so far
    pub closed spec fn profile(&self) -> DebugProfile {
        self.debug
    }

    /// The options compiled with
    pub closed spec fn opts(&self) -> CompilerOptions {
        self.options
    }

    /// The profile has its main input
    pub closed spec fn wf(&self) -> bool {
        self.debug.wf()
    }

    /// Every break target of an open loop is eight bytes of the bytecode
    pub open spec fn targets_in_bounds(&self) -> bool {
        forall|i: int, j: int|
            #![trigger self.loops()[i].1[j]]
            0 <= i < self.loops().len() && 0 <= j < self.loops()[i].1.len()
                ==> self.loops()[i].1[j].start + 8 == self.loops()[i].1[j].end <= self.code().len()
    }

    /// Create a new compiler for the source text
    pub fn new(input: &str, options: CompilerOptions) -> (c: Self)
        ensures
            c.wf(),
            c.code() == Seq::<u8>::empty(),
            c.loops() == Seq::<(usize, Seq<Range<usize>>)>::empty(),
            c.profile().sources() == seq![(Seq::<char>::empty(), input@)],
            c.profile().entries().len() == 0,
            c.opts() == options,
    {
        let c = Compiler {
            bytecode: Vec::new(),
            loop_stack: Vec::new(),
            debug: DebugProfile::new(input),
            options,
        };
        assert(c.loops() =~= Seq::<(usize, Seq<Range<usize>>)>::empty());
        c
    }

    /// Get the compiler options
    pub fn options(&self) -> (o: &CompilerOptions)
        ensures
            *o == self.opts(),
    {
        &self.options
    }

    /// Record in the debug profile, when debugging, that the code from here on
    /// was compiled from `token`
    pub fn push_token(&mut self, token: Token)
        requires
            old(self).wf(),
        ensures
            final(self).wf(),
            final(self).code() == old(self).code(),
            final(self).loops() == old(self).loops(),
            final(self).opts() == old(self).opts(),
            final(self).profile().sources() == old(self).profile().sources(),
            old(self).opts().debug ==> final(self).profile().entries() == old(self).profile().entries().push(
                (old(self).code().len() as usize, packed(token@)),
            ),
            !old(self).opts().debug ==> final(self).profile().entries() == old(self).profile().entries(),
    {
        if self.options.debug {
            let pos = self.bytecode.len();
            self.debug.insert(pos, token);
        }
    }

    /// Push the byte of an instruction; returns its index
    pub fn push(&mut self, op: u8) -> (i: usize)
        requires
            old(self).wf(),
        ensures
            final(self).wf(),
            final(self).code() == old(self).code().push(op),
            i == old(self).code().len(),
            final(self).loops() == old(self).loops(),
            final(self).profile() == old(self).profile(),
            final(self).opts() == old(self).opts(),
    {
        self.push_u8(op)
    }

    /// Push the byte of a type, part of some instructions; returns its index
    pub fn push_type(&mut self, typecode: ValueType) -> (i: usize)
        requires
            old(self).wf(),
        ensures
            final(self).wf(),
            final(self).code() == old(self).code().push(type_code(typecode)),
            i == old(self).code().len(),
            final(self).loops() == old(self).loops(),
            final(self).profile() == old(self).profile(),
            final(self).opts() == old(self).opts(),
    {
        self.push_u8(typecode.code())
    }

    /// Push a byte; returns its index
    pub fn push_u8(&mut self, value: u8) -> (i: usize)
        requires
            old(self).wf(),
        ensures
            final(self).wf(),
            final(self).code() == old(self).code().push(value),
            i == old(self).code().len(),
            final(self).loops() == old(self).loops(),
            final(self).profile() == old(self).profile(),
            final(self).opts() == old(self).opts(),
    {
        self.bytecode.push(value);
        self.bytecode.len() - 1
    }

    /// Push the four big-endian bytes of a value; returns their range
    pub fn push_i32(&mut self, value: i32) -> (r: Range<usize>)
        requires
            old(self).wf(),
        ensures
            final(self).wf(),
            final(self).code() == old(self).code() + value.encoding(),
            r.start == old(self).code().len(),
            r.end == final(self).code().len(),
            final(self).loops() == old(self).loops(),
            final(self).profile() == old(self).profile(),
            final(self).opts() == old(self).opts(),
    {
        let bytes = value.serialize_into_bytes();
        self.extend(bytes)
    }

    /// Push the eight big-endian bytes of a value; returns their range
    pub fn push_u64(&mut self, value: u64) -> (r: Range<usize>)
        requires
            old(self).wf(),
        ensures
            final(self).wf(),
            final(self).code() == old(self).code() + value.encoding(),
            r.start == old(self).code().len(),
            r.end == final(self).code().len(),
            final(self).loops() == old(self).loops(),
            final(self).profile() == old(self).profile(),
            final(self).opts() == old(self).opts(),
    {
        let bytes = value.serialize_into_bytes();
        self.extend(bytes)
    }

    /// Push the 64-bit hash of a string, used for memory access; returns the
    /// range of its bytes
    pub fn push_strhash(&mut self, input: &str) -> (r: Range<usize>)
        requires
            old(self).wf(),
        ensures
            final(self).wf(),
            final(self).code() == old(self).code() + str_hash(input).encoding(),
            r.start == old(self).code().len(),
            r.end == final(self).code().len(),
            final(self).loops() == old(self).loops(),
            final(self).profile() == old(self).profile(),
            final(self).opts() == old(self).opts(),
    {
        let hash = input.hash_str();
        self.push_u64(hash)
    }

    /// Push a block of bytes; returns their range
    pub fn extend(&mut self, other: Vec<u8>) -> (r: Range<usize>)
        requires
            old(self).wf(),
        ensures
            final(self).wf(),
            final(self).code() == old(self).code() + other@,
            r.start == old(self).code().len(),
            r.end == final(self).code().len(),
            final(self).loops() == old(self).loops(),
            final(self).profile() == old(self).profile(),
            final(self).opts() == old(self).opts(),
    {
        let pos = self.bytecode.len();
        self.bytecode.extend_from_slice(other.as_slice());
        pos..self.bytecode.len()
    }

    /// Returns the length of the bytecode
    pub fn len(&self) -> (n: usize)
        ensures
            n == self.code().len(),
    {
        self.bytecode.len()
    }

    /// Replace a range of the bytecode with new bytes
    pub fn replace(&mut self, range: Range<usize>, value: Vec<u8>)
        requires
            old(self).wf(),
            range.start <= range.end <= old(self).code().len(),
        ensures
            final(self).wf(),
            final(self).code() == spliced(old(self).code(), range, value@),
            final(self).loops() == old(self).loops(),
            final(self).profile() == old(self).profile(),
            final(self).opts() == old(self).opts(),
    {
        let mut code: Vec<u8> = Vec::new();
        let mut k: usize = 0;
        while k < range.start
            invariant
                k <= range.start <= range.end <= self.bytecode@.len(),
                code@ == self.bytecode@.subrange(0, k as int),
            decreases range.start - k,
        {
            code.push(self.bytecode[k]);
            k = k + 1;
            assert(code@ =~= self.bytecode@.subrange(0, k as int));
        }
        code.extend_from_slice(value.as_slice());
        let mut k = range.end;
        let ghost mid = code@;
        while k < self.bytecode.len()
            invariant
                range.end <= k <= self.bytecode@.len(),
                code@ == mid + self.bytecode@.subrange(range.end as int, k as int),
            decreases self.bytecode@.len() - k,
        {
            code.push(self.bytecode[k]);
            k = k + 1;
            assert(code@ =~= mid + self.bytecode@.subrange(range.end as int, k as int));
        }
        self.bytecode = code;
    }

    /// Get the bytecode
    pub fn bytecode(&self) -> (b: &[u8])
        ensures
            b@ == self.code(),
    {
        self.bytecode.as_slice()
    }

    /// Consume the compiler and return the bytecode
    pub fn into_bytecode(self) -> (b: Vec<u8>)
        ensures
            b@ == self.code(),
    {
        self.bytecode
    }

    /// Decompose the compiler into its debug profile and bytecode
    pub fn decompose(self) -> (r: (DebugProfile, Vec<u8>))
        ensures
            r.0 == self.profile(),
            r.1@ == self.code(),
    {
        (self.debug, self.bytecode)
    }
}

/// The bytes with `range` replaced by `value`
pub open spec fn spliced(code: Seq<u8>, range: Range<usize>, value: Seq<u8>) -> Seq<u8> {
    code.subrange(0, range.start as int) + value + code.subrange(range.end as int, code.len() as int)
}

/// The bytes with each target in turn replaced by `value`
pub open spec fn patched(code: Seq<u8>, targets: Seq<Range<usize>>, value: Seq<u8>) -> Seq<u8>
    decreases targets.len(),
{
    if targets.len() == 0 {
        code
    } else {
        spliced(patched(code, targets.drop_last(), value), targets.last(), value)
    }
}

/// Extensions for the compiler to handle loops. The instruction byte of a jump
/// is given by the caller
pub trait LoopCompilationExt {
    /// The compiler is well formed and its break targets lie in its bytecode
    spec fn loops_ok(&self) -> bool;

    /// A loop is open
    spec fn in_loop(&self) -> bool;

    /// Start a new loop
    fn start_loop(&mut self)
        requires
            old(self).loops_ok(),
        ensures
            final(self).loops_ok(),
            final(self).in_loop(),
    ;

    /// End the current loop; its breaks jump to the current position
    fn end_loop(&mut self)
        requires
            old(self).loops_ok(),
            old(self).in_loop(),
        ensures
            final(self).loops_ok(),
    ;

    /// Push a jump to the end of the current loop
    fn push_break(&mut self, jump: u8)
        requires
            old(self).loops_ok(),
            old(self).in_loop(),
        ensures
            final(self).loops_ok(),
            final(self).in_loop(),
    ;

    /// Push a jump to the start of the current loop
    fn push_continue(&mut self, jump: u8)
        requires
            old(self).loops_ok(),
            old(self).in_loop(),
        ensures
            final(self).loops_ok(),
            final(self).in_loop(),
    ;
}

impl LoopCompilationExt for Compiler {
    open spec fn loops_ok(&self) -> bool {
        self.wf() && self.targets_in_bounds()
    }

    open spec fn in_loop(&self) -> bool {
        self.loops().len() > 0
    }

    fn start_loop(&mut self)
        ensures
            final(self).code() == old(self).code(),
            final(self).loops() == old(self).loops().push(
                (old(self).code().len() as usize, Seq::<Range<usize>>::empty()),
            ),
            final(self).profile() == old(self).profile(),
            final(self).opts() == old(self).opts(),
    {
        let pos = self.bytecode.len();
        self.loop_stack.push((pos, Vec::new()));
        assert(self.loops() =~= old(self).loops().push((pos, Seq::<Range<usize>>::empty())));
        assert forall|i: int, j: int|
            0 <= i < self.loops().len() && 0 <= j < self.loops()[i].1.len() implies #[trigger] self.loops()[i].1[j].start + 8 == self.loops()[i].1[j].end
                <= self.code().len() by {
            assert(i < old(self).loops().len());
            assert(self.loops()[i] == old(self).loops()[i]);
        }
    }

    fn end_loop(&mut self)
        ensures
            final(self).loops() == old(self).loops().drop_last(),
            final(self).code() == patched(
                old(self).code(),
                old(self).loops().last().1,
                (old(self).code().len() as usize).encoding(),
            ),
            final(self).profile() == old(self).profile(),
            final(self).opts() == old(self).opts(),
    {
        let ghost before = self.loops();
        assert(before.len() > 0);
        let ghost last = self.loop_stack@.last();
        assert(before.last() == (last.0, last.1@));
        let (_, breaks) = self.loop_stack.pop().unwrap();
        assert(breaks@ == before.last().1);
        assert(self.loops() =~= before.drop_last());
        let pos = self.bytecode.len();
        let ghost len = pos;
        assert forall|j: int| 0 <= j < breaks@.len() implies #[trigger] breaks@[j].start + 8 == breaks@[j].end <= len by {
            assert(before.len() - 1 < before.len());
        }
        let mut k: usize = 0;
        while k < breaks.len()
            invariant
                k <= breaks@.len(),
                breaks@ == before.last().1,
                before.len() > 0,
                self.loops() == before.drop_last(),
                self.wf(),
                self.bytecode@.len() == len,
                pos == len,
                forall|j: int| 0 <= j < breaks@.len() ==> #[trigger] breaks@[j].start + 8 == breaks@[j].end <= len,
                self.code() == patched(old(self).code(), breaks@.take(k as int), (len as usize).encoding()),
                self.debug == old(self).debug,
                self.options == old(self).options,
            decreases breaks@.len() - k,
        {
            let target = breaks[k].start..breaks[k].end;
            let bytes = pos.serialize_into_bytes();
            proof {
                crate::traits::lemma_be_encode_len(pos as nat, 8);
            }
            assert(target == breaks@[k as int]);
            let ghost prev_code = self.code();
            self.replace(target, bytes);
            proof {
                assert(breaks@.take(k + 1).drop_last() =~= breaks@.take(k as int));
                assert(breaks@.take(k + 1).last() == breaks@[k as int]);
                assert(bytes@ == (len as usize).encoding());
                assert(self.code() == spliced(prev_code, breaks@[k as int], (len as usize).encoding()));
                assert(self.code() == patched(old(self).code(), breaks@.take(k + 1), (len as usize).encoding()));
            }
            k = k + 1;
        }
        assert(breaks@.take(breaks@.len() as int) =~= breaks@);
        assert forall|i: int, j: int|
            0 <= i < self.loops().len() && 0 <= j < self.loops()[i].1.len() implies #[trigger] self.loops()[i].1[j].start + 8 == self.loops()[i].1[j].end
                <= self.code().len() by {
            assert(self.loops()[i] == before[i]);
        }
    }

    fn push_break(&mut self, jump: u8)
        ensures
            final(self).code() == old(self).code().push(jump) + 0u64.encoding(),
            final(self).loops() == old(self).loops().drop_last().push(
                (
                    old(self).loops().last().0,
                    old(self).loops().last().1.push(
                        (old(self).code().len() + 1) as usize..(old(self).code().len() + 9) as usize,
                    ),
                ),
            ),
            final(self).profile() == old(self).profile(),
            final(self).opts() == old(self).opts(),
    {
        self.push(jump);
        let target = self.push_u64(0);
        proof {
            crate::traits::lemma_be_encode_len(0, 8);
        }
        let ghost mid = self.loops();
        let (start, mut breaks) = self.loop_stack.pop().unwrap();
        breaks.push(target);
        self.loop_stack.push((start, breaks));
        assert forall|i: int, j: int|
            0 <= i < self.loops().len() && 0 <= j < self.loops()[i].1.len() implies #[trigger] self.loops()[i].1[j].start + 8 == self.loops()[i].1[j].end
                <= self.code().len() by {
            if i < mid.len() - 1 {
                assert(self.loops()[i] == mid[i]);
                assert(mid[i] == old(self).loops()[i]);
            } else if j < mid.last().1.len() {
                assert(self.loops()[i].1[j] == old(self).loops()[i].1[j]);
            }
        }
        assert(self.loops() =~= old(self).loops().drop_last().push(
            (
                old(self).loops().last().0,
                old(self).loops().last().1.push(
                    (old(self).code().len() + 1) as usize..(old(self).code().len() + 9) as usize,
                ),
            ),
        ));
    }

    fn push_continue(&mut self, jump: u8)
        ensures
            final(self).code() == old(self).code().push(jump) + (old(self).loops().last().0 as u64).encoding(),
            final(self).loops() == old(self).loops(),
            final(self).profile() == old(self).profile(),
            final(self).opts() == old(self).opts(),
    {
        self.push(jump);
        let start = self.loop_stack[self.loop_stack.len() - 1].0;
        self.push_u64(start as u64);
        proof {
            crate::traits::lemma_be_encode_len(start as nat, 8);
        }
        assert forall|i: int, j: int|
            0 <= i < self.loops().len() && 0 <= j < self.loops()[i].1.len() implies #[trigger] self.loops()[i].1[j].start + 8 == self.loops()[i].1[j].end
                <= self.code().len() by {
            assert(self.loops()[i] == old(self).loops()[i]);
            assert(old(self).loops()[i].1[j] == self.loops()[i].1[j]);
        }
    }
}

} // verus!
