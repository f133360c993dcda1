//! Pieces of the bytecode disassembler: its errors and the generator of
//! readable jump labels.
use crate::lexer::token::Token;
use vstd::prelude::*;

verus! {

/// An error that can occur during disassembly, usually caused by invalid
/// bytecode
#[derive(Debug, Clone)]
pub enum Error {
    /// An opcode that is not recognized, with the token it was compiled from
    /// and its offset
    BadOp(Option<Token>, usize),
    /// A jump instruction that points to an invalid offset
    BadJump(usize),
}

/// Number of words labels are made of
pub const DICT_LEN: usize = 20;

/// The `k`-th word of the label dictionary
pub open spec fn dict_word(k: int) -> Seq<char> {
    if k == 0 { "arbitrary"@ } else
    if k == 1 { "bananas"@ } else
    if k == 2 { "cabbage"@ } else
    if k == 3 { "dolphin"@ } else
    if k == 4 { "pointbreak"@ } else
    if k == 5 { "alabaster"@ } else
    if k == 6 { "umbrella"@ } else
    if k == 7 { "grapefruit"@ } else
    if k == 8 { "hedgehog"@ } else
    if k == 9 { "jellybean"@ } else
    if k == 10 { "kangaroo"@ } else
    if k == 11 { "lumberjack"@ } else
    if k == 12 { "marmalade"@ } else
    if k == 13 { "noodle"@ } else
    if k == 14 { "octopus"@ } else
    if k == 15 { "penguin"@ } else
    if k == 16 { "quarantine"@ } else
    if k == 17 { "rhubarb"@ } else
    if k == 18 { "salamander"@ } else
    if k == 19 { "tangerine"@ } else { Seq::empty() }
}

fn dict_str(k: usize) -> (s: &'static str)
    requires
        k < DICT_LEN,
    ensures
        s@ == dict_word(k as int),
{
    match k {
        0 => "arbitrary",
        1 => "bananas",
        2 => "cabbage",
        3 => "dolphin",
        4 => "pointbreak",
        5 => "alabaster",
        6 => "umbrella",
        7 => "grapefruit",
        8 => "hedgehog",
        9 => "jellybean",
        10 => "kangaroo",
        11 => "lumberjack",
        12 => "marmalade",
        13 => "noodle",
        14 => "octopus",
        15 => "penguin",
        16 => "quarantine",
        17 => "rhubarb",
        18 => "salamander",
        19 => "tangerine",
        _ => "",
    }
}

/// The label of number `n`: a word for each of the first 20 numbers, then
/// the label of `n / 20 - 1`, an underscore and the word of `n % 20`. Labels
/// count in base 20 with words for digits, so no two numbers share one
pub open spec fn label(n: nat) -> Seq<char>
    decreases n,
{
    if n < DICT_LEN {
        dict_word(n as int)
    } else {
        label((n / 20 - 1) as nat) + "_"@ + dict_word((n % 20) as int)
    }
}

/// The first two characters of each word of the label dictionary
spec fn word_key(k: int) -> (char, char) {
    if k == 0 { ('a', 'r') } else
    if k == 1 { ('b', 'a') } else
    if k == 2 { ('c', 'a') } else
    if k == 3 { ('d', 'o') } else
    if k == 4 { ('p', 'o') } else
    if k == 5 { ('a', 'l') } else
    if k == 6 { ('u', 'm') } else
    if k == 7 { ('g', 'r') } else
    if k == 8 { ('h', 'e') } else
    if k == 9 { ('j', 'e') } else
    if k == 10 { ('k', 'a') } else
    if k == 11 { ('l', 'u') } else
    if k == 12 { ('m', 'a') } else
    if k == 13 { ('n', 'o') } else
    if k == 14 { ('o', 'c') } else
    if k == 15 { ('p', 'e') } else
    if k == 16 { ('q', 'u') } else
    if k == 17 { ('r', 'h') } else
    if k == 18 { ('s', 'a') } else { ('t', 'a') }
}

/// The text holds no underscore
pub open spec fn no_underscore(s: Seq<char>) -> bool {
    forall|i: int| 0 <= i < s.len() ==> s[i] != '_'
}

/// Each word of the dictionary starts with its key and holds no underscore
proof fn lemma_dict_word(k: int)
    requires
        0 <= k < 20,
    ensures
        dict_word(k).len() >= 2,
        dict_word(k)[0] == word_key(k).0,
        dict_word(k)[1] == word_key(k).1,
        no_underscore(dict_word(k)),
{
    if k == 0 { reveal_strlit("arbitrary"); } else
    if k == 1 { reveal_strlit("bananas"); } else
    if k == 2 { reveal_strlit("cabbage"); } else
    if k == 3 { reveal_strlit("dolphin"); } else
    if k == 4 { reveal_strlit("pointbreak"); } else
    if k == 5 { reveal_strlit("alabaster"); } else
    if k == 6 { reveal_strlit("umbrella"); } else
    if k == 7 { reveal_strlit("grapefruit"); } else
    if k == 8 { reveal_strlit("hedgehog"); } else
    if k == 9 { reveal_strlit("jellybean"); } else
    if k == 10 { reveal_strlit("kangaroo"); } else
    if k == 11 { reveal_strlit("lumberjack"); } else
    if k == 12 { reveal_strlit("marmalade"); } else
    if k == 13 { reveal_strlit("noodle"); } else
    if k == 14 { reveal_strlit("octopus"); } else
    if k == 15 { reveal_strlit("penguin"); } else
    if k == 16 { reveal_strlit("quarantine"); } else
    if k == 17 { reveal_strlit("rhubarb"); } else
    if k == 18 { reveal_strlit("salamander"); } else { reveal_strlit("tangerine"); }
}

/// Two texts that end in an underscore and a word without underscores split
/// the same way
proof fn lemma_split_last(x: Seq<char>, w: Seq<char>, y: Seq<char>, v: Seq<char>)
    requires
        x + "_"@ + w == y + "_"@ + v,
        no_underscore(w),
        no_underscore(v),
    ensures
        x == y,
        w == v,
{
    reveal_strlit("_");
    let a = x + "_"@ + w;
    let b = y + "_"@ + v;
    let n = a.len();
    assert(a[x.len() as int] == '_');
    assert(b[y.len() as int] == '_');
    if w.len() < v.len() {
        assert(b[x.len() as int] == v[x.len() - y.len() - 1]);
    } else if v.len() < w.len() {
        assert(a[y.len() as int] == w[y.len() - x.len() - 1]);
    }
    assert(x =~= a.subrange(0, x.len() as int));
    assert(y =~= b.subrange(0, y.len() as int));
    assert(w =~= a.subrange(x.len() as int + 1, n as int));
    assert(v =~= b.subrange(y.len() as int + 1, n as int));
}

/// A label of a number from 20 on holds an underscore
proof fn lemma_label_underscore(n: nat)
    requires
        n >= 20,
    ensures
        !no_underscore(label(n)),
{
    reveal_strlit("_");
    let x = label((n / 20 - 1) as nat);
    assert((x + "_"@ + dict_word((n % 20) as int))[x.len() as int] == '_');
}

/// No two numbers share a label
pub proof fn lemma_label_injective(a: nat, b: nat)
    requires
        label(a) == label(b),
    ensures
        a == b,
    decreases a,
{
    if a < 20 && b < 20 {
        lemma_dict_word(a as int);
        lemma_dict_word(b as int);
    } else if a < 20 {
        lemma_dict_word(a as int);
        lemma_label_underscore(b);
    } else if b < 20 {
        lemma_dict_word(b as int);
        lemma_label_underscore(a);
    } else {
        lemma_dict_word((a % 20) as int);
        lemma_dict_word((b % 20) as int);
        lemma_split_last(
            label((a / 20 - 1) as nat),
            dict_word((a % 20) as int),
            label((b / 20 - 1) as nat),
            dict_word((b % 20) as int),
        );
        lemma_label_injective((a / 20 - 1) as nat, (b / 20 - 1) as nat);
    }
}

/// Generates human-readable labels, one number after the other
#[derive(Clone, Debug)]
pub struct LabelGun(usize);

impl LabelGun {
    /// The number of the next label
    pub closed spec fn count(&self) -> nat {
        self.0 as nat
    }

    /// Create a new label generator
    pub fn new() -> (g: Self)
        ensures
            g.count() == 0,
    {
        LabelGun(0)
    }

    /// Get the next label; each one differs from all before it
    pub fn next(&mut self) -> (s: String)
        requires
            old(self).count() < usize::MAX,
        ensures
            s@ == label(old(self).count()),
            final(self).count() == old(self).count() + 1,
    {
        let label = Self::to_basen(self.0);
        self.0 = self.0 + 1;
        label
    }

    /// Convert a number to a human-readable label
    fn to_basen(n: usize) -> (s: String)
        ensures
            s@ == label(n as nat),
        decreases n,
    {
        if n < DICT_LEN {
            String::from_str(dict_str(n))
        } else {
            let prefix = Self::to_basen(n / DICT_LEN - 1);
            let s = prefix.concat("_");
            s.concat(dict_str(n % DICT_LEN))
        }
    }
}

} // verus!
