//! The scanner: the longest lexeme at each position of the input.
//!
//! At each position every pattern of the language is matched as far as it
//! goes; the longest match wins, and of equally long matches the one found
//! first in the order of `scan` (a literal token before an identifier, a doc
//! comment before a line comment).
use crate::lexer::rule::{rule_label, Rule};
use crate::text::chars_of;
use vstd::prelude::*;

verus! {

/// Classes of characters that patterns repeat
#[derive(Clone, Copy, PartialEq, Eq, Structural)]
pub enum CharClass {
    Digit,
    DigitOrUnderscore,
    Alpha,
    AlphaNum,
    IdentChar,
    Space,
    NotNewline,
}

pub open spec fn is_digit(c: char) -> bool {
    '0' <= c <= '9'
}

pub open spec fn is_alpha(c: char) -> bool {
    ('a' <= c <= 'z') || ('A' <= c <= 'Z')
}

pub open spec fn in_class(class: CharClass, c: char) -> bool {
    match class {
        CharClass::Digit => is_digit(c),
        CharClass::DigitOrUnderscore => is_digit(c) || c == '_',
        CharClass::Alpha => is_alpha(c),
        CharClass::AlphaNum => is_alpha(c) || is_digit(c),
        CharClass::IdentChar => is_alpha(c) || is_digit(c) || c == '_',
        CharClass::Space => c == ' ' || c == '\t' || c == '\r' || c == '\x0c',
        CharClass::NotNewline => c != '\n',
    }
}

/// The currency symbols a number can carry
pub open spec fn is_currency(c: char) -> bool {
    c == '\u{24}' || c == '\u{a2}' || c == '\u{a3}' || c == '\u{a4}' || c == '\u{a5}' || c == '\u{58f}' || c == '\u{60b}' || c == '\u{7fe}' || c == '\u{7ff}' || c == '\u{9f2}' || c == '\u{9f3}' || c == '\u{9fb}' || c == '\u{af1}' || c == '\u{bf9}' || c == '\u{e3f}' || c == '\u{17db}' || ('\u{20a0}' <= c && c <= '\u{20bf}') || c == '\u{a838}' || c == '\u{fdfc}' || c == '\u{fe69}' || c == '\u{ff04}' || c == '\u{ffe0}' || c == '\u{ffe1}' || c == '\u{ffe5}' || c == '\u{ffe6}'
}

fn currency(c: char) -> (b: bool)
    ensures
        b == is_currency(c),
{
    c == '\u{24}' || c == '\u{a2}' || c == '\u{a3}' || c == '\u{a4}' || c == '\u{a5}' || c == '\u{58f}' || c == '\u{60b}' || c == '\u{7fe}' || c == '\u{7ff}' || c == '\u{9f2}' || c == '\u{9f3}' || c == '\u{9fb}' || c == '\u{af1}' || c == '\u{bf9}' || c == '\u{e3f}' || c == '\u{17db}' || ('\u{20a0}' <= c && c <= '\u{20bf}') || c == '\u{a838}' || c == '\u{fdfc}' || c == '\u{fe69}' || c == '\u{ff04}' || c == '\u{ffe0}' || c == '\u{ffe1}' || c == '\u{ffe5}' || c == '\u{ffe6}'
}

fn class_has(class: CharClass, c: char) -> (b: bool)
    ensures
        b == in_class(class, c),
{
    match class {
        CharClass::Digit => '0' <= c && c <= '9',
        CharClass::DigitOrUnderscore => ('0' <= c && c <= '9') || c == '_',
        CharClass::Alpha => ('a' <= c && c <= 'z') || ('A' <= c && c <= 'Z'),
        CharClass::AlphaNum => ('a' <= c && c <= 'z') || ('A' <= c && c <= 'Z') || ('0' <= c
            && c <= '9'),
        CharClass::IdentChar => ('a' <= c && c <= 'z') || ('A' <= c && c <= 'Z') || ('0' <= c
            && c <= '9') || c == '_',
        CharClass::Space => c == ' ' || c == '\t' || c == '\r' || c == '\x0c',
        CharClass::NotNewline => c != '\n',
    }
}

/// The character at `i` is `c`
pub open spec fn at(s: Seq<char>, i: int, c: char) -> bool {
    0 <= i < s.len() && s[i] == c
}

/// The character at `i` is in `class`
pub open spec fn at_class(s: Seq<char>, i: int, class: CharClass) -> bool {
    0 <= i < s.len() && in_class(class, s[i])
}

/// Length of the longest run of characters of `class` starting at `i`
pub open spec fn run(s: Seq<char>, i: int, class: CharClass) -> nat
    decreases s.len() - i,
{
    if at_class(s, i, class) {
        1 + run(s, i + 1, class)
    } else {
        0
    }
}

/// The input holds `lit` at `i`
pub open spec fn starts_with(s: Seq<char>, i: int, lit: Seq<char>) -> bool {
    0 <= i && i + lit.len() <= s.len() && s.subrange(i, i + lit.len()) == lit
}

fn char_at(s: &Vec<char>, i: usize, c: char) -> (b: bool)
    ensures
        b == at(s@, i as int, c),
        s@.len() <= usize::MAX,
{
    i < s.len() && s[i] == c
}

fn class_at(s: &Vec<char>, i: usize, class: CharClass) -> (b: bool)
    ensures
        b == at_class(s@, i as int, class),
        s@.len() <= usize::MAX,
{
    i < s.len() && class_has(class, s[i])
}

fn run_len(s: &Vec<char>, i: usize, class: CharClass) -> (r: usize)
    ensures
        r == run(s@, i as int, class),
        i <= s@.len() ==> i + r <= s@.len(),
        s@.len() <= usize::MAX,
{
    if i >= s.len() {
        return 0;
    }
    let mut k = i;
    while k < s.len() && class_has(class, s[k])
        invariant
            i <= k <= s@.len(),
            run(s@, i as int, class) == (k - i) + run(s@, k as int, class),
        decreases s@.len() - k,
    {
        k = k + 1;
    }
    k - i
}

fn starts_with_at(s: &Vec<char>, i: usize, lit: &Vec<char>) -> (b: bool)
    ensures
        b == starts_with(s@, i as int, lit@),
{
    if i > s.len() || lit.len() > s.len() - i {
        return false;
    }
    let mut k: usize = 0;
    while k < lit.len()
        invariant
            k <= lit@.len(),
            i + lit@.len() <= s@.len(),
            s@.len() <= usize::MAX,
            forall|j: int| 0 <= j < k ==> s@[i + j] == lit@[j],
        decreases lit@.len() - k,
    {
        if s[i + k] != lit[k] {
            assert(s@.subrange(i as int, i + lit@.len())[k as int] != lit@[k as int]);
            return false;
        }
        k = k + 1;
    }
    assert(s@.subrange(i as int, i + lit@.len()) =~= lit@);
    true
}

/// Number of literal tokens
pub const FIXED_COUNT: usize = 80;

/// The `k`-th literal token of the language and its rule
pub open spec fn fixed_entry(k: int) -> (Seq<char>, Rule) {
    if k == 0 { ("\\\n"@, Rule::SkippedEOL) } else
    if k == 1 { ("\\\r\n"@, Rule::SkippedEOL) } else
    if k == 2 { ("\n"@, Rule::EOL) } else
    if k == 3 { (";"@, Rule::EOL) } else
    if k == 4 { ("("@, Rule::LParen) } else
    if k == 5 { (")"@, Rule::RParen) } else
    if k == 6 { ("{"@, Rule::LBrace) } else
    if k == 7 { ("}"@, Rule::RBrace) } else
    if k == 8 { ("["@, Rule::LBrack) } else
    if k == 9 { ("]"@, Rule::RBrack) } else
    if k == 10 { (","@, Rule::Comma) } else
    if k == 11 { ("."@, Rule::Dot) } else
    if k == 12 { (":"@, Rule::Colon) } else
    if k == 13 { ("?"@, Rule::Question) } else
    if k == 14 { ("=>"@, Rule::FatArrow) } else
    if k == 15 { (".."@, Rule::Range) } else
    if k == 16 { ("@"@, Rule::Decorator) } else
    if k == 17 { ("="@, Rule::Assign) } else
    if k == 18 { ("+="@, Rule::AssignAdd) } else
    if k == 19 { ("-="@, Rule::AssignSub) } else
    if k == 20 { ("**="@, Rule::AssignPow) } else
    if k == 21 { ("*="@, Rule::AssignMul) } else
    if k == 22 { ("/="@, Rule::AssignDiv) } else
    if k == 23 { ("%="@, Rule::AssignMod) } else
    if k == 24 { ("|="@, Rule::AssignOr) } else
    if k == 25 { ("&="@, Rule::AssignAnd) } else
    if k == 26 { ("^="@, Rule::AssignXor) } else
    if k == 27 { ("<<="@, Rule::AssignSL) } else
    if k == 28 { (">>="@, Rule::AssignSR) } else
    if k == 29 { ("+"@, Rule::Add) } else
    if k == 30 { ("-"@, Rule::Sub) } else
    if k == 31 { ("**"@, Rule::Pow) } else
    if k == 32 { ("*"@, Rule::Mul) } else
    if k == 33 { ("/"@, Rule::Div) } else
    if k == 34 { ("%"@, Rule::Mod) } else
    if k == 35 { ("~"@, Rule::BitwiseNot) } else
    if k == 36 { ("|"@, Rule::BitwiseOr) } else
    if k == 37 { ("&"@, Rule::BitwiseAnd) } else
    if k == 38 { ("^"@, Rule::Xor) } else
    if k == 39 { ("<<"@, Rule::SL) } else
    if k == 40 { (">>"@, Rule::SR) } else
    if k == 41 { ("||"@, Rule::LogicalOr) } else
    if k == 42 { ("&&"@, Rule::LogicalAnd) } else
    if k == 43 { ("!"@, Rule::LogicalNot) } else
    if k == 44 { ("==="@, Rule::SEq) } else
    if k == 45 { ("!=="@, Rule::SNe) } else
    if k == 46 { ("=="@, Rule::Eq) } else
    if k == 47 { ("!="@, Rule::Ne) } else
    if k == 48 { ("<="@, Rule::Le) } else
    if k == 49 { (">="@, Rule::Ge) } else
    if k == 50 { ("<"@, Rule::Lt) } else
    if k == 51 { (">"@, Rule::Gt) } else
    if k == 52 { ("if"@, Rule::If) } else
    if k == 53 { ("then"@, Rule::Then) } else
    if k == 54 { ("else"@, Rule::Else) } else
    if k == 55 { ("for"@, Rule::For) } else
    if k == 56 { ("in"@, Rule::In) } else
    if k == 57 { ("do"@, Rule::Do) } else
    if k == 58 { ("where"@, Rule::Where) } else
    if k == 59 { ("switch"@, Rule::Switch) } else
    if k == 60 { ("return"@, Rule::Return) } else
    if k == 61 { ("continue"@, Rule::Continue) } else
    if k == 62 { ("break"@, Rule::Break) } else
    if k == 63 { ("as"@, Rule::As) } else
    if k == 64 { ("contains"@, Rule::Contains) } else
    if k == 65 { ("matches"@, Rule::Matches) } else
    if k == 66 { ("ref"@, Rule::Reference) } else
    if k == 67 { ("pi"@, Rule::LiteralConstPi) } else
    if k == 68 { ("e"@, Rule::LiteralConstE) } else
    if k == 69 { ("tau"@, Rule::LiteralConstTau) } else
    if k == 70 { ("nil"@, Rule::LiteralConstNil) } else
    if k == 71 { ("true"@, Rule::LiteralConstTrue) } else
    if k == 72 { ("false"@, Rule::LiteralConstFalse) } else
    if k == 73 { ("delete"@, Rule::Delete) } else
    if k == 74 { ("del"@, Rule::Delete) } else
    if k == 75 { ("unset"@, Rule::Delete) } else
    if k == 76 { ("starts_with"@, Rule::StartsWith) } else
    if k == 77 { ("startswith"@, Rule::StartsWith) } else
    if k == 78 { ("ends_with"@, Rule::EndsWith) } else
    if k == 79 { ("endswith"@, Rule::EndsWith) } else { (Seq::empty(), Rule::Error) }
}

/// Each operator, punctuation and keyword text in the lexer's table is read
/// as the rule displayed as that very text; line ends and constants are read
/// as their own rules, and the other spellings of `del`, `starts_with` and
/// `ends_with` as the rule of that keyword
pub proof fn lemma_fixed_texts_name_their_rules(k: int)
    requires
        0 <= k < FIXED_COUNT,
    ensures
        4 <= k <= 66 ==> rule_label(fixed_entry(k).1) == fixed_entry(k).0,
        (k == 74 || k == 76 || k == 78) ==> rule_label(fixed_entry(k).1) == fixed_entry(k).0,
        (k == 73 || k == 75) ==> rule_label(fixed_entry(k).1) == "del"@,
        k == 77 ==> rule_label(fixed_entry(k).1) == "starts_with"@,
        k == 79 ==> rule_label(fixed_entry(k).1) == "ends_with"@,
        (k == 0 || k == 1) ==> rule_label(fixed_entry(k).1) == "SkippedEOL"@,
        (k == 2 || k == 3) ==> rule_label(fixed_entry(k).1) == "end of line"@,
        k == 67 ==> rule_label(fixed_entry(k).1) == "LiteralConstPi"@,
        k == 68 ==> rule_label(fixed_entry(k).1) == "LiteralConstE"@,
        k == 69 ==> rule_label(fixed_entry(k).1) == "LiteralConstTau"@,
        k == 70 ==> rule_label(fixed_entry(k).1) == "LiteralConstNil"@,
        k == 71 ==> rule_label(fixed_entry(k).1) == "LiteralConstTrue"@,
        k == 72 ==> rule_label(fixed_entry(k).1) == "LiteralConstFalse"@,
{
}

fn fixed_entry_chars(k: usize) -> (e: (Vec<char>, Rule))
    requires
        k < FIXED_COUNT,
    ensures
        e.0@ == fixed_entry(k as int).0,
        e.1 == fixed_entry(k as int).1,
{
    match k {
        0 => (chars_of("\\\n"), Rule::SkippedEOL),
        1 => (chars_of("\\\r\n"), Rule::SkippedEOL),
        2 => (chars_of("\n"), Rule::EOL),
        3 => (chars_of(";"), Rule::EOL),
        4 => (chars_of("("), Rule::LParen),
        5 => (chars_of(")"), Rule::RParen),
        6 => (chars_of("{"), Rule::LBrace),
        7 => (chars_of("}"), Rule::RBrace),
        8 => (chars_of("["), Rule::LBrack),
        9 => (chars_of("]"), Rule::RBrack),
        10 => (chars_of(","), Rule::Comma),
        11 => (chars_of("."), Rule::Dot),
        12 => (chars_of(":"), Rule::Colon),
        13 => (chars_of("?"), Rule::Question),
        14 => (chars_of("=>"), Rule::FatArrow),
        15 => (chars_of(".."), Rule::Range),
        16 => (chars_of("@"), Rule::Decorator),
        17 => (chars_of("="), Rule::Assign),
        18 => (chars_of("+="), Rule::AssignAdd),
        19 => (chars_of("-="), Rule::AssignSub),
        20 => (chars_of("**="), Rule::AssignPow),
        21 => (chars_of("*="), Rule::AssignMul),
        22 => (chars_of("/="), Rule::AssignDiv),
        23 => (chars_of("%="), Rule::AssignMod),
        24 => (chars_of("|="), Rule::AssignOr),
        25 => (chars_of("&="), Rule::AssignAnd),
        26 => (chars_of("^="), Rule::AssignXor),
        27 => (chars_of("<<="), Rule::AssignSL),
        28 => (chars_of(">>="), Rule::AssignSR),
        29 => (chars_of("+"), Rule::Add),
        30 => (chars_of("-"), Rule::Sub),
        31 => (chars_of("**"), Rule::Pow),
        32 => (chars_of("*"), Rule::Mul),
        33 => (chars_of("/"), Rule::Div),
        34 => (chars_of("%"), Rule::Mod),
        35 => (chars_of("~"), Rule::BitwiseNot),
        36 => (chars_of("|"), Rule::BitwiseOr),
        37 => (chars_of("&"), Rule::BitwiseAnd),
        38 => (chars_of("^"), Rule::Xor),
        39 => (chars_of("<<"), Rule::SL),
        40 => (chars_of(">>"), Rule::SR),
        41 => (chars_of("||"), Rule::LogicalOr),
        42 => (chars_of("&&"), Rule::LogicalAnd),
        43 => (chars_of("!"), Rule::LogicalNot),
        44 => (chars_of("==="), Rule::SEq),
        45 => (chars_of("!=="), Rule::SNe),
        46 => (chars_of("=="), Rule::Eq),
        47 => (chars_of("!="), Rule::Ne),
        48 => (chars_of("<="), Rule::Le),
        49 => (chars_of(">="), Rule::Ge),
        50 => (chars_of("<"), Rule::Lt),
        51 => (chars_of(">"), Rule::Gt),
        52 => (chars_of("if"), Rule::If),
        53 => (chars_of("then"), Rule::Then),
        54 => (chars_of("else"), Rule::Else),
        55 => (chars_of("for"), Rule::For),
        56 => (chars_of("in"), Rule::In),
        57 => (chars_of("do"), Rule::Do),
        58 => (chars_of("where"), Rule::Where),
        59 => (chars_of("switch"), Rule::Switch),
        60 => (chars_of("return"), Rule::Return),
        61 => (chars_of("continue"), Rule::Continue),
        62 => (chars_of("break"), Rule::Break),
        63 => (chars_of("as"), Rule::As),
        64 => (chars_of("contains"), Rule::Contains),
        65 => (chars_of("matches"), Rule::Matches),
        66 => (chars_of("ref"), Rule::Reference),
        67 => (chars_of("pi"), Rule::LiteralConstPi),
        68 => (chars_of("e"), Rule::LiteralConstE),
        69 => (chars_of("tau"), Rule::LiteralConstTau),
        70 => (chars_of("nil"), Rule::LiteralConstNil),
        71 => (chars_of("true"), Rule::LiteralConstTrue),
        72 => (chars_of("false"), Rule::LiteralConstFalse),
        73 => (chars_of("delete"), Rule::Delete),
        74 => (chars_of("del"), Rule::Delete),
        75 => (chars_of("unset"), Rule::Delete),
        76 => (chars_of("starts_with"), Rule::StartsWith),
        77 => (chars_of("startswith"), Rule::StartsWith),
        78 => (chars_of("ends_with"), Rule::EndsWith),
        79 => (chars_of("endswith"), Rule::EndsWith),
        _ => (chars_of(""), Rule::Error),
    }
}

/// The literal tokens as characters
pub fn fixed_table() -> (t: Vec<(Vec<char>, Rule)>)
    ensures
        t@.len() == FIXED_COUNT,
        forall|k: int| 0 <= k < t@.len() ==> #[trigger] t@[k].0@ == fixed_entry(k).0 && t@[k].1 == fixed_entry(k).1,
{
    let mut t: Vec<(Vec<char>, Rule)> = Vec::new();
    let mut k: usize = 0;
    while k < FIXED_COUNT
        invariant
            k <= FIXED_COUNT,
            t@.len() == k,
            forall|j: int| 0 <= j < k ==> #[trigger] t@[j].0@ == fixed_entry(j).0 && t@[j].1 == fixed_entry(j).1,
        decreases FIXED_COUNT - k,
    {
        t.push(fixed_entry_chars(k));
        k = k + 1;
    }
    t
}

/// The longest literal token among the first `k` of the table that the input
/// holds at `i`; the earlier one of equally long ones; length 0 for none
pub open spec fn fixed_best(s: Seq<char>, i: int, k: int) -> (nat, Rule)
    decreases k,
{
    if k <= 0 {
        (0, Rule::Error)
    } else {
        let prev = fixed_best(s, i, k - 1);
        let entry = fixed_entry(k - 1);
        if starts_with(s, i, entry.0) && entry.0.len() > prev.0 {
            (entry.0.len(), entry.1)
        } else {
            prev
        }
    }
}

fn fixed_match(s: &Vec<char>, i: usize, table: &Vec<(Vec<char>, Rule)>) -> (r: (usize, Rule))
    requires
        table@.len() == FIXED_COUNT,
        forall|k: int| 0 <= k < table@.len() ==> #[trigger] table@[k].0@ == fixed_entry(k).0 && table@[k].1 == fixed_entry(k).1,
    ensures
        (r.0 as nat, r.1) == fixed_best(s@, i as int, FIXED_COUNT as int),
        r.0 > 0 ==> i + r.0 <= s@.len(),
{
    let mut best: (usize, Rule) = (0, Rule::Error);
    let mut k: usize = 0;
    while k < table.len()
        invariant
            k <= table@.len(),
            table@.len() == FIXED_COUNT,
            forall|j: int| 0 <= j < table@.len() ==> #[trigger] table@[j].0@ == fixed_entry(j).0 && table@[j].1 == fixed_entry(j).1,
            (best.0 as nat, best.1) == fixed_best(s@, i as int, k as int),
            best.0 > 0 ==> i + best.0 <= s@.len(),
        decreases table@.len() - k,
    {
        let lit = &table[k].0;
        if starts_with_at(s, i, lit) && lit.len() > best.0 {
            best = (lit.len(), table[k].1);
        }
        k = k + 1;
    }
    best
}

/// Length of a block comment at `i`: past the closing `*/` of
/// `/\*([^*]|\*[^/])*\*/`, counted from the body position `i`; 0 when the
/// comment is never closed. `star` tells that the last body character was a `*`
/// that opens a pair
pub open spec fn block_rest(s: Seq<char>, i: int, star: bool) -> nat
    decreases s.len() - i,
{
    if i < 0 || i >= s.len() {
        0
    } else if star && s[i] == '/' {
        1
    } else {
        let next = if star { false } else { s[i] == '*' };
        let r = block_rest(s, i + 1, next);
        if r == 0 {
            0
        } else {
            1 + r
        }
    }
}

/// Length of a quoted body at `i`, up to and including the closing `q`, for
/// the pattern `([^q\\]+|\\.)*q`; 0 when it is never closed
pub open spec fn quoted_rest(s: Seq<char>, i: int, q: char) -> nat
    decreases s.len() - i,
{
    if i < 0 || i >= s.len() {
        0
    } else if s[i] == q {
        1
    } else if s[i] == '\\' {
        if i + 1 < s.len() && s[i + 1] != '\n' {
            let r = quoted_rest(s, i + 2, q);
            if r == 0 {
                0
            } else {
                2 + r
            }
        } else {
            0
        }
    } else {
        let r = quoted_rest(s, i + 1, q);
        if r == 0 {
            0
        } else {
            1 + r
        }
    }
}

fn block_rest_len(s: &Vec<char>, i: usize) -> (r: usize)
    ensures
        r == block_rest(s@, i as int, false),
        r > 0 ==> i + r <= s@.len(),
{
    let mut k = i;
    let mut star = false;
    while k < s.len()
        invariant
            i <= k,
            block_rest(s@, i as int, false) == if block_rest(s@, k as int, star) == 0 {
                0
            } else {
                (k - i) + block_rest(s@, k as int, star)
            },
        decreases s@.len() - k,
    {
        if star && s[k] == '/' {
            return k + 1 - i;
        }
        star = if star { false } else { s[k] == '*' };
        k = k + 1;
    }
    0
}

fn quoted_rest_len(s: &Vec<char>, i: usize, q: char) -> (r: usize)
    ensures
        r == quoted_rest(s@, i as int, q),
        r > 0 ==> i + r <= s@.len(),
{
    let mut k = i;
    while k < s.len()
        invariant
            i <= k,
            quoted_rest(s@, i as int, q) == if quoted_rest(s@, k as int, q) == 0 {
                0
            } else {
                (k - i) + quoted_rest(s@, k as int, q)
            },
        decreases s@.len() - k,
    {
        if s[k] == q {
            return k + 1 - i;
        } else if s[k] == '\\' {
            if k + 1 < s.len() && s[k + 1] != '\n' {
                k = k + 2;
            } else {
                return 0;
            }
        } else {
            k = k + 1;
        }
    }
    0
}

/// `//#[^\n]*`
pub open spec fn doc_len(s: Seq<char>, i: int) -> nat {
    if at(s, i, '/') && at(s, i + 1, '/') && at(s, i + 2, '#') {
        3 + run(s, i + 3, CharClass::NotNewline)
    } else {
        0
    }
}

/// `//[^\n]*`
pub open spec fn line_comment_len(s: Seq<char>, i: int) -> nat {
    if at(s, i, '/') && at(s, i + 1, '/') {
        2 + run(s, i + 2, CharClass::NotNewline)
    } else {
        0
    }
}

/// `/\*([^*]|\*[^/])*\*/`
pub open spec fn block_comment_len(s: Seq<char>, i: int) -> nat {
    if at(s, i, '/') && at(s, i + 1, '*') && block_rest(s, i + 2, false) > 0 {
        2 + block_rest(s, i + 2, false)
    } else {
        0
    }
}

/// `"([^"\\]+|\\.)*"` and `'([^'\\]+|\\.)*'`
pub open spec fn string_len(s: Seq<char>, i: int) -> nat {
    if at(s, i, '"') && quoted_rest(s, i + 1, '"') > 0 {
        1 + quoted_rest(s, i + 1, '"')
    } else if at(s, i, '\'') && quoted_rest(s, i + 1, '\'') > 0 {
        1 + quoted_rest(s, i + 1, '\'')
    } else {
        0
    }
}

/// `r"([^"\\]+|\\.)*"[a-zA-Z]*` and `r'([^'\\]+|\\.)*'[a-zA-Z]*`
pub open spec fn regex_len(s: Seq<char>, i: int) -> nat {
    if at(s, i, 'r') && at(s, i + 1, '"') && quoted_rest(s, i + 2, '"') > 0 {
        let q = quoted_rest(s, i + 2, '"');
        2 + q + run(s, i + 2 + q, CharClass::Alpha)
    } else if at(s, i, 'r') && at(s, i + 1, '\'') && quoted_rest(s, i + 2, '\'') > 0 {
        let q = quoted_rest(s, i + 2, '\'');
        2 + q + run(s, i + 2 + q, CharClass::Alpha)
    } else {
        0
    }
}

/// `(\.(\d|_)+)`: a dot and at least one digit or underscore
pub open spec fn fraction_len(s: Seq<char>, i: int) -> nat {
    if at(s, i, '.') && run(s, i + 1, CharClass::DigitOrUnderscore) > 0 {
        1 + run(s, i + 1, CharClass::DigitOrUnderscore)
    } else {
        0
    }
}

/// `[eE][+-]?\d+`
pub open spec fn exponent_len(s: Seq<char>, i: int) -> nat {
    if at(s, i, 'e') || at(s, i, 'E') {
        let sign: int = if at(s, i + 1, '+') || at(s, i + 1, '-') {
            1
        } else {
            0
        };
        let d = run(s, i + 1 + sign, CharClass::Digit);
        if d > 0 {
            (1 + sign + d) as nat
        } else {
            0
        }
    } else {
        0
    }
}

/// `(([0-9](\d|_)*(\.(\d|_)+))|(\.(\d|_)+))([eE][+-]?\d+)?`
pub open spec fn float_len(s: Seq<char>, i: int) -> nat {
    let mantissa = if at_class(s, i, CharClass::Digit) {
        let a = 1 + run(s, i + 1, CharClass::DigitOrUnderscore);
        let f = fraction_len(s, i + a);
        if f > 0 {
            a + f
        } else {
            0
        }
    } else {
        fraction_len(s, i)
    };
    if mantissa > 0 {
        mantissa + exponent_len(s, i + mantissa)
    } else {
        0
    }
}

/// `([1-9](\d|_)*(\.(\d|_)+)?)|(\.(\d|_)+)`: the amount of a currency literal
pub open spec fn amount_len(s: Seq<char>, i: int) -> nat {
    if 0 <= i < s.len() && '1' <= s[i] <= '9' {
        let a = 1 + run(s, i + 1, CharClass::DigitOrUnderscore);
        a + fraction_len(s, i + a)
    } else {
        fraction_len(s, i)
    }
}

/// An amount followed by a currency symbol
pub open spec fn suffixed_len(s: Seq<char>, i: int) -> nat {
    let a = amount_len(s, i);
    if a > 0 && 0 <= i + a < s.len() && is_currency(s[i + a]) {
        a + 1
    } else {
        0
    }
}

/// A currency symbol followed by an amount
pub open spec fn prefixed_len(s: Seq<char>, i: int) -> nat {
    if 0 <= i < s.len() && is_currency(s[i]) && amount_len(s, i + 1) > 0 {
        1 + amount_len(s, i + 1)
    } else {
        0
    }
}

/// `0[a-zA-Z][a-zA-Z0-9]+`
pub open spec fn radix_len(s: Seq<char>, i: int) -> nat {
    if at(s, i, '0') && at_class(s, i + 1, CharClass::Alpha) && run(s, i + 2, CharClass::AlphaNum)
        > 0 {
        2 + run(s, i + 2, CharClass::AlphaNum)
    } else {
        0
    }
}

/// `[0-9](\d|_)*`
pub open spec fn int_len(s: Seq<char>, i: int) -> nat {
    if at_class(s, i, CharClass::Digit) {
        1 + run(s, i + 1, CharClass::DigitOrUnderscore)
    } else {
        0
    }
}

/// `[a-zA-Z_][0-9A-Za-z_]*`
pub open spec fn ident_len(s: Seq<char>, i: int) -> nat {
    if at_class(s, i, CharClass::Alpha) || at(s, i, '_') {
        1 + run(s, i + 1, CharClass::IdentChar)
    } else {
        0
    }
}

/// Keep the earlier candidate unless the later one is longer
pub open spec fn longer(best: (nat, Option<Rule>), len: nat, kind: Option<Rule>) -> (
    nat,
    Option<Rule>,
) {
    if len > best.0 {
        (len, kind)
    } else {
        best
    }
}

/// The lexeme at `i`: its length (0 when no pattern matches) and its rule
/// (`None` for a run of blanks)
pub open spec fn scan(s: Seq<char>, i: int) -> (nat, Option<Rule>) {
    let fixed = fixed_best(s, i, FIXED_COUNT as int);
    let b = (fixed.0, Some(fixed.1));
    let b = longer(b, doc_len(s, i), Some(Rule::DocBlockComment));
    let b = longer(b, line_comment_len(s, i), Some(Rule::LineComment));
    let b = longer(b, block_comment_len(s, i), Some(Rule::BlockComment));
    let b = longer(b, run(s, i, CharClass::Space), None);
    let b = longer(b, string_len(s, i), Some(Rule::LiteralString));
    let b = longer(b, regex_len(s, i), Some(Rule::LiteralRegex));
    let b = longer(b, float_len(s, i), Some(Rule::LiteralFloat));
    let b = longer(b, suffixed_len(s, i), Some(Rule::LiteralSuffixedCurrency));
    let b = longer(b, prefixed_len(s, i), Some(Rule::LiteralPrefixedCurrency));
    let b = longer(b, radix_len(s, i), Some(Rule::LiteralRadix));
    let b = longer(b, int_len(s, i), Some(Rule::LiteralInt));
    longer(b, ident_len(s, i), Some(Rule::LiteralIdent))
}

fn fraction(s: &Vec<char>, i: usize) -> (r: usize)
    ensures
        r == fraction_len(s@, i as int),
        r > 0 ==> i + r <= s@.len(),
{
    if char_at(s, i, '.') {
        let d = run_len(s, i + 1, CharClass::DigitOrUnderscore);
        if d > 0 {
            return 1 + d;
        }
    }
    0
}

fn exponent(s: &Vec<char>, i: usize) -> (r: usize)
    requires
        i <= s@.len(),
    ensures
        r == exponent_len(s@, i as int),
        i + r <= s@.len(),
{
    if char_at(s, i, 'e') || char_at(s, i, 'E') {
        let sign: usize = if char_at(s, i + 1, '+') || char_at(s, i + 1, '-') {
            1
        } else {
            0
        };
        let d = run_len(s, i + 1 + sign, CharClass::Digit);
        if d > 0 {
            return 1 + sign + d;
        }
    }
    0
}

fn amount(s: &Vec<char>, i: usize) -> (r: usize)
    ensures
        r == amount_len(s@, i as int),
        r > 0 ==> i + r <= s@.len(),
{
    if i < s.len() && '1' <= s[i] && s[i] <= '9' {
        let a = 1 + run_len(s, i + 1, CharClass::DigitOrUnderscore);
        a + fraction(s, i + a)
    } else {
        fraction(s, i)
    }
}

/// The length and rule of the lexeme at `i`, as `scan` gives them
pub(crate) fn scan_at(s: &Vec<char>, i: usize, table: &Vec<(Vec<char>, Rule)>) -> (r: (usize, Option<Rule>))
    requires
        i < s@.len(),
        table@.len() == FIXED_COUNT,
        forall|k: int| 0 <= k < table@.len() ==> #[trigger] table@[k].0@ == fixed_entry(k).0 && table@[k].1 == fixed_entry(k).1,
    ensures
        (r.0 as nat, r.1) == scan(s@, i as int),
        i + r.0 <= s@.len(),
{
    let fixed = fixed_match(s, i, table);
    let mut best: (usize, Option<Rule>) = (fixed.0, Some(fixed.1));

    // `//#[^\n]*` and `//[^\n]*`
    if char_at(s, i, '/') && char_at(s, i + 1, '/') {
        let line = 2 + run_len(s, i + 2, CharClass::NotNewline);
        if char_at(s, i + 2, '#') {
            let doc = 3 + run_len(s, i + 3, CharClass::NotNewline);
            if doc > best.0 {
                best = (doc, Some(Rule::DocBlockComment));
            }
        }
        if line > best.0 {
            best = (line, Some(Rule::LineComment));
        }
    }
    // `/\*([^*]|\*[^/])*\*/`
    if char_at(s, i, '/') && char_at(s, i + 1, '*') {
        let b = block_rest_len(s, i + 2);
        if b > 0 && 2 + b > best.0 {
            best = (2 + b, Some(Rule::BlockComment));
        }
    }
    let blanks = run_len(s, i, CharClass::Space);
    if blanks > best.0 {
        best = (blanks, None);
    }
    // strings
    if char_at(s, i, '"') || char_at(s, i, '\'') {
        let q = s[i];
        let b = quoted_rest_len(s, i + 1, q);
        if b > 0 && 1 + b > best.0 {
            best = (1 + b, Some(Rule::LiteralString));
        }
    }
    // regular expressions
    if char_at(s, i, 'r') && (char_at(s, i + 1, '"') || char_at(s, i + 1, '\'')) {
        let q = s[i + 1];
        let b = quoted_rest_len(s, i + 2, q);
        if b > 0 {
            let len = 2 + b + run_len(s, i + 2 + b, CharClass::Alpha);
            if len > best.0 {
                best = (len, Some(Rule::LiteralRegex));
            }
        }
    }
    // floats
    let mantissa = if class_at(s, i, CharClass::Digit) {
        let a = 1 + run_len(s, i + 1, CharClass::DigitOrUnderscore);
        let f = fraction(s, i + a);
        if f > 0 {
            a + f
        } else {
            0
        }
    } else {
        fraction(s, i)
    };
    if mantissa > 0 {
        let len = mantissa + exponent(s, i + mantissa);
        if len > best.0 {
            best = (len, Some(Rule::LiteralFloat));
        }
    }
    // currencies
    let a = amount(s, i);
    if a > 0 && i + a < s.len() && currency(s[i + a]) && a + 1 > best.0 {
        best = (a + 1, Some(Rule::LiteralSuffixedCurrency));
    }
    if currency(s[i]) {
        let a = amount(s, i + 1);
        if a > 0 && 1 + a > best.0 {
            best = (1 + a, Some(Rule::LiteralPrefixedCurrency));
        }
    }
    // `0[a-zA-Z][a-zA-Z0-9]+`
    if char_at(s, i, '0') && class_at(s, i + 1, CharClass::Alpha) {
        let d = run_len(s, i + 2, CharClass::AlphaNum);
        if d > 0 && 2 + d > best.0 {
            best = (2 + d, Some(Rule::LiteralRadix));
        }
    }
    // `[0-9](\d|_)*`
    if class_at(s, i, CharClass::Digit) {
        let len = 1 + run_len(s, i + 1, CharClass::DigitOrUnderscore);
        if len > best.0 {
            best = (len, Some(Rule::LiteralInt));
        }
    }
    // `[a-zA-Z_][0-9A-Za-z_]*`
    if class_at(s, i, CharClass::Alpha) || char_at(s, i, '_') {
        let len = 1 + run_len(s, i + 1, CharClass::IdentChar);
        if len > best.0 {
            best = (len, Some(Rule::LiteralIdent));
        }
    }
    best
}

} // verus!
