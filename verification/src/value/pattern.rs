//! Regular expressions written as strings: `/pattern/flags` or a bare pattern,
//! and matching them against text.
use crate::value::error::ValueError;
use vstd::prelude::*;

verus! {

/// The flags a regular expression is built with
#[derive(Debug, Clone, Copy, PartialEq, Eq, Structural)]
pub struct RegexFlags {
    /// `i`: letters match either case
    pub case_insensitive: bool,
    /// `m`: `^` and `$` match at line breaks
    pub multi_line: bool,
    /// `s`: `.` matches a line break
    pub dot_matches_new_line: bool,
    /// `U`: repetitions are lazy unless marked greedy
    pub swap_greed: bool,
    /// `x`: whitespace and comments in the pattern are ignored
    pub ignore_whitespace: bool,
}

/// How a pattern is anchored before it is matched
#[derive(Debug, Clone, Copy, PartialEq, Eq, Structural)]
pub enum Anchoring {
    /// The pattern may match anywhere
    Anywhere,
    /// The pattern must match at the start
    Start,
    /// The pattern must match at the end
    End,
    /// The pattern must match the whole text
    Whole,
}

/// A name for what the regex crate's `RegexBuilder::build` and
/// `Regex::is_match` give: whether the pattern, built with the flags, matches
/// somewhere in the text; none when the pattern does not build
pub uninterp spec fn regex_match(
    pattern: Seq<char>,
    case_insensitive: bool,
    multi_line: bool,
    dot_matches_new_line: bool,
    swap_greed: bool,
    ignore_whitespace: bool,
    text: Seq<char>,
) -> Option<bool>;

/// Wraps `regex::RegexBuilder`: builds the pattern with the flags (Unicode
/// mode stays on, as by default) and asks `Regex::is_match` whether it
/// matches the text; a pattern that does not build gives none
#[verifier::external_body]
fn regex_is_match(pattern: &str, flags: RegexFlags, text: &str) -> (r: Option<bool>)
    ensures
        r == regex_match(
            pattern@,
            flags.case_insensitive,
            flags.multi_line,
            flags.dot_matches_new_line,
            flags.swap_greed,
            flags.ignore_whitespace,
            text@,
        ),
{
    match regex::RegexBuilder::new(pattern).case_insensitive(flags.case_insensitive).multi_line(
        flags.multi_line,
    ).dot_matches_new_line(flags.dot_matches_new_line).swap_greed(flags.swap_greed).ignore_whitespace(
        flags.ignore_whitespace,
    ).build() {
        Ok(re) => Some(re.is_match(text)),
        Err(_) => None,
    }
}

/// The state of reading a written pattern: the pattern so far, the flags so
/// far, inside the slashes, after the closing slash, after a backslash
pub type ScanState = (Seq<char>, Seq<char>, bool, bool, bool);

/// Reads one character of a written pattern
pub open spec fn scan_step(st: ScanState, c: char) -> ScanState {
    let (pattern, flags, in_regex, in_flags, escape) = st;
    if escape {
        (pattern.push(c), flags, in_regex, in_flags, false)
    } else if c == '/' && !in_regex {
        (pattern, flags, true, in_flags, false)
    } else if c == '/' {
        (pattern, flags, false, true, false)
    } else if c == '\\' {
        (pattern.push(c), flags, in_regex, in_flags, true)
    } else if in_flags {
        (pattern, flags.push(c), in_regex, in_flags, false)
    } else {
        (pattern.push(c), flags, in_regex, in_flags, false)
    }
}

/// The state after reading the characters of `s`
pub open spec fn scan_pattern(s: Seq<char>) -> ScanState
    decreases s.len(),
{
    if s.len() == 0 {
        (Seq::empty(), Seq::empty(), false, false, false)
    } else {
        scan_step(scan_pattern(s.drop_last()), s.last())
    }
}

/// The pattern a written one stands for: the text between and around the
/// slashes, or the whole input when a slash is left open; then anchored
pub open spec fn pattern_text(input: Seq<char>, anchoring: Anchoring) -> Seq<char> {
    let st = scan_pattern(input);
    let p = if st.2 {
        input
    } else {
        st.0
    };
    let p = if (anchoring == Anchoring::Start || anchoring == Anchoring::Whole) && !(p.len() > 0
        && p[0] == '^') {
        seq!['^'] + p
    } else {
        p
    };
    if (anchoring == Anchoring::End || anchoring == Anchoring::Whole) && !(p.len() > 0 && p.last()
        == '$') {
        p.push('$')
    } else {
        p
    }
}

/// Anchoring at the start puts `^` first, anchoring at the end puts `$` last,
/// and each only adds its anchor to the unanchored pattern when the pattern
/// lacks it; anchoring the whole text does both
pub proof fn lemma_anchoring(input: Seq<char>)
    ensures
        ({
            let bare = pattern_text(input, Anchoring::Anywhere);
            let start = pattern_text(input, Anchoring::Start);
            let end = pattern_text(input, Anchoring::End);
            let whole = pattern_text(input, Anchoring::Whole);
            &&& start.len() > 0 && start[0] == '^'
            &&& end.len() > 0 && end.last() == '$'
            &&& whole.len() > 0 && whole[0] == '^' && whole.last() == '$'
            &&& start == if bare.len() > 0 && bare[0] == '^' { bare } else { seq!['^'] + bare }
            &&& end == if bare.len() > 0 && bare.last() == '$' { bare } else { bare.push('$') }
        }),
{
    let bare = pattern_text(input, Anchoring::Anywhere);
    let start = pattern_text(input, Anchoring::Start);
    let whole = pattern_text(input, Anchoring::Whole);
    if !(bare.len() > 0 && bare[0] == '^') {
        assert((seq!['^'] + bare)[0] == '^');
    }
    assert(start.len() > 0 && start[0] == '^');
    if !(start.len() > 0 && start.last() == '$') {
        assert(start.push('$')[0] == '^');
    }
}

/// A character that names a flag
pub open spec fn is_flag(c: char) -> bool {
    c == 'i' || c == 'm' || c == 's' || c == 'U' || c == 'u' || c == 'x'
}

/// The first character after the closing slash that names no flag
pub open spec fn first_bad_flag(flags: Seq<char>) -> Option<char>
    decreases flags.len(),
{
    if flags.len() == 0 {
        None
    } else if !is_flag(flags[0]) {
        Some(flags[0])
    } else {
        first_bad_flag(flags.drop_first())
    }
}

/// The flags named after the closing slash
pub open spec fn flags_of(flags: Seq<char>) -> RegexFlags {
    RegexFlags {
        case_insensitive: flags.contains('i'),
        multi_line: flags.contains('m'),
        dot_matches_new_line: flags.contains('s'),
        swap_greed: flags.contains('U'),
        ignore_whitespace: flags.contains('x'),
    }
}

proof fn lemma_contains_push(s: Seq<char>, c: char, x: char)
    ensures
        s.push(c).contains(x) == (s.contains(x) || c == x),
{
    if s.push(c).contains(x) {
        let i = choose|i: int| 0 <= i < s.push(c).len() && s.push(c)[i] == x;
        if i < s.len() {
            assert(s[i] == x);
        }
    }
    if s.contains(x) {
        let i = choose|i: int| 0 <= i < s.len() && s[i] == x;
        assert(s.push(c)[i] == x);
    }
    if c == x {
        assert(s.push(c)[s.len() as int] == x);
    }
}

/// Reads a written pattern, `/pattern/flags` or a bare pattern, into the
/// pattern to build, anchored as asked, and its flags; a character after
/// the closing slash that names no flag is an error
pub fn convert_string_to_pattern(input: &str, anchoring: Anchoring) -> (r: Result<
    (String, RegexFlags),
    ValueError,
>)
    ensures
        match first_bad_flag(scan_pattern(input@).1) {
            Some(c) => r == Err::<(String, RegexFlags), ValueError>(ValueError::InvalidRegexFlag(c)),
            None => r matches Ok((p, f)) && p@ == pattern_text(input@, anchoring) && f == flags_of(
                scan_pattern(input@).1,
            ),
        },
{
    let chars = crate::text::chars_of(input);
    let mut pattern: Vec<char> = Vec::new();
    let mut flags: Vec<char> = Vec::new();
    let mut in_regex = false;
    let mut in_flags = false;
    let mut escape = false;
    let mut i: usize = 0;
    while i < chars.len()
        invariant
            i <= chars@.len(),
            chars@ == input@,
            scan_pattern(chars@.take(i as int)) == (pattern@, flags@, in_regex, in_flags, escape),
        decreases chars@.len() - i,
    {
        let c = chars[i];
        proof {
            assert(chars@.take(i + 1).drop_last() =~= chars@.take(i as int));
        }
        if escape {
            escape = false;
            pattern.push(c);
        } else if c == '/' && !in_regex {
            in_regex = true;
        } else if c == '/' {
            in_regex = false;
            in_flags = true;
        } else if c == '\\' {
            escape = true;
            pattern.push(c);
        } else if in_flags {
            flags.push(c);
        } else {
            pattern.push(c);
        }
        i = i + 1;
    }
    assert(chars@.take(chars@.len() as int) =~= chars@);
    let mut p = if in_regex {
        chars
    } else {
        pattern
    };
    let anchor_start = match anchoring {
        Anchoring::Start | Anchoring::Whole => true,
        _ => false,
    };
    let anchor_end = match anchoring {
        Anchoring::End | Anchoring::Whole => true,
        _ => false,
    };
    if anchor_start && !(p.len() > 0 && p[0] == '^') {
        p.insert(0, '^');
    }
    if anchor_end && !(p.len() > 0 && p[p.len() - 1] == '$') {
        p.push('$');
    }
    assert(p@ =~= pattern_text(input@, anchoring));
    let mut set = RegexFlags {
        case_insensitive: false,
        multi_line: false,
        dot_matches_new_line: false,
        swap_greed: false,
        ignore_whitespace: false,
    };
    let mut k: usize = 0;
    assert(flags@.skip(0) =~= flags@);
    assert(flags@.take(0) =~= Seq::<char>::empty());
    while k < flags.len()
        invariant
            k <= flags@.len(),
            scan_pattern(input@).1 == flags@,
            p@ == pattern_text(input@, anchoring),
            forall|j: int| 0 <= j < k ==> is_flag(#[trigger] flags@[j]),
            first_bad_flag(flags@) == first_bad_flag(flags@.skip(k as int)),
            set.case_insensitive == flags@.take(k as int).contains('i'),
            set.multi_line == flags@.take(k as int).contains('m'),
            set.dot_matches_new_line == flags@.take(k as int).contains('s'),
            set.swap_greed == flags@.take(k as int).contains('U'),
            set.ignore_whitespace == flags@.take(k as int).contains('x'),
        decreases flags@.len() - k,
    {
        let c = flags[k];
        proof {
            assert(flags@.skip(k as int).drop_first() =~= flags@.skip(k + 1));
            assert(flags@.skip(k as int)[0] == c);
            assert(flags@.take(k + 1) =~= flags@.take(k as int).push(c));
        }
        proof {
            lemma_contains_push(flags@.take(k as int), c, 'i');
            lemma_contains_push(flags@.take(k as int), c, 'm');
            lemma_contains_push(flags@.take(k as int), c, 's');
            lemma_contains_push(flags@.take(k as int), c, 'U');
            lemma_contains_push(flags@.take(k as int), c, 'x');
        }
        if c == 'i' {
            set.case_insensitive = true;
        } else if c == 'm' {
            set.multi_line = true;
        } else if c == 's' {
            set.dot_matches_new_line = true;
        } else if c == 'U' {
            set.swap_greed = true;
        } else if c == 'u' {
        } else if c == 'x' {
            set.ignore_whitespace = true;
        } else {
            return Err(ValueError::InvalidRegexFlag(c));
        }
        k = k + 1;
    }
    assert(flags@.take(flags@.len() as int) =~= flags@);
    assert(flags@.skip(flags@.len() as int) =~= Seq::<char>::empty());
    Ok((crate::text::string_from_chars(p.as_slice()), set))
}

/// What matching a text against a written pattern gives: the flag error,
/// whether the pattern matches, or a regex error when it does not build
pub open spec fn regex_outcome(text: Seq<char>, input: Seq<char>, anchoring: Anchoring) -> Result<
    bool,
    ValueError,
> {
    match first_bad_flag(scan_pattern(input).1) {
        Some(c) => Err(ValueError::InvalidRegexFlag(c)),
        None => {
            let f = flags_of(scan_pattern(input).1);
            match regex_match(
                pattern_text(input, anchoring),
                f.case_insensitive,
                f.multi_line,
                f.dot_matches_new_line,
                f.swap_greed,
                f.ignore_whitespace,
                text,
            ) {
                Some(b) => Ok(b),
                None => Err(ValueError::RegexError),
            }
        },
    }
}

/// Whether the text matches the written pattern, anchored as asked
pub fn checked_regex(text: &str, pattern: &str, anchoring: Anchoring) -> (r: Result<bool, ValueError>)
    ensures
        r == regex_outcome(text@, pattern@, anchoring),
{
    let (p, flags) = match convert_string_to_pattern(pattern, anchoring) {
        Ok(x) => x,
        Err(e) => return Err(e),
    };
    match regex_is_match(p.as_str(), flags, text) {
        Some(b) => Ok(b),
        None => Err(ValueError::RegexError),
    }
}

} // verus!
