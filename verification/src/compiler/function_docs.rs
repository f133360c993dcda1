//! Documentation of functions, read from the doc comment block above them.
use crate::text::{chars_of, string_from_chars};
use crate::traits::{ByteDecodeError, ByteReader, SerializeToBytes};
use crate::value::object::{find_key, lemma_find_key_none, ObjectMap};
use crate::value::primitive::prim_eq;
use crate::value::{Primitive, Value};
use vstd::prelude::*;

verus! {

/// Function documentation
#[derive(Debug, Clone, PartialEq, Eq)]
pub struct FunctionDocs {
    /// The name of the function
    pub name: String,
    /// The names of the function's arguments
    pub args: Vec<String>,
    /// The category of the function; "Misc" by default
    pub category: String,
    /// The function's signature
    pub signature: String,
    /// A short description of the function
    pub short: Option<String>,
    /// A longer description of the function
    pub desc: Option<String>,
    /// An example of how to use the function
    pub example: Option<String>,
}

/// Function documentation as text
pub struct DocsView {
    pub name: Seq<char>,
    pub args: Seq<Seq<char>>,
    pub category: Seq<char>,
    pub signature: Seq<char>,
    pub short: Option<Seq<char>>,
    pub desc: Option<Seq<char>>,
    pub example: Option<Seq<char>>,
}

/// The text of an optional string
pub open spec fn opt_view(s: Option<String>) -> Option<Seq<char>> {
    match s {
        Some(x) => Some(x@),
        None => None,
    }
}

impl View for FunctionDocs {
    type V = DocsView;

    open spec fn view(&self) -> DocsView {
        DocsView {
            name: self.name@,
            args: self.args@.map_values(|a: String| a@),
            category: self.category@,
            signature: self.signature@,
            short: opt_view(self.short),
            desc: opt_view(self.desc),
            example: opt_view(self.example),
        }
    }
}

impl Default for FunctionDocs {
    fn default() -> (d: Self)
        ensures
            d@ == (DocsView {
                name: Seq::empty(),
                args: Seq::empty(),
                category: "Misc"@,
                signature: Seq::empty(),
                short: None,
                desc: None,
                example: None,
            }),
    {
        let d = FunctionDocs {
            name: String::new(),
            args: Vec::new(),
            category: String::from_str("Misc"),
            signature: String::new(),
            short: None,
            desc: None,
            example: None,
        };
        assert(d@.args =~= Seq::<Seq<char>>::empty());
        d
    }
}

/// Whitespace as Unicode defines it
pub open spec fn is_white(c: char) -> bool {
    ('\u{9}' <= c <= '\u{d}') || c == ' ' || c == '\u{85}' || c == '\u{a0}' || c == '\u{1680}' || (
    '\u{2000}' <= c <= '\u{200a}') || c == '\u{2028}' || c == '\u{2029}' || c == '\u{202f}' || c
        == '\u{205f}' || c == '\u{3000}'
}

fn white(c: char) -> (b: bool)
    ensures
        b == is_white(c),
{
    ('\u{9}' <= c && c <= '\u{d}') || c == ' ' || c == '\u{85}' || c == '\u{a0}' || c == '\u{1680}'
        || ('\u{2000}' <= c && c <= '\u{200a}') || c == '\u{2028}' || c == '\u{2029}' || c
        == '\u{202f}' || c == '\u{205f}' || c == '\u{3000}'
}

/// The number of whitespace characters at the start of the text
pub open spec fn leading_white(s: Seq<char>) -> nat
    decreases s.len(),
{
    if s.len() > 0 && is_white(s[0]) {
        1 + leading_white(s.skip(1))
    } else {
        0
    }
}

/// The number of whitespace characters at the end of the text
pub open spec fn trailing_white(s: Seq<char>) -> nat
    decreases s.len(),
{
    if s.len() > 0 && is_white(s.last()) {
        1 + trailing_white(s.drop_last())
    } else {
        0
    }
}

/// The text without whitespace at either end
pub open spec fn trimmed(s: Seq<char>) -> Seq<char> {
    let a = leading_white(s);
    let t = s.skip(a as int);
    t.subrange(0, t.len() - trailing_white(t))
}

/// The text starts with `prefix`
pub open spec fn has_prefix(s: Seq<char>, prefix: Seq<char>) -> bool {
    prefix.len() <= s.len() && s.subrange(0, prefix.len() as int) == prefix
}

/// The text with `prefix` taken off its start as long as it starts with it
pub open spec fn strip_all(s: Seq<char>, prefix: Seq<char>) -> Seq<char>
    decreases s.len(),
{
    if prefix.len() > 0 && has_prefix(s, prefix) {
        strip_all(s.skip(prefix.len() as int), prefix)
    } else {
        s
    }
}

/// The index of the first line from `from` on that opens or closes a code
/// block, or the number of lines
pub open spec fn fence_from(lines: Seq<Seq<char>>, from: int) -> int
    decreases lines.len() - from,
{
    if from >= lines.len() {
        lines.len() as int
    } else if has_prefix(lines[from], "```"@) {
        from
    } else {
        fence_from(lines, from + 1)
    }
}

/// The lines `from..to`, each followed by a line break
pub open spec fn joined(lines: Seq<Seq<char>>, from: int, to: int) -> Seq<char>
    decreases to - from,
{
    if to <= from {
        Seq::empty()
    } else {
        joined(lines, from, to - 1) + lines[to - 1] + seq!['\n']
    }
}

/// The documentation a doc block gives: an optional `category:` line, then
/// the short description, then the description up to a line that opens a code
/// block; the lines after that one, up to the next code block line (or the
/// end), are the example
pub open spec fn docblock(name: Seq<char>, args: Seq<Seq<char>>, lines: Seq<Seq<char>>) -> DocsView {
    let has_category = lines.len() > 0 && has_prefix(lines[0], "category:"@);
    let category = if has_category {
        trimmed(strip_all(lines[0], "category:"@))
    } else {
        "Misc"@
    };
    let first = if has_category { 1int } else { 0int };
    let short = if first < lines.len() {
        Some(lines[first])
    } else {
        None
    };
    let desc_start = if first < lines.len() { first + 1 } else { first };
    let fence = fence_from(lines, desc_start);
    let desc_text = joined(lines, desc_start, fence);
    let example = if fence < lines.len() {
        Some(joined(lines, fence + 1, fence_from(lines, fence + 1)))
    } else {
        None
    };
    DocsView {
        name,
        args,
        category,
        signature: Seq::empty(),
        short,
        desc: if desc_text.len() == 0 {
            None
        } else {
            Some(desc_text)
        },
        example,
    }
}

fn starts_with_chars(s: &Vec<char>, prefix: &Vec<char>) -> (b: bool)
    ensures
        b == has_prefix(s@, prefix@),
{
    if prefix.len() > s.len() {
        return false;
    }
    let mut k: usize = 0;
    while k < prefix.len()
        invariant
            k <= prefix@.len() <= s@.len(),
            forall|j: int| 0 <= j < k ==> s@[j] == prefix@[j],
        decreases prefix@.len() - k,
    {
        if s[k] != prefix[k] {
            assert(s@.subrange(0, prefix@.len() as int)[k as int] != prefix@[k as int]);
            return false;
        }
        k = k + 1;
    }
    assert(s@.subrange(0, prefix@.len() as int) =~= prefix@);
    true
}

fn trim_chars(s: &Vec<char>) -> (r: Vec<char>)
    ensures
        r@ == trimmed(s@),
{
    let mut a: usize = 0;
    assert(s@.skip(0) =~= s@);
    while a < s.len() && white(s[a])
        invariant
            a <= s@.len(),
            leading_white(s@) == a + leading_white(s@.skip(a as int)),
        decreases s@.len() - a,
    {
        assert(s@.skip(a as int).skip(1) =~= s@.skip(a + 1));
        assert(s@.skip(a as int)[0] == s@[a as int]);
        a = a + 1;
    }
    let ghost t = s@.skip(a as int);
    let mut b: usize = s.len();
    assert(t.subrange(0, b - a) =~= t);
    while b > a && white(s[b - 1])
        invariant
            a <= b <= s@.len(),
            t == s@.skip(a as int),
            trailing_white(t) == (s@.len() - b) + trailing_white(t.subrange(0, b - a)),
        decreases b,
    {
        assert(t.subrange(0, b - a).drop_last() =~= t.subrange(0, b - 1 - a));
        assert(t.subrange(0, b - a).last() == s@[b - 1]);
        b = b - 1;
    }
    assert(t.subrange(0, t.len() as int) =~= t);
    let mut r: Vec<char> = Vec::new();
    let mut k = a;
    while k < b
        invariant
            a <= k <= b <= s@.len(),
            r@ == s@.subrange(a as int, k as int),
        decreases b - k,
    {
        r.push(s[k]);
        k = k + 1;
        assert(r@ =~= s@.subrange(a as int, k as int));
    }
    assert(r@ =~= t.subrange(0, t.len() - trailing_white(t)));
    r
}

fn strip_all_chars(s: &Vec<char>, prefix: &Vec<char>) -> (r: Vec<char>)
    ensures
        r@ == strip_all(s@, prefix@),
{
    let mut start: usize = 0;
    if prefix.len() == 0 {
        return clone_chars(s, 0);
    }
    let n = s.len();
    assert(s@.skip(0) =~= s@);
    loop
        invariant
            start <= s@.len(),
            n == s@.len(),
            prefix@.len() > 0,
            strip_all(s@, prefix@) == strip_all(s@.skip(start as int), prefix@),
        decreases s@.len() - start,
    {
        let rest = clone_chars(s, start);
        if starts_with_chars(&rest, prefix) {
            assert(rest@.skip(prefix@.len() as int) =~= s@.skip(start + prefix@.len()));
            start = start + prefix.len();
        } else {
            return rest;
        }
    }
}

fn clone_chars(s: &Vec<char>, from: usize) -> (r: Vec<char>)
    requires
        from <= s@.len(),
    ensures
        r@ == s@.skip(from as int),
{
    let mut r: Vec<char> = Vec::new();
    let mut k = from;
    while k < s.len()
        invariant
            from <= k <= s@.len(),
            r@ == s@.subrange(from as int, k as int),
        decreases s@.len() - k,
    {
        r.push(s[k]);
        k = k + 1;
        assert(r@ =~= s@.subrange(from as int, k as int));
    }
    assert(r@ =~= s@.skip(from as int));
    r
}

/// The index of the first fence line from `from` on
fn find_fence(lines: &Vec<Vec<char>>, from: usize, fence: &Vec<char>) -> (f: usize)
    requires
        from <= lines@.len(),
        fence@ == "```"@,
    ensures
        f == fence_from(lines@.map_values(|l: Vec<char>| l@), from as int),
        from <= f <= lines@.len(),
    decreases lines@.len() - from,
{
    assert(from < lines@.len() ==> lines@.map_values(|l: Vec<char>| l@)[from as int] == lines@[from as int]@);
    if from >= lines.len() {
        from
    } else if starts_with_chars(&lines[from], fence) {
        from
    } else {
        find_fence(lines, from + 1, fence)
    }
}

/// Append the lines `from..to`, each followed by a line break
fn push_joined(out: &mut Vec<char>, lines: &Vec<Vec<char>>, from: usize, to: usize)
    requires
        from <= to <= lines@.len(),
    ensures
        final(out)@ == old(out)@ + joined(lines@.map_values(|l: Vec<char>| l@), from as int, to as int),
    decreases to - from,
{
    if from < to {
        push_joined(out, lines, from, to - 1);
        let line = &lines[to - 1];
        let mut k: usize = 0;
        let ghost mid = out@;
        while k < line.len()
            invariant
                k <= line@.len(),
                out@ == mid + line@.take(k as int),
            decreases line@.len() - k,
        {
            out.push(line[k]);
            k = k + 1;
            assert(out@ =~= mid + line@.take(k as int));
        }
        out.push('\n');
        assert(line@.take(line@.len() as int) =~= line@);
    }
    assert(final(out)@ =~= old(out)@ + joined(lines@.map_values(|l: Vec<char>| l@), from as int, to as int));
}

fn lines_chars(lines: &[&str]) -> (cs: Vec<Vec<char>>)
    ensures
        cs@.map_values(|l: Vec<char>| l@) == lines@.map_values(|l: &str| l@),
{
    let ghost ls = lines@.map_values(|l: &str| l@);
    let mut cs: Vec<Vec<char>> = Vec::new();
    let mut i: usize = 0;
    while i < lines.len()
        invariant
            i <= lines@.len(),
            ls == lines@.map_values(|l: &str| l@),
            cs@.len() == i,
            forall|k: int| 0 <= k < i ==> #[trigger] cs@[k]@ == ls[k],
        decreases lines@.len() - i,
    {
        cs.push(chars_of(lines[i]));
        i = i + 1;
    }
    assert(cs@.map_values(|l: Vec<char>| l@) =~= ls);
    cs
}

fn strings_of(args: &[&str]) -> (v: Vec<String>)
    ensures
        v@.map_values(|a: String| a@) == args@.map_values(|a: &str| a@),
{
    let ghost want = args@.map_values(|a: &str| a@);
    let mut v: Vec<String> = Vec::new();
    let mut k: usize = 0;
    while k < args.len()
        invariant
            k <= args@.len(),
            want == args@.map_values(|a: &str| a@),
            v@.len() == k,
            forall|j: int| 0 <= j < k ==> #[trigger] v@[j]@ == want[j],
        decreases args@.len() - k,
    {
        v.push(String::from_str(args[k]));
        k = k + 1;
    }
    assert(v@.map_values(|a: String| a@) =~= want);
    v
}

/// The category of a doc block, and the index of its first other line
fn category_of(cs: &Vec<Vec<char>>) -> (r: (String, usize))
    ensures
        ({
            let lines = cs@.map_values(|l: Vec<char>| l@);
            let has_category = lines.len() > 0 && has_prefix(lines[0], "category:"@);
            &&& r.0@ == if has_category {
                trimmed(strip_all(lines[0], "category:"@))
            } else {
                "Misc"@
            }
            &&& r.1 == if has_category { 1usize } else { 0usize }
        }),
{
    let cat_prefix = chars_of("category:");
    assert(cs@.len() > 0 ==> cs@.map_values(|l: Vec<char>| l@)[0] == cs@[0]@);
    if cs.len() > 0 && starts_with_chars(&cs[0], &cat_prefix) {
        let stripped = strip_all_chars(&cs[0], &cat_prefix);
        let t = trim_chars(&stripped);
        (string_from_chars(t.as_slice()), 1)
    } else {
        (String::from_str("Misc"), 0)
    }
}

impl FunctionDocs {
    /// Parse a docblock of the form:
    /// ```text
    /// //# category: Category Name
    /// //# Single line description
    /// //# Multi-line description
    /// //# Can have multiple lines
    /// //# ```lav
    /// //# Example code
    /// //# ``` (optional closing tag)
    /// ```
    pub fn parse_docblock(name: &str, args: &[&str], lines: &[&str]) -> (d: Self)
        ensures
            d@ == docblock(
                name@,
                args@.map_values(|a: &str| a@),
                lines@.map_values(|l: &str| l@),
            ),
    {
        let cs = lines_chars(lines);
        let ghost ls = lines@.map_values(|l: &str| l@);
        let fence = chars_of("```");
        let (category, first) = category_of(&cs);
        let short = if first < cs.len() {
            Some(String::from_str(lines[first]))
        } else {
            None
        };
        let desc_start = if first < cs.len() { first + 1 } else { first };
        let f = find_fence(&cs, desc_start, &fence);
        let mut desc_text: Vec<char> = Vec::new();
        push_joined(&mut desc_text, &cs, desc_start, f);
        let example = if f < cs.len() {
            let g = find_fence(&cs, f + 1, &fence);
            let mut ex: Vec<char> = Vec::new();
            push_joined(&mut ex, &cs, f + 1, g);
            Some(string_from_chars(ex.as_slice()))
        } else {
            None
        };
        let arg_names = strings_of(args);
        let desc = if desc_text.len() == 0 {
            None
        } else {
            Some(string_from_chars(desc_text.as_slice()))
        };
        FunctionDocs {
            name: String::from_str(name),
            args: arg_names,
            category,
            signature: String::new(),
            short,
            desc,
            example,
        }
    }
}

/// The entry is the key `key` with the string `text`
pub open spec fn text_entry(e: (Primitive, Value), key: Seq<char>, text: Seq<char>) -> bool {
    &&& e.0 matches Primitive::String(k) && k@ == key
    &&& e.1 matches Value::Primitive(Primitive::String(t)) && t@ == text
}

/// The optional fields that are present, as (key, text), in the order short,
/// desc, example
pub open spec fn optional_fields(d: DocsView) -> Seq<(Seq<char>, Seq<char>)> {
    (match d.short {
        Some(t) => seq![("short"@, t)],
        None => Seq::empty(),
    }) + (match d.desc {
        Some(t) => seq![("desc"@, t)],
        None => Seq::empty(),
    }) + (match d.example {
        Some(t) => seq![("example"@, t)],
        None => Seq::empty(),
    })
}

/// The entries of the object of a documentation: name, args, category and
/// signature, then the optional fields that are present
pub open spec fn docs_object(d: DocsView, s: Seq<(Primitive, Value)>) -> bool {
    &&& s.len() == 4 + optional_fields(d).len()
    &&& text_entry(s[0], "name"@, d.name)
    &&& s[1].0 matches Primitive::String(k) && k@ == "args"@
    &&& s[1].1 matches Value::Array(a) && a@.len() == d.args.len() && forall|i: int|
        0 <= i < a@.len() ==> (#[trigger] a@[i] matches Value::Primitive(Primitive::String(t)) && t@
            == d.args[i])
    &&& text_entry(s[2], "category"@, d.category)
    &&& text_entry(s[3], "signature"@, d.signature)
    &&& forall|j: int|
        0 <= j < optional_fields(d).len() ==> text_entry(
            #[trigger] s[4 + j],
            optional_fields(d)[j].0,
            optional_fields(d)[j].1,
        )
}

/// Each entry's key is the string of the same position in `texts`
pub open spec fn keys_named(s: Seq<(Primitive, Value)>, texts: Seq<Seq<char>>) -> bool {
    &&& s.len() == texts.len()
    &&& forall|j: int| 0 <= j < s.len() ==> (#[trigger] s[j].0 matches Primitive::String(x) && x@ == texts[j])
}

proof fn lemma_new_key(s: Seq<(Primitive, Value)>, texts: Seq<Seq<char>>, k: Primitive)
    requires
        keys_named(s, texts),
        k matches Primitive::String(x) && forall|j: int| 0 <= j < texts.len() ==> texts[j] != x@,
    ensures
        find_key(s, k) is None,
{
    assert forall|j: int| 0 <= j < s.len() implies !prim_eq(#[trigger] s[j].0, k) by {
        assert(texts[j] != k->String_0@);
    }
    lemma_find_key_none(s, k);
}

/// The strings as string values
fn string_values(v: Vec<String>) -> (r: Vec<Value>)
    ensures
        r@.len() == v@.len(),
        forall|i: int|
            0 <= i < r@.len() ==> (#[trigger] r@[i] matches Value::Primitive(Primitive::String(t))
                && t@ == v@[i]@),
{
    let ghost orig = v@;
    let mut rest = crate::value::object::reverse_vec(v);
    let mut out: Vec<Value> = Vec::new();
    while rest.len() > 0
        invariant
            rest@ == orig.skip(out@.len() as int).reverse(),
            out@.len() + rest@.len() == orig.len(),
            forall|i: int|
                0 <= i < out@.len() ==> (#[trigger] out@[i] matches Value::Primitive(
                    Primitive::String(t),
                ) && t@ == orig[i]@),
        decreases rest@.len(),
    {
        let s = rest.pop().unwrap();
        assert(s == orig[out@.len() as int]);
        out.push(Value::Primitive(Primitive::String(s)));
        assert(rest@ =~= orig.skip(out@.len() as int).reverse());
    }
    out
}

impl FunctionDocs {
    /// The documentation as an object: name, args, category and signature,
    /// then short, desc and example where present
    pub fn into_hashmap(self) -> (o: ObjectMap)
        ensures
            docs_object(self@, o.entries()),
    {
        let ghost d = self@;
        proof {
            reveal_strlit("name");
            reveal_strlit("args");
            reveal_strlit("category");
            reveal_strlit("signature");
            reveal_strlit("short");
            reveal_strlit("desc");
            reveal_strlit("example");
            assert("name"@[0] != "args"@[0]);
        }
        let mut m = ObjectMap::new();
        let k = Primitive::String(String::from_str("name"));
        proof { lemma_find_key_none(m.entries(), k); }
        m.insert(k, Value::string(self.name));
        let k = Primitive::String(String::from_str("args"));
        proof {
            assert forall|j: int| 0 <= j < m.entries().len() implies !prim_eq(#[trigger] m.entries()[j].0, k) by {
                if j == 0 {
                    assert("name"@[0] != "args"@[0]);
                }
            }
            lemma_find_key_none(m.entries(), k);
        }
        m.insert(k, Value::Array(string_values(self.args)));
        let k = Primitive::String(String::from_str("category"));
        proof { lemma_find_key_none(m.entries(), k); }
        m.insert(k, Value::string(self.category));
        let k = Primitive::String(String::from_str("signature"));
        proof {
            assert("signature"@.len() == 9);
            assert("category"@.len() == 8);
            assert(m.entries().len() == 3);
            assert(m.entries()[2].0 matches Primitive::String(x) && x@ == "category"@);
            assert(!prim_eq(m.entries()[2].0, k));
            lemma_find_key_none(m.entries(), k);
        }
        m.insert(k, Value::string(self.signature));
        let ghost mut texts: Seq<Seq<char>> = seq!["name"@, "args"@, "category"@, "signature"@];
        proof {
            assert("name"@[0] != "desc"@[0]);
            assert("args"@[0] != "desc"@[0]);
            assert(keys_named(m.entries(), texts));
            assert(forall|j: int| 0 <= j < texts.len() ==> texts[j].len() != 7);
        }
        if let Some(t) = self.short {
            let k = Primitive::String(String::from_str("short"));
            proof {
                assert(forall|j: int| 0 <= j < texts.len() ==> texts[j] != "short"@);
                lemma_new_key(m.entries(), texts, k);
            }
            m.insert(k, Value::string(t));
            proof {
                texts = texts.push("short"@);
                assert(keys_named(m.entries(), texts));
                assert(forall|j: int| 0 <= j < texts.len() ==> texts[j].len() != 7);
            }
        }
        if let Some(t) = self.desc {
            let k = Primitive::String(String::from_str("desc"));
            proof {
                assert(forall|j: int| 0 <= j < texts.len() ==> texts[j] != "desc"@);
                lemma_new_key(m.entries(), texts, k);
            }
            m.insert(k, Value::string(t));
            proof {
                texts = texts.push("desc"@);
                assert(keys_named(m.entries(), texts));
                assert(forall|j: int| 0 <= j < texts.len() ==> texts[j].len() != 7);
            }
        }
        if let Some(t) = self.example {
            let k = Primitive::String(String::from_str("example"));
            proof {
                assert(forall|j: int| 0 <= j < texts.len() ==> texts[j] != "example"@);
                lemma_new_key(m.entries(), texts, k);
            }
            m.insert(k, Value::string(t));
        }
        proof {
            let s = m.entries();
            let opt = optional_fields(d);
            assert(s.len() == 4 + opt.len());
            assert forall|j: int| 0 <= j < opt.len() implies text_entry(#[trigger] s[4 + j], opt[j].0, opt[j].1) by {
            }
        }
        m
    }
}

/// The parts of a function's documentation, in the order they are encoded:
/// name, argument names, category, signature, short and long description and
/// example
pub type DocsParts = (
    String,
    (Vec<String>, (String, (String, (Option<String>, (Option<String>, Option<String>))))),
);

/// The parts of a function's documentation
pub open spec fn docs_parts(d: FunctionDocs) -> DocsParts {
    (d.name, (d.args, (d.category, (d.signature, (d.short, (d.desc, d.example))))))
}

impl SerializeToBytes for FunctionDocs {
    closed spec fn encoding(&self) -> Seq<u8> {
        docs_parts(*self).encoding()
    }

    closed spec fn encodable(&self) -> bool {
        docs_parts(*self).encodable()
    }

    proof fn lemma_prefix_free(a: Self, b: Self, r1: Seq<u8>, r2: Seq<u8>) {
        DocsParts::lemma_prefix_free(docs_parts(a), docs_parts(b), r1, r2);
    }

    fn serialize_into_bytes(self) -> (bytes: Vec<u8>) {
        let parts: DocsParts = (
            self.name,
            (self.args, (self.category, (self.signature, (self.short, (self.desc, self.example))))),
        );
        parts.serialize_into_bytes()
    }

    fn deserialize_from_bytes(bytes: &mut ByteReader) -> (r: Result<Self, ByteDecodeError>) {
        let ghost start = bytes.rest();
        match DocsParts::deserialize_from_bytes(bytes) {
            Ok((name, (args, (category, (signature, (short, (desc, example))))))) => {
                let d = FunctionDocs { name, args, category, signature, short, desc, example };
                Ok(d)
            },
            Err(e) => {
                proof {
                    assert forall|v: FunctionDocs, tail: Seq<u8>| v.encodable() && start
                        == #[trigger] (v.encoding() + tail) implies false by {
                        assert(start == docs_parts(v).encoding() + tail);
                    }
                }
                Err(e)
            },
        }
    }
}

} // verus!
