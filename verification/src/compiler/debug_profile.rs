//! Maps positions in bytecode back to the source tokens they were compiled
//! from, for error messages.
use crate::lexer::token::{SerializedToken, Token, TokenView};
use crate::text::str_eq;
use crate::traits::{ByteDecodeError, ByteReader, SerializeToBytes};
use vstd::prelude::*;

verus! {

/// Maps ranges in bytecode to source code locations
#[derive(Debug, Clone)]
pub struct DebugProfile {
    sources: Vec<(String, String)>,
    map: Vec<(usize, SerializedToken)>,
}

impl DebugProfile {
    /// The sources, as (file name, text) pairs; the first one is the main input
    pub closed spec fn sources(&self) -> Seq<(Seq<char>, Seq<char>)> {
        self.sources@.map_values(|p: (String, String)| (p.0@, p.1@))
    }

    /// The tokens recorded, each with the bytecode position it starts at
    pub closed spec fn entries(&self) -> Seq<(usize, SerializedToken)> {
        self.map@
    }

    /// There is a main input
    pub closed spec fn wf(&self) -> bool {
        self.sources@.len() >= 1
    }

    /// The main input
    pub open spec fn main_source(&self) -> Seq<char> {
        self.sources()[0].1
    }

    /// Create a new profile for the given source code
    pub fn new(input: &str) -> (p: Self)
        ensures
            p.wf(),
            p.sources() == seq![(Seq::<char>::empty(), input@)],
            p.entries() == Seq::<(usize, SerializedToken)>::empty(),
    {
        let p = DebugProfile {
            sources: vec![(String::new(), String::from_str(input))],
            map: Vec::new(),
        };
        assert(p.sources() =~= seq![(Seq::<char>::empty(), input@)]);
        p
    }

    /// Get the source code for the given file name; the main input for none
    fn get_source(&self, filename: Option<&str>) -> (r: Option<&String>)
        requires
            self.wf(),
        ensures
            filename is None ==> r == Some(&self.sources@[0].1),
            filename matches Some(f) ==> match r {
                Some(s) => exists|i: int|
                    0 <= i < self.sources@.len() && self.sources@[i].0@ == f@ && *s
                        == self.sources@[i].1,
                None => forall|i: int|
                    0 <= i < self.sources@.len() ==> self.sources@[i].0@ != f@,
            },
    {
        match filename {
            None => Some(&self.sources[0].1),
            Some(f) => {
                let mut i: usize = 0;
                while i < self.sources.len()
                    invariant
                        i <= self.sources@.len(),
                        filename == Some(f),
                        forall|j: int| 0 <= j < i ==> self.sources@[j].0@ != f@,
                    decreases self.sources@.len() - i,
                {
                    if str_eq(self.sources[i].0.as_str(), f) {
                        return Some(&self.sources[i].1);
                    }
                    i = i + 1;
                }
                None
            },
        }
    }

    /// Get the token of the entry at the given index, over the main input
    fn get(&self, index: usize) -> (r: Option<(usize, Token)>)
        requires
            self.wf(),
        ensures
            index >= self.entries().len() ==> r is None,
            index < self.entries().len() ==> (r matches Some(p) && p.0 == self.entries()[index as int].0
                && p.1@ == unpacked(self.entries()[index as int].1, self.main_source())),
    {
        if index >= self.map.len() {
            return None;
        }
        let (start, packed) = &self.map[index];
        let source = self.get_source(None).unwrap();
        let token = packed.unpack(source.as_str());
        assert(self.sources()[0].1 == self.sources@[0].1@);
        Some((*start, token))
    }

    /// Record that the bytecode from `start_pos` on was compiled from `token`
    pub fn insert(&mut self, start_pos: usize, token: Token)
        requires
            old(self).wf(),
        ensures
            final(self).wf(),
            final(self).sources() == old(self).sources(),
            final(self).entries() == old(self).entries().push((start_pos, packed(token@))),
    {
        let p = SerializedToken::pack(token);
        self.map.push((start_pos, p));
    }

    /// Move the spans of the tokens of the main input back by `offset`, or,
    /// for a named source, cut `offset` characters off its start
    pub fn offset(&mut self, filename: Option<String>, offset: usize)
        requires
            old(self).wf(),
            filename is None ==> forall|i: int|
                0 <= i < old(self).entries().len() ==> #[trigger] old(self).entries()[i].1.span.start >= offset,
            filename is None ==> forall|i: int|
                0 <= i < old(self).entries().len() ==> #[trigger] old(self).entries()[i].1.span.end >= offset,
            filename matches Some(f) ==> forall|i: int|
                0 <= i < old(self).sources().len() && #[trigger] old(self).sources()[i].0 == f@ ==> offset <= old(self).sources()[i].1.len(),
        ensures
            final(self).wf(),
            final(self).sources().len() == old(self).sources().len(),
            forall|i: int| 0 <= i < old(self).sources().len() ==> #[trigger] final(self).sources()[i] == match filename {
                Some(f) => if old(self).sources()[i].0 == f@ {
                    (old(self).sources()[i].0, old(self).sources()[i].1.skip(offset as int))
                } else {
                    old(self).sources()[i]
                },
                None => old(self).sources()[i],
            },
            final(self).entries().len() == old(self).entries().len(),
            forall|i: int| 0 <= i < old(self).entries().len() ==> #[trigger] final(self).entries()[i] == match filename {
                Some(_) => old(self).entries()[i],
                None => shifted(old(self).entries()[i], offset),
            },
    {
        match filename {
            Some(f) => {
                let mut i: usize = 0;
                let ghost before = self.sources();
                while i < self.sources.len()
                    invariant
                        i <= self.sources@.len(),
                        self.sources@.len() == before.len(),
                        before.len() >= 1,
                        self.map@ == old(self).map@,
                        before == old(self).sources(),
                        forall|j: int| 0 <= j < before.len() && #[trigger] before[j].0 == f@ ==> offset <= before[j].1.len(),
                        forall|j: int| 0 <= j < before.len() ==> #[trigger] self.sources()[j] == if j < i && before[j].0 == f@ {
                            (before[j].0, before[j].1.skip(offset as int))
                        } else {
                            before[j]
                        },
                    decreases self.sources@.len() - i,
                {
                    assert(self.sources()[i as int] == (self.sources@[i as int].0@, self.sources@[i as int].1@));
                    assert(self.sources()[i as int] == before[i as int]);
                    if str_eq(self.sources[i].0.as_str(), f.as_str()) {
                        let name = self.sources[i].0.clone();
                        let text = self.sources[i].1.as_str();
                        let n = text.unicode_len();
                        assert(before[i as int].0 == f@);
                        assert(offset <= before[i as int].1.len());
                        let rest = String::from_str(text.substring_char(offset, n));
                        let ghost prev = self.sources();
                        self.sources.set(i, (name, rest));
                        assert(rest@ =~= before[i as int].1.skip(offset as int));
                        assert forall|j: int| 0 <= j < before.len() implies #[trigger] self.sources()[j] == if j < i + 1 && before[j].0 == f@ {
                            (before[j].0, before[j].1.skip(offset as int))
                        } else {
                            before[j]
                        } by {
                            if j != i {
                                assert(self.sources()[j] == prev[j]);
                            }
                        }
                    }
                    i = i + 1;
                }
            },
            None => {
                let mut i: usize = 0;
                let ghost before = self.map@;
                assert forall|j: int| 0 <= j < before.len() implies #[trigger] before[j].1.span.start >= offset by {
                    assert(old(self).entries()[j] == before[j]);
                }
                assert forall|j: int| 0 <= j < before.len() implies #[trigger] before[j].1.span.end >= offset by {
                    assert(old(self).entries()[j] == before[j]);
                }
                while i < self.map.len()
                    invariant
                        i <= self.map@.len(),
                        self.map@.len() == before.len(),
                        before == old(self).map@,
                        self.sources@ == old(self).sources@,
                        forall|j: int| 0 <= j < before.len() ==> #[trigger] before[j].1.span.start >= offset,
                        forall|j: int| 0 <= j < before.len() ==> #[trigger] before[j].1.span.end >= offset,
                        forall|j: int| 0 <= j < before.len() ==> #[trigger] self.map@[j] == if j < i {
                            shifted(before[j], offset)
                        } else {
                            before[j]
                        },
                    decreases self.map@.len() - i,
                {
                    let (start, token) = &self.map[i];
                    let moved = SerializedToken {
                        line: token.line,
                        span: (token.span.start - offset)..(token.span.end - offset),
                        rule: token.rule,
                    };
                    let start = *start;
                    self.map.set(i, (start, moved));
                    i = i + 1;
                }
            },
        }
    }

    /// The token whose compiled code holds bytecode position `index`: the last
    /// of the leading entries that start at or before `index`, or the first
    /// entry when none does; `None` when nothing was recorded
    pub fn current_token(&self, index: usize) -> (r: Option<Token>)
        requires
            self.wf(),
        ensures
            ({
                let k = leading_at_or_before(self.entries(), index as int);
                let i = if k == 0 { 0 } else { k - 1 };
                &&& self.entries().len() == 0 ==> r is None
                &&& self.entries().len() > 0 ==> (r matches Some(t) && t@ == unpacked(self.entries()[i].1, self.main_source()))
            }),
    {
        let mut k: usize = 0;
        while k < self.map.len() && self.map[k].0 <= index
            invariant
                k <= self.map@.len(),
                forall|j: int| 0 <= j < k ==> self.map@[j].0 <= index,
            decreases self.map@.len() - k,
        {
            k = k + 1;
        }
        proof {
            lemma_leading(self.entries(), index as int, k as int);
        }
        let i = if k == 0 { 0 } else { k - 1 };
        match self.get(i) {
            Some((_, token)) => Some(token),
            None => None,
        }
    }

    /// The text of every recorded token, with the position it starts at
    pub fn all_slices(&self) -> (r: Vec<(usize, String)>)
        requires
            self.wf(),
            forall|i: int| 0 <= i < self.entries().len() ==> #[trigger] unpacked(self.entries()[i].1, self.main_source()).in_bounds(),
        ensures
            r@.len() == self.entries().len(),
            forall|i: int| 0 <= i < r@.len() ==> #[trigger] r@[i].0 == self.entries()[i].0 && r@[i].1@ == unpacked(self.entries()[i].1, self.main_source()).text(),
    {
        let mut out: Vec<(usize, String)> = Vec::new();
        let mut i: usize = 0;
        while i < self.map.len()
            invariant
                self.wf(),
                i <= self.map@.len(),
                out@.len() == i,
                forall|j: int| 0 <= j < self.entries().len() ==> #[trigger] unpacked(self.entries()[j].1, self.main_source()).in_bounds(),
                forall|j: int| 0 <= j < i ==> #[trigger] out@[j].0 == self.entries()[j].0 && out@[j].1@ == unpacked(self.entries()[j].1, self.main_source()).text(),
            decreases self.map@.len() - i,
        {
            let (start, token) = self.get(i).unwrap();
            assert(unpacked(self.entries()[i as int].1, self.main_source()).in_bounds());
            out.push((start, String::from_str(token.slice())));
            i = i + 1;
        }
        out
    }
}

/// The serializable form of a token
pub open spec fn packed(t: TokenView) -> SerializedToken {
    SerializedToken { line: t.line as usize, span: (t.start as usize)..(t.end as usize), rule: t.rule }
}

/// A packed token over an input
pub open spec fn unpacked(t: SerializedToken, input: Seq<char>) -> TokenView {
    TokenView {
        line: t.line as nat,
        start: t.span.start as nat,
        end: t.span.end as nat,
        rule: t.rule,
        input,
    }
}

/// An entry with its token's span moved back by `offset`
pub open spec fn shifted(e: (usize, SerializedToken), offset: usize) -> (usize, SerializedToken) {
    (
        e.0,
        SerializedToken {
            line: e.1.line,
            span: ((e.1.span.start - offset) as usize)..((e.1.span.end - offset) as usize),
            rule: e.1.rule,
        },
    )
}

/// Recording tokens of a whole input in a profile of that input with its first
/// `k` characters cut, then moving their spans back by `k`, leaves every entry
/// in bounds of the profile's input and covering the text it covered in the
/// whole input: what `all_slices` gives after `offset` is the tokens' own text
pub proof fn lemma_offset_then_slices(
    entries: Seq<(usize, SerializedToken)>,
    src: Seq<char>,
    k: usize,
    moved: Seq<(usize, SerializedToken)>,
)
    requires
        moved.len() == entries.len(),
        forall|i: int| 0 <= i < entries.len() ==> #[trigger] moved[i] == shifted(entries[i], k),
        forall|i: int|
            0 <= i < entries.len() ==> k <= (#[trigger] entries[i]).1.span.start
                <= entries[i].1.span.end <= src.len(),
    ensures
        forall|i: int|
            0 <= i < moved.len() ==> {
                &&& (#[trigger] moved[i]).0 == entries[i].0
                &&& unpacked(moved[i].1, src.skip(k as int)).in_bounds()
                &&& unpacked(moved[i].1, src.skip(k as int)).text() == unpacked(entries[i].1, src).text()
            },
{
    assert forall|i: int| 0 <= i < moved.len() implies {
        &&& (#[trigger] moved[i]).0 == entries[i].0
        &&& unpacked(moved[i].1, src.skip(k as int)).in_bounds()
        &&& unpacked(moved[i].1, src.skip(k as int)).text() == unpacked(entries[i].1, src).text()
    } by {
        let e = entries[i];
        assert(moved[i] == shifted(e, k));
        let rest = src.skip(k as int);
        assert(rest.subrange(e.1.span.start - k, e.1.span.end - k) =~= src.subrange(
            e.1.span.start as int,
            e.1.span.end as int,
        ));
    }
}

/// The number of leading entries that start at or before `index`
pub open spec fn leading_at_or_before(entries: Seq<(usize, SerializedToken)>, index: int) -> int
    decreases entries.len(),
{
    if entries.len() == 0 {
        0
    } else if entries.last().0 <= index && leading_at_or_before(entries.drop_last(), index)
        == entries.len() - 1 {
        entries.len() as int
    } else {
        leading_at_or_before(entries.drop_last(), index)
    }
}

/// The count of leading entries at or before `index` is where the first one
/// after it stands
proof fn lemma_leading(entries: Seq<(usize, SerializedToken)>, index: int, k: int)
    requires
        0 <= k <= entries.len(),
        forall|j: int| 0 <= j < k ==> entries[j].0 <= index,
        k == entries.len() || entries[k].0 > index,
    ensures
        leading_at_or_before(entries, index) == k,
    decreases entries.len(),
{
    if entries.len() > 0 {
        if k == entries.len() {
            lemma_leading(entries.drop_last(), index, k - 1);
        } else {
            lemma_leading(entries.drop_last(), index, k);
        }
    }
}


/// A profile is encoded as its sources, each a file name and a text, then
/// its tokens, each with the bytecode position it starts at
impl SerializeToBytes for DebugProfile {
    closed spec fn encoding(&self) -> Seq<u8> {
        (self.sources, self.map).encoding()
    }

    closed spec fn encodable(&self) -> bool {
        (self.sources, self.map).encodable()
    }

    proof fn lemma_prefix_free(a: Self, b: Self, r1: Seq<u8>, r2: Seq<u8>) {
        <(Vec<(String, String)>, Vec<(usize, SerializedToken)>)>::lemma_prefix_free(
            (a.sources, a.map),
            (b.sources, b.map),
            r1,
            r2,
        );
    }

    fn serialize_into_bytes(self) -> (bytes: Vec<u8>) {
        (self.sources, self.map).serialize_into_bytes()
    }

    fn deserialize_from_bytes(bytes: &mut ByteReader) -> (r: Result<Self, ByteDecodeError>) {
        let ghost start = bytes.rest();
        match <(Vec<(String, String)>, Vec<(usize, SerializedToken)>)>::deserialize_from_bytes(bytes) {
            Ok((sources, map)) => Ok(DebugProfile { sources, map }),
            Err(e) => {
                proof {
                    assert forall|v: DebugProfile, tail: Seq<u8>| v.encodable() && start
                        == #[trigger] (v.encoding() + tail) implies false by {
                        assert(start == (v.sources, v.map).encoding() + tail);
                    }
                }
                Err(e)
            },
        }
    }
}

} // verus!
