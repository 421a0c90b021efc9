use vstd::prelude::*;
use vstd::utf8::*;
use crate::region::Region;
use crate::text::{
    char_index, char_index_of, chars_of, byte_offset, lemma_char_index_at_boundary,
    lemma_char_index_bounded, lemma_char_index_monotone,
};

verus! {

#[verifier::external_type_specification]
#[verifier::external_body]
pub struct ExRegex(regex::Regex);

#[verifier::external_type_specification]
#[verifier::external_body]
pub struct ExRegexError(regex::Error);

/// Whether the regex engine accepts `pattern`.
pub uninterp spec fn pattern_compiles(pattern: Seq<char>) -> bool;

/// Byte spans `(start, end)` of the successive non-overlapping leftmost
/// matches of `pattern` in `line`, as the regex engine finds them.
pub uninterp spec fn match_spans(pattern: Seq<char>, line: Seq<char>) -> Seq<(usize, usize)>;

/// What the regex engine guarantees of the spans of its matches in `line`:
/// each starts no later than it ends, both ends fall on character boundaries
/// of the UTF-8 encoding, and the spans come left to right without overlap.
pub open spec fn spans_well_placed(spans: Seq<(usize, usize)>, line: Seq<char>) -> bool {
    &&& forall|i: int|
        0 <= i < spans.len() ==> {
            &&& spans[i].0 <= spans[i].1
            &&& is_char_boundary(encode_utf8(line), spans[i].0 as int)
            &&& is_char_boundary(encode_utf8(line), spans[i].1 as int)
        }
    &&& forall|i: int, j: int| 0 <= i < j < spans.len() ==> spans[i].1 <= spans[j].0
}

/// The region of characters covered by the byte span `span` of `line`.
pub open spec fn region_of_span(line: Seq<char>, span: (usize, usize), r: Region) -> bool {
    &&& r.lo() == char_index_of(line, span.0 as int)
    &&& r.hi() == char_index_of(line, span.1 as int)
}

/// Relies on regex::Regex::new: compiles `pattern`, or fails on a malformed
/// pattern or one that would exceed the default size limit.
#[verifier::external_body]
fn compile(pattern: &str) -> (r: Result<regex::Regex, regex::Error>)
    ensures
        r.is_ok() == pattern_compiles(pattern@),
{
    regex::Regex::new(pattern)
}

/// Relies on the Display impl of regex::Error for a readable description.
#[verifier::external_body]
fn describe(e: &regex::Error) -> (r: String)
{
    e.to_string()
}

/// Why a pattern was not accepted.
#[derive(Clone, Debug)]
pub struct PatternError {
    message: String,
}

impl PatternError {
    /// The regex engine's description of the problem.
    pub closed spec fn text(&self) -> Seq<char> {
        self.message@
    }

    /// The regex engine's description of the problem.
    pub fn message(&self) -> (r: String)
        ensures
            r@ == self.text(),
    {
        self.message.clone()
    }
}

/// A compiled pattern together with the text it was compiled from.
pub struct Matcher {
    regex: regex::Regex,
    source: String,
}

impl Matcher {
    /// The text of the pattern.
    pub closed spec fn pattern(&self) -> Seq<char> {
        self.source@
    }

    pub fn new(pattern: &str) -> (r: Result<Matcher, PatternError>)
        ensures
            r.is_ok() == pattern_compiles(pattern@),
            r matches Ok(m) ==> m.pattern() == pattern@,
    {
        match compile(pattern) {
            Ok(regex) => Ok(Matcher { regex, source: pattern.to_owned() }),
            Err(e) => Err(PatternError { message: describe(&e) }),
        }
    }

    /// The text of the pattern.
    pub fn as_str(&self) -> (r: &str)
        ensures
            r@ == self.pattern(),
    {
        self.source.as_str()
    }

    /// Relies on regex::Regex::find_iter, on the regex compiled from
    /// `self.source`, and on regex::Match::start and regex::Match::end: byte
    /// offsets on character boundaries, successive and non-overlapping.
    #[verifier::external_body]
    fn spans(&self, line: &str) -> (r: Vec<(usize, usize)>)
        ensures
            r@ == match_spans(self.pattern(), line@),
            spans_well_placed(r@, line@),
    {
        self.regex.find_iter(line).map(|m| (m.start(), m.end())).collect()
    }

    /// The regions of `line` that the pattern matches, left to right, in
    /// character indices.
    pub fn find_regions(&self, line: &str) -> (r: Vec<Region>)
        ensures
            r@.len() == match_spans(self.pattern(), line@).len(),
            forall|i: int|
                0 <= i < r@.len() ==> region_of_span(line@, match_spans(self.pattern(), line@)[i], #[trigger] r@[i]),
            forall|i: int|
                0 <= i < r@.len() ==> {
                    &&& r@[i].wf()
                    &&& r@[i].hi() <= line@.len()
                    &&& byte_offset(line@, r@[i].lo() as int) == match_spans(self.pattern(), line@)[i].0
                    &&& byte_offset(line@, r@[i].hi() as int) == match_spans(self.pattern(), line@)[i].1
                },
            forall|i: int, j: int| 0 <= i < j < r@.len() ==> r@[i].hi() <= r@[j].lo(),
    {
        let spans = self.spans(line);
        let r = regions_from_spans(line, &spans);
        proof {
            assert forall|i: int| 0 <= i < r@.len() implies {
                &&& r@[i].hi() <= line@.len()
                &&& byte_offset(line@, r@[i].lo() as int) == spans@[i].0
                &&& byte_offset(line@, r@[i].hi() as int) == spans@[i].1
            } by {
                lemma_char_index_bounded(line@, spans@[i].1 as int);
                lemma_char_index_at_boundary(line@, spans@[i].0 as int);
                lemma_char_index_at_boundary(line@, spans@[i].1 as int);
            }
            assert forall|i: int, j: int| 0 <= i < j < r@.len() implies r@[i].hi() <= r@[j].lo() by {
                lemma_char_index_monotone(line@, spans@[i].1 as int, spans@[j].0 as int);
            }
        }
        r
    }
}

/// Turns byte spans of `line` into regions of character indices.
pub fn regions_from_spans(line: &str, spans: &Vec<(usize, usize)>) -> (r: Vec<Region>)
    requires
        forall|i: int| 0 <= i < spans@.len() ==> spans@[i].0 <= spans@[i].1,
    ensures
        r@.len() == spans@.len(),
        forall|i: int| 0 <= i < r@.len() ==> region_of_span(line@, spans@[i], #[trigger] r@[i]),
        forall|i: int| 0 <= i < r@.len() ==> (#[trigger] r@[i]).wf(),
{
    let chars = chars_of(line);
    let mut r: Vec<Region> = Vec::new();
    let mut i: usize = 0;
    while i < spans.len()
        invariant
            i <= spans@.len(),
            chars@ == line@,
            r@.len() == i,
            forall|j: int| 0 <= j < spans@.len() ==> spans@[j].0 <= spans@[j].1,
            forall|j: int| 0 <= j < i ==> region_of_span(line@, spans@[j], #[trigger] r@[j]),
            forall|j: int| 0 <= j < i ==> (#[trigger] r@[j]).wf(),
        decreases spans@.len() - i,
    {
        let (s, e) = spans[i];
        let a = char_index(&chars, s);
        let b = char_index(&chars, e);
        proof {
            lemma_char_index_monotone(line@, s as int, e as int);
        }
        r.push(Region::new(a, b));
        i = i + 1;
    }
    r
}

} // verus!
