use vstd::prelude::*;
use vstd::string::StrSliceExecFns;
use crate::cleaner::{is_blank, pair_at};
use crate::text::chars_of;
use crate::tokenizer::{lemma_quote_end_bounds, quote_end};

verus! {

/// What a segment of source text is.
#[derive(Clone, Copy, Debug, PartialEq, Eq, Structural)]
pub enum Annotation {
    Comment,
    String,
    Whitespace,
}

/// The end of the line that offset `i` is on: the index of the next newline,
/// or the length of `s`.
pub open spec fn line_end(s: Seq<char>, i: int) -> int
    decreases s.len() - i,
{
    if 0 <= i < s.len() && s[i] != '\n' {
        line_end(s, i + 1)
    } else {
        i
    }
}

/// Just past the first `*/` at or after `i`, or the length of `s`.
pub open spec fn block_end(s: Seq<char>, i: int) -> int
    decreases s.len() - i,
{
    if i < 0 || i >= s.len() {
        i
    } else if pair_at(s, i, '*', '/') {
        i + 2
    } else {
        block_end(s, i + 1)
    }
}

/// The end of the run of whitespace that starts at `i`.
pub open spec fn blank_end(s: Seq<char>, i: int) -> int
    decreases s.len() - i,
{
    if 0 <= i < s.len() && is_blank(s[i]) {
        blank_end(s, i + 1)
    } else {
        i
    }
}

/// Whether a `"` at `i` is closed by another `"` on the same line.
pub open spec fn closed_quote(s: Seq<char>, i: int) -> bool {
    0 <= i < s.len() && s[i] == '"' && quote_end(s, i + 1) < s.len() && s[quote_end(s, i + 1)]
        == '"'
}

/// Whether a comment or a closed string literal starts at `i`.
pub open spec fn opens_segment(s: Seq<char>, i: int) -> bool {
    pair_at(s, i, '/', '/') || pair_at(s, i, '/', '*') || closed_quote(s, i)
}

/// The end of the plain text that continues at `i`: it stops at whitespace
/// and where a comment or a closed string literal starts.
pub open spec fn plain_end(s: Seq<char>, i: int) -> int
    decreases s.len() - i,
{
    if 0 <= i < s.len() && !is_blank(s[i]) && !opens_segment(s, i) {
        plain_end(s, i + 1)
    } else {
        i
    }
}

/// The end and the annotation of the segment that starts at `i`.
pub open spec fn segment_at(s: Seq<char>, i: int) -> (int, Option<Annotation>) {
    if pair_at(s, i, '/', '/') {
        (line_end(s, i), Some(Annotation::Comment))
    } else if pair_at(s, i, '/', '*') {
        (block_end(s, i + 2), Some(Annotation::Comment))
    } else if closed_quote(s, i) {
        (quote_end(s, i + 1) + 1, Some(Annotation::String))
    } else if is_blank(s[i]) {
        (blank_end(s, i), Some(Annotation::Whitespace))
    } else {
        (plain_end(s, i + 1), None)
    }
}

proof fn lemma_line_end_bounds(s: Seq<char>, i: int)
    requires
        0 <= i <= s.len(),
    ensures
        i <= line_end(s, i) <= s.len(),
    decreases s.len() - i,
{
    if i < s.len() && s[i] != '\n' {
        lemma_line_end_bounds(s, i + 1);
    }
}

proof fn lemma_block_end_bounds(s: Seq<char>, i: int)
    requires
        0 <= i <= s.len(),
    ensures
        i <= block_end(s, i) <= s.len(),
    decreases s.len() - i,
{
    if i < s.len() && !pair_at(s, i, '*', '/') {
        lemma_block_end_bounds(s, i + 1);
    }
}

proof fn lemma_blank_end_bounds(s: Seq<char>, i: int)
    requires
        0 <= i <= s.len(),
    ensures
        i <= blank_end(s, i) <= s.len(),
    decreases s.len() - i,
{
    if i < s.len() && is_blank(s[i]) {
        lemma_blank_end_bounds(s, i + 1);
    }
}

proof fn lemma_plain_end_bounds(s: Seq<char>, i: int)
    requires
        0 <= i <= s.len(),
    ensures
        i <= plain_end(s, i) <= s.len(),
    decreases s.len() - i,
{
    if i < s.len() && !is_blank(s[i]) && !opens_segment(s, i) {
        lemma_plain_end_bounds(s, i + 1);
    }
}

/// A segment is never empty and never runs past the end.
pub proof fn lemma_segment_at_bounds(s: Seq<char>, i: int)
    requires
        0 <= i < s.len(),
    ensures
        i < segment_at(s, i).0 <= s.len(),
{
    lemma_line_end_bounds(s, i + 1);
    if pair_at(s, i, '/', '*') {
        lemma_block_end_bounds(s, i + 2);
    }
    lemma_blank_end_bounds(s, i + 1);
    lemma_plain_end_bounds(s, i + 1);
    lemma_quote_end_bounds(s, i + 1);
}

/// The segments of `s` from offset `i` on.
pub open spec fn segments_from(s: Seq<char>, i: int) -> Seq<(Seq<char>, Option<Annotation>)>
    decreases s.len() - i,
    via segments_from_decreases
{
    if i < 0 || i >= s.len() {
        seq![]
    } else {
        let e = segment_at(s, i).0;
        seq![(s.subrange(i, e), segment_at(s, i).1)] + segments_from(s, e)
    }
}

#[via_fn]
proof fn segments_from_decreases(s: Seq<char>, i: int) {
    if 0 <= i < s.len() {
        lemma_segment_at_bounds(s, i);
    }
}

/// The segments of `s`, each with its annotation.
pub open spec fn annotate_spec(s: Seq<char>) -> Seq<(Seq<char>, Option<Annotation>)> {
    segments_from(s, 0)
}

/// The annotated segments `r`, with their texts as character sequences.
pub open spec fn segments_view<'a>(r: Seq<(&'a str, Option<Annotation>)>) -> Seq<
    (Seq<char>, Option<Annotation>),
> {
    r.map_values(|p: (&'a str, Option<Annotation>)| (p.0@, p.1))
}

fn scan_line_end(v: &Vec<char>, i: usize) -> (r: usize)
    requires
        i <= v@.len(),
    ensures
        r == line_end(v@, i as int),
{
    let mut j = i;
    while j < v.len() && v[j] != '\n'
        invariant
            i <= j <= v@.len(),
            line_end(v@, i as int) == line_end(v@, j as int),
        decreases v@.len() - j,
    {
        j = j + 1;
    }
    j
}

fn scan_block_end(v: &Vec<char>, i: usize) -> (r: usize)
    requires
        i <= v@.len(),
    ensures
        r == block_end(v@, i as int),
{
    let mut j = i;
    while j < v.len()
        invariant
            i <= j <= v@.len(),
            block_end(v@, i as int) == block_end(v@, j as int),
        decreases v@.len() - j,
    {
        if v[j] == '*' && j + 1 < v.len() && v[j + 1] == '/' {
            return j + 2;
        }
        j = j + 1;
    }
    j
}

fn scan_blank_end(v: &Vec<char>, i: usize) -> (r: usize)
    requires
        i <= v@.len(),
    ensures
        r == blank_end(v@, i as int),
{
    let mut j = i;
    while j < v.len() && (v[j] == ' ' || v[j] == '\t' || v[j] == '\n')
        invariant
            i <= j <= v@.len(),
            blank_end(v@, i as int) == blank_end(v@, j as int),
        decreases v@.len() - j,
    {
        j = j + 1;
    }
    j
}

fn scan_quote_end(v: &Vec<char>, i: usize) -> (r: usize)
    requires
        i <= v@.len(),
    ensures
        r == quote_end(v@, i as int),
{
    let mut j = i;
    while j < v.len() && v[j] != '"' && v[j] != '\n'
        invariant
            i <= j <= v@.len(),
            quote_end(v@, i as int) == quote_end(v@, j as int),
        decreases v@.len() - j,
    {
        j = j + 1;
    }
    j
}

fn is_closed_quote(v: &Vec<char>, i: usize) -> (r: bool)
    requires
        i < v@.len(),
    ensures
        r == closed_quote(v@, i as int),
{
    let n = v.len();
    if v[i] != '"' || i + 1 > n {
        return false;
    }
    let e = scan_quote_end(v, i + 1);
    e < v.len() && v[e] == '"'
}

fn opens_at(v: &Vec<char>, i: usize) -> (r: bool)
    requires
        i < v@.len(),
    ensures
        r == opens_segment(v@, i as int),
{
    let n = v.len();
    (v[i] == '/' && i + 1 < n && (v[i + 1] == '/' || v[i + 1] == '*')) || is_closed_quote(
        v,
        i,
    )
}

fn scan_plain_end(v: &Vec<char>, i: usize) -> (r: usize)
    requires
        i <= v@.len(),
    ensures
        r == plain_end(v@, i as int),
{
    let mut j = i;
    while j < v.len() && !(v[j] == ' ' || v[j] == '\t' || v[j] == '\n') && !opens_at(v, j)
        invariant
            i <= j <= v@.len(),
            plain_end(v@, i as int) == plain_end(v@, j as int),
        decreases v@.len() - j,
    {
        j = j + 1;
    }
    j
}

fn segment_end(v: &Vec<char>, i: usize) -> (r: (usize, Option<Annotation>))
    requires
        i < v@.len(),
    ensures
        r.0 == segment_at(v@, i as int).0,
        r.1 == segment_at(v@, i as int).1,
{
    let n = v.len();
    proof {
        lemma_quote_end_bounds(v@, i + 1);
    }
    let c = v[i];
    if c == '/' && i + 1 < n && v[i + 1] == '/' {
        (scan_line_end(v, i), Some(Annotation::Comment))
    } else if c == '/' && i + 1 < n && v[i + 1] == '*' {
        (scan_block_end(v, i + 2), Some(Annotation::Comment))
    } else if is_closed_quote(v, i) {
        (scan_quote_end(v, i + 1) + 1, Some(Annotation::String))
    } else if c == ' ' || c == '\t' || c == '\n' {
        (scan_blank_end(v, i), Some(Annotation::Whitespace))
    } else {
        (scan_plain_end(v, i + 1), None)
    }
}

/// Splits `source` into consecutive segments: a line comment up to (not
/// including) its newline, a block comment up to and including the first
/// `*/` (or to the end), a string literal closed on its own line, a run of
/// whitespace, or plain text up to the next of these. Each segment is paired
/// with its annotation; plain text has none.
pub fn annotate<'a>(source: &'a str) -> (r: Vec<(&'a str, Option<Annotation>)>)
    ensures
        segments_view(r@) == annotate_spec(source@),
{
    let v = chars_of(source);
    let n = v.len();
    let mut r: Vec<(&'a str, Option<Annotation>)> = Vec::new();
    let mut i: usize = 0;
    while i < n
        invariant
            v@ == source@,
            n == v@.len(),
            i <= n,
            annotate_spec(v@) == segments_view(r@) + segments_from(v@, i as int),
        decreases n - i,
    {
        proof {
            lemma_segment_at_bounds(v@, i as int);
        }
        let (e, a) = segment_end(&v, i);
        let text = source.substring_char(i, e);
        let ghost before = r@;
        r.push((text, a));
        proof {
            assert(segments_view(r@) =~= segments_view(before).push((text@, a)));
            assert(segments_view(r@) + segments_from(v@, e as int) =~= segments_view(before)
                + segments_from(v@, i as int));
        }
        i = e;
    }
    assert(segments_view(r@) =~= segments_view(r@) + segments_from(v@, i as int));
    r
}

/// The texts of the segments `r`, one after the other.
pub open spec fn joined(r: Seq<(Seq<char>, Option<Annotation>)>) -> Seq<char>
    decreases r.len(),
{
    if r.len() == 0 {
        seq![]
    } else {
        r[0].0 + joined(r.drop_first())
    }
}

proof fn lemma_segments_join(s: Seq<char>, i: int)
    requires
        0 <= i <= s.len(),
    ensures
        joined(segments_from(s, i)) == s.subrange(i, s.len() as int),
    decreases s.len() - i,
{
    if i < s.len() {
        lemma_segment_at_bounds(s, i);
        let e = segment_at(s, i).0;
        lemma_segments_join(s, e);
        let r = segments_from(s, i);
        assert(r.drop_first() =~= segments_from(s, e));
        assert(s.subrange(i, e) + s.subrange(e, s.len() as int) =~= s.subrange(i, s.len() as int));
    } else {
        assert(s.subrange(i, s.len() as int) =~= Seq::<char>::empty());
    }
}

/// The segments of a text, put back together, give the text: annotating
/// loses, reorders and repeats nothing.
pub proof fn lemma_annotate_covers(s: Seq<char>)
    ensures
        joined(annotate_spec(s)) == s,
{
    lemma_segments_join(s, 0);
    assert(s.subrange(0, s.len() as int) =~= s);
}

} // verus!
