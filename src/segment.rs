use crate::span::{
    lemma_boundary_prefix, lemma_boundary_suffix, slice, span_content, span_fits, ContentRef,
    IndexedCow, Span, SpannedStr, SpannedText,
};
use vstd::prelude::*;
use vstd::string::StringSliceAdditionalSpecFns;
use vstd::utf8::*;

verus! {

broadcast use {encode_utf8_valid_utf8, is_char_boundary_start_end_of_seq};

/// The first character boundary of `bytes` at or after offset `i`, or `i`
/// itself once it reaches the end.
pub open spec fn next_boundary(bytes: Seq<u8>, i: int) -> int
    decreases bytes.len() - i,
{
    if i >= bytes.len() || is_char_boundary(bytes, i) {
        i
    } else {
        next_boundary(bytes, i + 1)
    }
}

/// Refers to a part of a span.
#[derive(Debug, Clone, Copy, PartialEq, Eq)]
pub struct Segment {
    /// Index of the span this segment refers to.
    pub span_id: usize,
    /// Beginning of this segment within the span (included).
    pub start: usize,
    /// End of this segment within the span (excluded).
    pub end: usize,
    /// Display width of this segment.
    pub width: usize,
}

impl Segment {
    /// The bytes this segment resolves to within the resolved span `content`:
    /// both ends moved forward to the next character boundary.
    pub open spec fn corrected(&self, content: Seq<u8>) -> Seq<u8> {
        content.subrange(
            next_boundary(content, self.start as int),
            next_boundary(content, self.end as int),
        )
    }

    /// The range of the source buffer this segment stands for, if the span
    /// borrows from the buffer.
    pub open spec fn source_range(&self, content: IndexedCow) -> Option<(int, int)> {
        match content {
            IndexedCow::Borrowed { start, .. } => Some(
                (self.start + start, self.end + start),
            ),
            IndexedCow::Owned(_) => None,
        }
    }

    /// Resolves this segment to a string slice and an attribute.
    ///
    /// Both ends are moved forward to the next character boundary, so the
    /// slice never splits a character. The width is the segment's own.
    pub fn resolve<'a, T>(&self, source: &SpannedStr<'a, T>) -> (r: Span<'a, T>)
        requires
            source.wf(),
            self.span_id < source.spans@.len(),
            self.start <= self.end <= source.span_bytes(self.span_id as int).len(),
        ensures
            r.content.spec_bytes() == self.corrected(source.span_bytes(self.span_id as int)),
            *r.attr == source.spans@[self.span_id as int].attr,
            r.width == self.width,
    {
        let span = &source.spans_raw()[self.span_id];
        assert(span.content.fits(source.source.spec_bytes()));
        let content = span.content.resolve(source.source);
        let ghost bytes = content.spec_bytes();
        let len: usize = content.as_bytes().len();

        let mut begin: usize = self.start;
        let mut end: usize = self.end;
        while !content.is_char_boundary(begin) && begin < len
            invariant
                bytes == content.spec_bytes(),
                len == bytes.len(),
                self.start <= begin <= bytes.len(),
                next_boundary(bytes, begin as int) == next_boundary(bytes, self.start as int),
            decreases bytes.len() - begin,
        {
            assert(next_boundary(bytes, begin as int) == next_boundary(bytes, begin + 1));
            begin += 1;
        }
        while !content.is_char_boundary(end) && end < len
            invariant
                bytes == content.spec_bytes(),
                len == bytes.len(),
                self.end <= end <= bytes.len(),
                next_boundary(bytes, end as int) == next_boundary(bytes, self.end as int),
            decreases bytes.len() - end,
        {
            assert(next_boundary(bytes, end as int) == next_boundary(bytes, end + 1));
            end += 1;
        }
        proof {
            lemma_next_boundary(bytes, self.start as int);
            lemma_next_boundary(bytes, self.end as int);
            lemma_next_boundary_monotonic(bytes, self.start as int, self.end as int);
        }
        let content = slice(content, begin, end);

        Span { content, attr: &span.attr, width: self.width }
    }

    /// Resolves this segment to plain text, with no correction: both ends
    /// must already be character boundaries of the resolved span.
    pub fn resolve_plain<'a, X>(&self, source: &'a X) -> (r: &'a str) where X: SpannedText
        requires
            self.span_id < source.span_seq().len(),
            span_fits(source, self.span_id as int),
            self.start <= self.end <= span_content(source, self.span_id as int).len(),
            is_char_boundary(span_content(source, self.span_id as int), self.start as int),
            is_char_boundary(span_content(source, self.span_id as int), self.end as int),
        ensures
            r.spec_bytes() == span_content(source, self.span_id as int).subrange(
                self.start as int,
                self.end as int,
            ),
    {
        let span = &source.spans()[self.span_id];

        let content = span.content_ref().resolve(source.source());

        slice(content, self.start, self.end)
    }

    /// Returns indices in the source buffer, if possible.
    ///
    /// Returns `(start, end)` moved by the start of the span in the buffer,
    /// or `None` if the span holds a string of its own.
    pub fn source_indices<X>(&self, spans: &[X]) -> (r: Option<(usize, usize)>) where
        X: ContentRef,
        requires
            self.span_id < spans@.len(),
            self.source_range(spans@[self.span_id as int].content_spec()) matches Some((a, b)) ==> a
                <= usize::MAX && b <= usize::MAX,
        ensures
            match r {
                Some((a, b)) => self.source_range(spans@[self.span_id as int].content_spec())
                    == Some((a as int, b as int)),
                None => self.source_range(spans@[self.span_id as int].content_spec()) is None,
            },
    {
        let span = spans[self.span_id].content_ref();

        match span {
            IndexedCow::Borrowed { start, .. } => Some((self.start + *start, self.end + *start)),
            IndexedCow::Owned(_) => None,
        }
    }
}

/// The offset that correction gives is a character boundary at or after the
/// requested one, and no boundary lies between the two; an offset that is
/// already a boundary is kept as it is.
pub proof fn lemma_next_boundary(bytes: Seq<u8>, i: int)
    requires
        valid_utf8(bytes),
        0 <= i <= bytes.len(),
    ensures
        i <= next_boundary(bytes, i) <= bytes.len(),
        is_char_boundary(bytes, next_boundary(bytes, i)),
        forall|k: int| i <= k < next_boundary(bytes, i) ==> !is_char_boundary(bytes, k),
        is_char_boundary(bytes, i) ==> next_boundary(bytes, i) == i,
    decreases bytes.len() - i,
{
    if i < bytes.len() && !is_char_boundary(bytes, i) {
        lemma_next_boundary(bytes, i + 1);
    }
}

/// Correction keeps the order of two offsets.
proof fn lemma_next_boundary_monotonic(bytes: Seq<u8>, i: int, j: int)
    requires
        valid_utf8(bytes),
        0 <= i <= j <= bytes.len(),
    ensures
        next_boundary(bytes, i) <= next_boundary(bytes, j),
    decreases j - i,
{
    if i < j && i < bytes.len() && !is_char_boundary(bytes, i) {
        lemma_next_boundary_monotonic(bytes, i + 1, j);
    } else {
        lemma_next_boundary(bytes, i);
        lemma_next_boundary(bytes, j);
    }
}


/// Correction inside a borrowed part `[b, e)` of a buffer, with `b` and `e`
/// on character boundaries, is correction in the buffer moved by `b`.
proof fn lemma_next_boundary_in_part(bytes: Seq<u8>, b: int, e: int, k: int)
    requires
        valid_utf8(bytes),
        0 <= b <= e <= bytes.len(),
        is_char_boundary(bytes, b),
        is_char_boundary(bytes, e),
        0 <= k <= e - b,
    ensures
        valid_utf8(bytes.subrange(b, e)),
        next_boundary(bytes, b + k) == b + next_boundary(bytes.subrange(b, e), k),
    decreases e - b - k,
{
    let rest = bytes.subrange(b, bytes.len() as int);
    let part = bytes.subrange(b, e);
    lemma_boundary_suffix(bytes, b, e - b);
    lemma_boundary_suffix(bytes, b, k);
    lemma_boundary_prefix(rest, e - b, k);
    assert(part =~= rest.subrange(0, e - b));
    if k < e - b && !is_char_boundary(part, k) {
        lemma_next_boundary_in_part(bytes, b, e, k + 1);
    }
}

/// For a span that borrows from the source buffer, the segment's source
/// range is its own range moved by the start of the span, and slicing the
/// buffer there, with both ends corrected to character boundaries of the
/// buffer, gives the bytes the segment resolves to.
pub proof fn lemma_borrowed_round_trip<'a, T>(seg: Segment, source: SpannedStr<'a, T>)
    requires
        source.wf(),
        seg.span_id < source.spans@.len(),
        seg.start <= seg.end <= source.span_bytes(seg.span_id as int).len(),
    ensures
        source.spans@[seg.span_id as int].content matches IndexedCow::Borrowed { start: b, .. }
            ==> ({
            let bytes = source.source.spec_bytes();
            &&& seg.source_range(source.spans@[seg.span_id as int].content) == Some(
                (seg.start + b, seg.end + b),
            )
            &&& bytes.subrange(next_boundary(bytes, seg.start + b), next_boundary(bytes, seg.end + b))
                == seg.corrected(source.span_bytes(seg.span_id as int))
        }),
{
    let bytes = source.source.spec_bytes();
    let content = source.spans@[seg.span_id as int].content;
    assert(content.fits(bytes));
    if let IndexedCow::Borrowed { start, end } = content {
        let part = bytes.subrange(start as int, end as int);
        lemma_next_boundary_in_part(bytes, start as int, end as int, seg.start as int);
        lemma_next_boundary_in_part(bytes, start as int, end as int, seg.end as int);
        lemma_next_boundary(part, seg.start as int);
        lemma_next_boundary(part, seg.end as int);
        lemma_next_boundary_monotonic(part, seg.start as int, seg.end as int);
        assert(bytes.subrange(next_boundary(bytes, seg.start + start), next_boundary(bytes, seg.end + start))
            =~= seg.corrected(part));
    }
}

/// A span that holds a string of its own has no source range, whatever the
/// segment's offsets.
pub proof fn lemma_owned_opaque(seg: Segment, content: IndexedCow)
    requires
        content is Owned,
    ensures
        seg.source_range(content) is None,
{
}

} // verus!
