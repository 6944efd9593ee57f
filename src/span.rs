use vstd::prelude::*;
use vstd::string::StringSliceAdditionalSpecFns;
use vstd::utf8::*;

verus! {

broadcast use {
    encode_utf8_valid_utf8,
    is_char_boundary_start_end_of_seq,
    is_char_boundary_iff_not_is_continuation_byte,
    valid_utf8_split,
};

/// The UTF-8 bytes of a text.
pub open spec fn bytes_of(text: Seq<char>) -> Seq<u8> {
    encode_utf8(text)
}

/// Where the text of a span lives.
#[derive(Debug, Clone, PartialEq, Eq)]
pub enum IndexedCow {
    /// The bytes `[start, end)` of the source buffer.
    Borrowed { start: usize, end: usize },
    /// A string of its own, with no position in the source buffer.
    Owned(String),
}

impl IndexedCow {
    /// Whether this reference can be resolved against `source`: a borrowed
    /// range lies in the buffer and starts and ends on character boundaries.
    pub open spec fn fits(&self, source: Seq<u8>) -> bool {
        match self {
            IndexedCow::Borrowed { start, end } => {
                &&& *start <= *end <= source.len()
                &&& is_char_boundary(source, *start as int)
                &&& is_char_boundary(source, *end as int)
            },
            IndexedCow::Owned(_) => true,
        }
    }

    /// The bytes this reference stands for, given the source buffer.
    pub open spec fn resolved(&self, source: Seq<u8>) -> Seq<u8> {
        match self {
            IndexedCow::Borrowed { start, end } => source.subrange(*start as int, *end as int),
            IndexedCow::Owned(s) => bytes_of(s@),
        }
    }

    /// Returns the text this reference stands for.
    pub fn resolve<'a>(&'a self, source: &'a str) -> (r: &'a str)
        requires
            self.fits(source.spec_bytes()),
        ensures
            r.spec_bytes() == self.resolved(source.spec_bytes()),
    {
        match self {
            IndexedCow::Borrowed { start, end } => slice(source, *start, *end),
            IndexedCow::Owned(s) => s.as_str(),
        }
    }
}

/// Gives access to the content reference of a raw span.
pub trait ContentRef {
    /// The content reference.
    spec fn content_spec(&self) -> IndexedCow;

    /// Returns the content reference.
    fn content_ref(&self) -> (r: &IndexedCow)
        ensures
            *r == self.content_spec(),
    ;
}

impl ContentRef for IndexedCow {
    open spec fn content_spec(&self) -> IndexedCow {
        *self
    }

    fn content_ref(&self) -> (r: &IndexedCow) {
        self
    }
}

/// A raw span: a content reference, an attribute and a display width.
#[derive(Debug, Clone, PartialEq, Eq)]
pub struct IndexedSpan<T> {
    /// Where the text of this span lives.
    pub content: IndexedCow,
    /// The attribute of this span.
    pub attr: T,
    /// The display width of this span.
    pub width: usize,
}

impl<T> ContentRef for IndexedSpan<T> {
    open spec fn content_spec(&self) -> IndexedCow {
        self.content
    }

    fn content_ref(&self) -> (r: &IndexedCow) {
        &self.content
    }
}

/// A resolved span: a text slice, its attribute and its display width.
#[derive(Debug, Clone, Copy, PartialEq, Eq)]
pub struct Span<'a, T> {
    /// The text of this span.
    pub content: &'a str,
    /// The attribute of this span.
    pub attr: &'a T,
    /// The display width of this span.
    pub width: usize,
}

/// A source buffer and the raw spans that refer to it.
pub trait SpannedText {
    /// The type of the raw spans.
    type S: ContentRef;

    /// The characters of the source buffer.
    spec fn source_text(&self) -> Seq<char>;

    /// The raw spans.
    spec fn span_seq(&self) -> Seq<Self::S>;

    /// Returns the source buffer.
    fn source(&self) -> (r: &str)
        ensures
            r@ == self.source_text(),
    ;

    /// Returns the raw spans.
    fn spans(&self) -> (r: &[Self::S])
        ensures
            r@ == self.span_seq(),
    ;
}

/// The content reference of span `i` of `text` can be resolved against its
/// source buffer.
pub open spec fn span_fits<X: SpannedText>(text: &X, i: int) -> bool {
    text.span_seq()[i].content_spec().fits(bytes_of(text.source_text()))
}

/// The resolved bytes of span `i` of `text`.
pub open spec fn span_content<X: SpannedText>(text: &X, i: int) -> Seq<u8> {
    text.span_seq()[i].content_spec().resolved(bytes_of(text.source_text()))
}

/// A borrowed source buffer with its borrowed raw spans.
pub struct SpannedStr<'a, T> {
    /// The source buffer.
    pub source: &'a str,
    /// The raw spans, in order.
    pub spans: &'a [IndexedSpan<T>],
}

impl<'a, T> SpannedStr<'a, T> {
    /// Every span can be resolved against the source buffer.
    pub open spec fn wf(&self) -> bool {
        forall|i: int|
            0 <= i < self.spans@.len() ==> #[trigger] self.spans@[i].content.fits(
                self.source.spec_bytes(),
            )
    }

    /// The resolved bytes of span `i`.
    pub open spec fn span_bytes(&self, i: int) -> Seq<u8> {
        self.spans@[i].content.resolved(self.source.spec_bytes())
    }

    /// Makes a spanned text from a source buffer and spans over it.
    pub fn new(source: &'a str, spans: &'a [IndexedSpan<T>]) -> (r: Self)
        ensures
            r.source == source,
            r.spans == spans,
    {
        SpannedStr { source, spans }
    }

    /// Returns the raw spans.
    pub fn spans_raw(&self) -> (r: &'a [IndexedSpan<T>])
        ensures
            r == self.spans,
    {
        self.spans
    }
}

impl<'a, T> SpannedText for SpannedStr<'a, T> {
    type S = IndexedSpan<T>;

    open spec fn source_text(&self) -> Seq<char> {
        self.source@
    }

    open spec fn span_seq(&self) -> Seq<IndexedSpan<T>> {
        self.spans@
    }

    fn source(&self) -> (r: &str) {
        self.source
    }

    fn spans(&self) -> (r: &[IndexedSpan<T>]) {
        self.spans
    }
}

/// Boundaries of `bytes` seen from the part that starts at a boundary `at`:
/// an offset past `at` is a boundary of the rest exactly where it is one of
/// the whole.
pub(crate) proof fn lemma_boundary_suffix(bytes: Seq<u8>, at: int, i: int)
    requires
        valid_utf8(bytes),
        is_char_boundary(bytes, at),
        0 <= i <= bytes.len() - at,
    ensures
        valid_utf8(bytes.subrange(at, bytes.len() as int)),
        is_char_boundary(bytes.subrange(at, bytes.len() as int), i) == is_char_boundary(
            bytes,
            at + i,
        ),
{
    let rest = bytes.subrange(at, bytes.len() as int);
    assert(valid_utf8(rest));
    if i < rest.len() {
        assert(rest[i] == bytes[at + i]);
        is_char_boundary_iff_not_is_continuation_byte(rest, i);
        is_char_boundary_iff_not_is_continuation_byte(bytes, at + i);
    } else {
        is_char_boundary_start_end_of_seq(rest);
        is_char_boundary_start_end_of_seq(bytes);
    }
}

/// Boundaries of `bytes` seen from its part that ends at a boundary `at`.
pub(crate) proof fn lemma_boundary_prefix(bytes: Seq<u8>, at: int, i: int)
    requires
        valid_utf8(bytes),
        is_char_boundary(bytes, at),
        0 <= i <= at,
    ensures
        valid_utf8(bytes.subrange(0, at)),
        is_char_boundary(bytes.subrange(0, at), i) == is_char_boundary(bytes, i),
{
    let head = bytes.subrange(0, at);
    assert(valid_utf8(head));
    if i < at {
        assert(head[i] == bytes[i]);
        is_char_boundary_iff_not_is_continuation_byte(head, i);
        is_char_boundary_iff_not_is_continuation_byte(bytes, i);
    } else {
        is_char_boundary_start_end_of_seq(head);
    }
}

/// The bytes `[start, end)` of `text`, both ends on character boundaries.
pub(crate) fn slice<'a>(text: &'a str, start: usize, end: usize) -> (r: &'a str)
    requires
        start <= end <= text.spec_bytes().len(),
        is_char_boundary(text.spec_bytes(), start as int),
        is_char_boundary(text.spec_bytes(), end as int),
    ensures
        r.spec_bytes() == text.spec_bytes().subrange(start as int, end as int),
{
    let ghost bytes = text.spec_bytes();
    let (_, rest) = text.split_at(start);
    proof {
        lemma_boundary_suffix(bytes, start as int, end - start);
    }
    let (mid, _) = rest.split_at(end - start);
    assert(mid.spec_bytes() =~= bytes.subrange(start as int, end as int));
    mid
}

} // verus!
