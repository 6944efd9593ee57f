//! Resolution of line segments back to styled text.
//!
//! A styled text is a source buffer together with an ordered sequence of
//! spans. A line wrapper cuts the spans into [`Segment`]s; this crate turns a
//! segment back into a text slice, its attribute, and, when the span borrows
//! from the buffer, its position in the buffer. Slicing never splits a
//! multi-byte character.

mod segment;
mod span;

pub use segment::{
    lemma_borrowed_round_trip, lemma_next_boundary, lemma_owned_opaque, next_boundary, Segment,
};
pub use span::{
    bytes_of, span_content, span_fits, ContentRef, IndexedCow, IndexedSpan, Span, SpannedStr,
    SpannedText,
};
