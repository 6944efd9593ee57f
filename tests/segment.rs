use spanned_text::{IndexedCow, IndexedSpan, Segment, Span, SpannedStr};

fn borrowed(start: usize, end: usize, attr: u32, width: usize) -> IndexedSpan<u32> {
    IndexedSpan { content: IndexedCow::Borrowed { start, end }, attr, width }
}

fn owned(text: &str, attr: u32, width: usize) -> IndexedSpan<u32> {
    IndexedSpan { content: IndexedCow::Owned(text.to_string()), attr, width }
}

#[test]
fn resolve_advances_start_out_of_multibyte_char() {
    let source = "héllo world";
    assert_eq!(source.len(), 12);
    let spans = vec![borrowed(0, 12, 7, 11)];
    let text = SpannedStr::new(source, &spans);
    // Offset 2 is the second byte of the two-byte `é`.
    let seg = Segment { span_id: 0, start: 2, end: 5, width: 3 };
    let span = seg.resolve(&text);
    assert_eq!(span.content, "ll");
    assert_eq!(span.width, 3);
    assert_eq!(*span.attr, 7);
    assert_eq!(span, Span { content: "ll", attr: &7, width: 3 });
}

#[test]
fn resolve_owned_hyphen_marker() {
    let spans = vec![owned("-\u{2026}", 3, 2)];
    let text = SpannedStr::new("", &spans);
    let seg = Segment { span_id: 0, start: 0, end: 1, width: 1 };
    let span = seg.resolve(&text);
    assert_eq!(span.content, "-");
    assert_eq!(span.width, 1);
    assert_eq!(*span.attr, 3);
    assert_eq!(seg.source_indices(&spans), None);
}

#[test]
fn resolve_advances_end_out_of_multibyte_char() {
    let spans = vec![owned("-\u{2026}", 0, 2)];
    let text = SpannedStr::new("", &spans);
    let seg = Segment { span_id: 0, start: 0, end: 2, width: 1 };
    assert_eq!(seg.resolve(&text).content, "-\u{2026}");
}

#[test]
fn resolve_keeps_offsets_on_boundaries() {
    let source = "héllo world";
    let spans = vec![borrowed(0, 12, 0, 11)];
    let text = SpannedStr::new(source, &spans);
    let seg = Segment { span_id: 0, start: 1, end: 5, width: 3 };
    assert_eq!(seg.resolve(&text).content, "éll");
    let seg = Segment { span_id: 0, start: 2, end: 2, width: 0 };
    assert_eq!(seg.resolve(&text).content, "");
    let seg = Segment { span_id: 0, start: 0, end: 3, width: 2 };
    assert_eq!(seg.resolve(&text).content, "hé");
    let seg = Segment { span_id: 0, start: 12, end: 12, width: 0 };
    assert_eq!(seg.resolve(&text).content, "");
}

#[test]
fn resolve_width_is_passed_through() {
    let source = "日本語";
    let spans = vec![borrowed(0, 9, 0, 6)];
    let text = SpannedStr::new(source, &spans);
    let seg = Segment { span_id: 0, start: 0, end: 3, width: 42 };
    let span = seg.resolve(&text);
    assert_eq!(span.content, "日");
    assert_eq!(span.width, 42);
}

#[test]
fn resolve_second_borrowed_span() {
    let source = "abc déf";
    let spans = vec![borrowed(0, 4, 1, 4), borrowed(4, 8, 2, 3)];
    let text = SpannedStr::new(source, &spans);
    let seg = Segment { span_id: 1, start: 1, end: 4, width: 2 };
    let span = seg.resolve(&text);
    assert_eq!(span.content, "éf");
    assert_eq!(*span.attr, 2);
}

#[test]
fn source_indices_borrowed_moves_by_span_start() {
    let source = "abc déf";
    let spans = vec![borrowed(0, 4, 1, 4), borrowed(4, 8, 2, 3)];
    let seg = Segment { span_id: 1, start: 1, end: 4, width: 2 };
    assert_eq!(seg.source_indices(&spans), Some((5, 8)));
    let text = SpannedStr::new(source, &spans);
    assert_eq!(&source[5..8], seg.resolve(&text).content);
}

#[test]
fn source_indices_borrowed_round_trip_with_correction() {
    let source = "xhéllo";
    let spans = vec![borrowed(1, 7, 0, 5)];
    let text = SpannedStr::new(source, &spans);
    let seg = Segment { span_id: 0, start: 2, end: 4, width: 2 };
    assert_eq!(seg.source_indices(&spans), Some((3, 5)));
    assert_eq!(seg.resolve(&text).content, "l");
    assert_eq!(&source[4..5], "l");
}

#[test]
fn source_indices_owned_is_none_whatever_the_offsets() {
    let spans = vec![borrowed(0, 1, 0, 1), owned("abc", 0, 3)];
    for (start, end) in [(0, 0), (0, 3), (1, 2), (usize::MAX, usize::MAX)] {
        let seg = Segment { span_id: 1, start, end, width: 0 };
        assert_eq!(seg.source_indices(&spans), None);
    }
}

#[test]
fn source_indices_on_content_references() {
    let cows = vec![IndexedCow::Owned("x".to_string()), IndexedCow::Borrowed { start: 10, end: 20 }];
    let seg = Segment { span_id: 1, start: 2, end: 5, width: 3 };
    assert_eq!(seg.source_indices(&cows), Some((12, 15)));
    let seg = Segment { span_id: 0, start: 0, end: 1, width: 1 };
    assert_eq!(seg.source_indices(&cows), None);
}

#[test]
fn resolve_plain_slices_without_correction() {
    let source = "héllo world";
    let spans = vec![borrowed(0, 6, 0, 5), borrowed(6, 12, 1, 6), owned("-\u{2026}", 2, 2)];
    let text = SpannedStr::new(source, &spans);
    let seg = Segment { span_id: 0, start: 1, end: 4, width: 2 };
    assert_eq!(seg.resolve_plain(&text), "él");
    let seg = Segment { span_id: 1, start: 1, end: 6, width: 5 };
    assert_eq!(seg.resolve_plain(&text), "world");
    let seg = Segment { span_id: 2, start: 1, end: 4, width: 1 };
    assert_eq!(seg.resolve_plain(&text), "\u{2026}");
}

#[test]
fn indexed_cow_resolve_borrowed_and_owned() {
    let source = "héllo";
    assert_eq!(IndexedCow::Borrowed { start: 1, end: 4 }.resolve(source), "él");
    let cow = IndexedCow::Owned("mine".to_string());
    assert_eq!(cow.resolve(source), "mine");
}

#[test]
fn spans_raw_returns_the_spans() {
    let spans = vec![borrowed(0, 1, 9, 1)];
    let text = SpannedStr::new("a", &spans);
    assert_eq!(text.spans_raw(), &spans[..]);
}
