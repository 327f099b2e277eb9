use blink_pairs::buffer::ParsedBuffer;
use blink_pairs::matcher::{Kind, Match, State, Token};

#[test]
fn parse_unknown_language_yields_none() {
    assert!(ParsedBuffer::parse("unknownlang", &["{}"]).is_none());
}

#[test]
fn line_matches_and_out_of_range() {
    let buf = ParsedBuffer::parse("c", &["{", "}"]).unwrap();
    assert_eq!(
        buf.line_matches(0),
        Some(vec![Match::delimiter('{', 0, Some(0))])
    );
    assert_eq!(
        buf.line_matches(1),
        Some(vec![Match::delimiter('}', 0, Some(0))])
    );
    assert_eq!(buf.line_matches(2), None);
}

#[test]
fn match_at_finds_marker_by_column() {
    let buf = ParsedBuffer::parse("c", &["a /* b */"]).unwrap();
    // The two-byte marker is found at both of its columns.
    assert_eq!(buf.match_at(0, 2), buf.match_at(0, 3));
    assert!(buf.match_at(0, 2).is_some());
    assert!(buf.match_at(0, 1).is_none());
    assert!(buf.match_at(1, 0).is_none());
}

#[test]
fn match_pair_is_symmetric() {
    let buf = ParsedBuffer::parse("c", &["{ (", ") }"]).unwrap();
    let from_open = buf.match_pair(0, 0).unwrap();
    assert_eq!(from_open.0.kind, Kind::Opening);
    assert_eq!(from_open.1.kind, Kind::Closing);
    assert_eq!(from_open.0.line, 0);
    assert_eq!(from_open.0.col, 0);
    assert_eq!(from_open.1.line, 1);
    assert_eq!(from_open.1.col, 2);

    // Asking at the closer's own position hands back the identical pair.
    let from_close = buf.match_pair(1, 2).unwrap();
    assert_eq!(from_open.0.line, from_close.0.line);
    assert_eq!(from_open.0.col, from_close.0.col);
    assert_eq!(from_open.1.line, from_close.1.line);
    assert_eq!(from_open.1.col, from_close.1.col);
}

#[test]
fn match_pair_none_for_dangling_and_nonpair() {
    let buf = ParsedBuffer::parse("c", &["( ( ) // ("]).unwrap();
    // The first opener never closes.
    assert!(buf.match_pair(0, 0).is_none());
    // The inner pair still pairs.
    assert!(buf.match_pair(0, 2).is_some());
    // A comment marker is non-pairing.
    assert!(buf.match_pair(0, 6).is_none());
}

#[test]
fn get_state_at_line_reports_carryover() {
    let buf = ParsedBuffer::parse("c", &["/* open", "*/ done"]).unwrap();
    assert_eq!(
        buf.get_state_at_line(0),
        Some(&State::InBlockComment("/*".as_bytes().to_vec()))
    );
    assert_eq!(buf.get_state_at_line(1), Some(&State::Normal));
    assert_eq!(buf.get_state_at_line(2), None);
}

#[test]
fn reparse_range_matches_full_parse() {
    let mut buf = ParsedBuffer::parse("c", &["{", "a", "}"]).unwrap();
    // Replace the middle line by two lines.
    let ok = buf.reparse_range("c", &["(", ")"], Some(1), Some(2), Some(3));
    assert!(ok);
    let fresh = ParsedBuffer::parse("c", &["{", "(", ")", "}"]).unwrap();
    for l in 0..4 {
        assert_eq!(buf.line_matches(l), fresh.line_matches(l));
        assert_eq!(buf.get_state_at_line(l), fresh.get_state_at_line(l));
    }
    assert_eq!(buf.line_matches(4), None);
}

#[test]
fn reparse_range_recomputes_heights_downstream() {
    let mut buf = ParsedBuffer::parse("c", &["(", ")"]).unwrap();
    // Deleting the opener leaves an orphan closer at depth zero.
    let ok = buf.reparse_range("c", &["x"], Some(0), Some(1), Some(1));
    assert!(ok);
    assert_eq!(buf.line_matches(0), Some(vec![]));
    assert_eq!(
        buf.line_matches(1),
        Some(vec![Match::delimiter(')', 0, Some(0))])
    );
}

#[test]
fn reparse_range_unknown_language_leaves_buffer() {
    let mut buf = ParsedBuffer::parse("c", &["{}"]).unwrap();
    let before = buf.line_matches(0);
    assert!(!buf.reparse_range("unknownlang", &["()"], Some(0), Some(1), Some(1)));
    assert_eq!(buf.line_matches(0), before);
}

#[test]
fn span_queries_name_enclosing_span() {
    let buf = ParsedBuffer::parse("markdown", &["a `b` c", "``` ", "inside", "```"]).unwrap();
    assert_eq!(buf.span_at(0, 3), Some("code".to_string()));
    assert_eq!(buf.span_at(0, 6), None);
    // The fenced block carries across lines through the recorded state.
    assert_eq!(buf.span_at(1, 1), Some("codeblock".to_string()));
    assert_eq!(buf.span_at(2, 3), Some("codeblock".to_string()));
    assert_eq!(
        buf.get_state_at_line(2),
        Some(&State::InBlockSpan("codeblock".to_string()))
    );
    assert_eq!(buf.span_at(9, 0), None);
}

#[test]
fn match_constructors_carry_their_fields() {
    let t = Token::Delimiter(vec![40], vec![41]);
    let m = Match::new(Kind::Opening, t, 3);
    assert_eq!(m.len(), 1);
    assert_eq!(m.stack_height, None);
    let t2 = Token::BlockComment(b"/*".to_vec(), b"*/".to_vec());
    let m2 = Match::new_with_stack(Kind::Closing, t2, 5, 2);
    assert_eq!(m2.stack_height, Some(2));
    assert_eq!(m2.len(), 2);
    let w = m2.with_line(7);
    assert_eq!(w.line, 7);
    assert_eq!(w.col, 5);
}
