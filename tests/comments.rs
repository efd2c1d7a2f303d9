use pyswc::comments::{order_comments, shift_comments, Comment, CommentKind};
use pyswc::encode::{comments_json_with, decimal_string, serialize_comments};
use pyswc::failure::{FailureKind, ParseFailure};
use pyswc::pipeline::{assemble_output, ParseOptions};
use pyswc::span::Span;

fn block(start: u32, end: u32, text: &str) -> Comment {
    Comment::new(start, end, CommentKind::Block, text.to_string())
}

fn line(start: u32, end: u32, text: &str) -> Comment {
    Comment::new(start, end, CommentKind::Line, text.to_string())
}

fn starts(cs: &[Comment]) -> Vec<u32> {
    cs.iter().map(|c| c.span.start).collect()
}

#[test]
fn comment_order_block_then_line() {
    // `/* a */ let x = 1; // b`
    let ordered = order_comments(vec![block(0, 7, " a ")], vec![line(19, 23, " b")]);
    assert_eq!(ordered.len(), 2);
    assert_eq!(ordered[0].kind, CommentKind::Block);
    assert_eq!(ordered[0].text, " a ");
    assert_eq!(ordered[1].kind, CommentKind::Line);
    assert_eq!(ordered[1].text, " b");
    let json = serialize_comments(&ordered);
    assert_eq!(
        json,
        "[{\"span\":{\"start\":0,\"end\":7},\"kind\":\"block\",\"text\":\" a \"},\
         {\"span\":{\"start\":19,\"end\":23},\"kind\":\"line\",\"text\":\" b\"}]"
    );
}

#[test]
fn comment_order_ignores_collection_order() {
    let a = order_comments(
        vec![line(30, 35, "c"), block(0, 7, "a")],
        vec![line(10, 14, "b")],
    );
    let b = order_comments(
        vec![line(10, 14, "b")],
        vec![block(0, 7, "a"), line(30, 35, "c")],
    );
    assert_eq!(starts(&a), vec![0, 10, 30]);
    assert_eq!(serialize_comments(&a), serialize_comments(&b));
}

#[test]
fn comment_order_keeps_ties_leading_first() {
    let ordered = order_comments(
        vec![block(5, 9, "lead")],
        vec![line(2, 4, "x"), line(5, 9, "trail")],
    );
    assert_eq!(starts(&ordered), vec![2, 5, 5]);
    assert_eq!(ordered[1].text, "lead");
    assert_eq!(ordered[2].text, "trail");
}

#[test]
fn comment_order_of_ordered_list_is_unchanged() {
    let first = order_comments(vec![block(0, 3, "a"), line(8, 12, "b")], vec![line(20, 22, "c")]);
    let first_json = serialize_comments(&first);
    let again = order_comments(first, Vec::new());
    assert_eq!(starts(&again), vec![0, 8, 20]);
    assert_eq!(serialize_comments(&again), first_json);
}

#[test]
fn comment_order_empty() {
    let ordered = order_comments(Vec::new(), Vec::new());
    assert!(ordered.is_empty());
    assert_eq!(serialize_comments(&ordered), "[]");
}

#[test]
fn comment_text_is_escaped() {
    let cs = vec![line(1, 9, "say \"hi\"\n\\")];
    assert_eq!(
        serialize_comments(&cs),
        "[{\"span\":{\"start\":1,\"end\":9},\"kind\":\"line\",\"text\":\"say \\\"hi\\\"\\n\\\\\"}]"
    );
}

#[test]
fn comments_json_with_given_encodings() {
    let cs = vec![block(3, 4, "ignored"), line(10, 200, "ignored")];
    let quoted = vec!["Q1".to_string(), "Q2".to_string()];
    assert_eq!(
        comments_json_with(&cs, &quoted),
        "[{\"span\":{\"start\":3,\"end\":4},\"kind\":\"block\",\"text\":Q1},\
         {\"span\":{\"start\":10,\"end\":200},\"kind\":\"line\",\"text\":Q2}]"
    );
}

#[test]
fn decimal_values() {
    assert_eq!(decimal_string(0), "0");
    assert_eq!(decimal_string(7), "7");
    assert_eq!(decimal_string(10), "10");
    assert_eq!(decimal_string(1234567), "1234567");
    assert_eq!(decimal_string(u32::MAX), "4294967295");
}

#[test]
fn assemble_success_with_comments() {
    let ordered = order_comments(vec![block(0, 7, " a ")], vec![line(19, 23, " b")]);
    let r = assemble_output(Some("{\"type\":\"Module\"}".to_string()), ordered, true);
    let (ast, comments) = r.unwrap();
    assert_eq!(ast, "{\"type\":\"Module\"}");
    assert_eq!(
        comments,
        "[{\"span\":{\"start\":0,\"end\":7},\"kind\":\"block\",\"text\":\" a \"},\
         {\"span\":{\"start\":19,\"end\":23},\"kind\":\"line\",\"text\":\" b\"}]"
    );
}

#[test]
fn assemble_without_comments() {
    let r = assemble_output(Some("{}".to_string()), vec![block(0, 7, " a ")], false);
    let (ast, comments) = r.unwrap();
    assert_eq!(ast, "{}");
    assert_eq!(comments, "[]");
}

#[test]
fn assemble_failed_tree_encoding() {
    let r = assemble_output(None, vec![block(0, 7, " a ")], true);
    let e = r.unwrap_err();
    assert_eq!(e.kind, FailureKind::SerializationError);
    assert_eq!(e.message, "Error serializing the AST tree");
    assert!(e.span.is_none());
}

#[test]
fn shift_measures_from_text_start() {
    let shifted = shift_comments(vec![block(1, 8, " a "), line(20, 24, " b")], 1, 23).unwrap();
    assert_eq!(shifted[0].span, Span::new(0, 7));
    assert_eq!(shifted[1].span, Span::new(19, 23));
    assert_eq!(shifted[1].text, " b");
    assert_eq!(shifted[1].kind, CommentKind::Line);
}

#[test]
fn shift_rejects_comment_outside_text() {
    let past_end = shift_comments(vec![line(20, 25, " b")], 1, 23).unwrap_err();
    assert_eq!(past_end.kind, FailureKind::InternalError);
    let before_start = shift_comments(vec![line(0, 4, "x")], 1, 23).unwrap_err();
    assert_eq!(before_start.kind, FailureKind::InternalError);
    let backwards = shift_comments(vec![line(9, 4, "x")], 1, 23).unwrap_err();
    assert_eq!(backwards.kind, FailureKind::InternalError);
    assert!(shift_comments(Vec::new(), 1, 0).unwrap().is_empty());
}

#[test]
fn control_characters_escaped() {
    let cs = vec![block(0, 4, "\u{1}\t\u{8}\u{c}\r\u{1f}\u{e9}")];
    assert_eq!(
        serialize_comments(&cs),
        "[{\"span\":{\"start\":0,\"end\":4},\"kind\":\"block\",\"text\":\"\\u0001\\t\\b\\f\\r\\u001f\u{e9}\"}]"
    );
}

#[test]
fn failure_kinds() {
    let s = ParseFailure::syntax(Some(Span::new(8, 22)));
    assert_eq!(s.kind, FailureKind::SyntaxError);
    assert_eq!(s.message, "Unable to parse the code");
    assert_eq!(s.span, Some(Span::new(8, 22)));
    let i = ParseFailure::internal();
    assert_eq!(i.kind, FailureKind::InternalError);
    assert!(i.span.is_none());
    assert_eq!(ParseFailure::serialization().kind, FailureKind::SerializationError);
}

#[test]
fn span_checks() {
    let outer = Span::new(0, 10);
    assert!(outer.fits(10));
    assert!(!outer.fits(9));
    assert!(!Span::new(5, 4).fits(10));
    assert!(outer.encloses(&Span::new(2, 10)));
    assert!(!outer.encloses(&Span::new(2, 11)));
    assert!(!Span::new(3, 8).encloses(&outer));
}

#[test]
fn default_options() {
    let o = ParseOptions::new();
    assert!(!o.typescript);
    assert!(!o.jsx);
    assert!(o.module);
    assert!(o.include_comments);
}
