use litschema::lit::parse;
use litschema::lit::types::LitNode;
use litschema::render::raw_text;

fn text(s: &str) -> LitNode {
    LitNode::Text(s.to_string())
}

#[test]
fn empty_input_parses_to_empty_document() {
    let doc = parse("").unwrap();
    assert!(doc.is_empty());
}

#[test]
fn plain_text_is_one_text_node() {
    let doc = parse("hello world\n").unwrap();
    assert_eq!(doc, vec![text("hello world\n")]);
}

#[test]
fn escapes_are_kept_in_text_content() {
    let doc = parse("a\\{b\\}c\\\\d").unwrap();
    assert_eq!(doc, vec![text("a\\{b\\}c\\\\d")]);
}

#[test]
fn stray_braces_are_swallowed_by_text() {
    let doc = parse("a{b}c").unwrap();
    assert_eq!(doc, vec![text("a{b}c")]);
}

#[test]
fn comment_node() {
    let doc = parse("{- hi -}").unwrap();
    assert_eq!(doc, vec![LitNode::Comment(String::from(" hi "))]);
}

#[test]
fn call_with_one_argument() {
    let doc = parse("\\bold{hi}").unwrap();
    assert_eq!(
        doc,
        vec![LitNode::Fn("bold".to_string(), vec![vec![text("hi")]])]
    );
}

#[test]
fn call_without_arguments() {
    let doc = parse("\\br2").unwrap();
    assert_eq!(doc, vec![LitNode::Fn("br2".to_string(), vec![])]);
}

#[test]
fn nested_calls() {
    let doc = parse("\\aa{\\bb{x}}").unwrap();
    assert_eq!(
        doc,
        vec![LitNode::Fn(
            "aa".to_string(),
            vec![vec![LitNode::Fn("bb".to_string(), vec![vec![text("x")]])]]
        )]
    );
}

#[test]
fn verbatim_argument_is_one_raw_text_node() {
    let doc = parse("\\cb{{{<b>\\x}}}").unwrap();
    assert_eq!(
        doc,
        vec![LitNode::Fn("cb".to_string(), vec![vec![text("<b>\\x")]])]
    );
}

#[test]
fn preformatted_argument_parses_like_regular() {
    let doc = parse("\\cb{{abc}}").unwrap();
    assert_eq!(
        doc,
        vec![LitNode::Fn("cb".to_string(), vec![vec![text("abc")]])]
    );
}

#[test]
fn mixed_text_and_calls() {
    let doc = parse("a\\bb{x}c").unwrap();
    assert_eq!(
        doc,
        vec![
            text("a"),
            LitNode::Fn("bb".to_string(), vec![vec![text("x")]]),
            text("c"),
        ]
    );
}

#[test]
fn single_letter_name_is_an_error() {
    // A call name needs at least two characters, and a lone backslash can
    // not be text either.
    let err = parse("\\x").unwrap_err();
    assert_eq!(err.offset, 0);
    assert_eq!(err.line, 1);
    assert_eq!(err.column, 1);
}

#[test]
fn unterminated_comment_is_an_error() {
    let err = parse("{- hi").unwrap_err();
    assert_eq!(err.offset, 0);
    assert_eq!(err.line, 1);
    assert_eq!(err.column, 1);
}

#[test]
fn error_position_counts_lines_and_columns() {
    let err = parse("ok\n\\x").unwrap_err();
    assert_eq!(err.offset, 3);
    assert_eq!(err.line, 2);
    assert_eq!(err.column, 1);
}

#[test]
fn text_only_round_trip_reproduces_input() {
    let input = "one line\n  two{x} line\tend";
    let doc = parse(input).unwrap();
    assert!(doc.iter().all(|n| matches!(n, LitNode::Text(_))));
    assert_eq!(raw_text(&doc), input);
}

#[test]
fn text_round_trip_keeps_escapes() {
    let input = "a\\{b\\}c";
    let doc = parse(input).unwrap();
    assert_eq!(raw_text(&doc), input);
}

#[test]
fn raw_text_skips_calls_and_comments() {
    let doc = parse("a\\bb{x}{- c -}d").unwrap();
    assert_eq!(raw_text(&doc), "ad");
}
