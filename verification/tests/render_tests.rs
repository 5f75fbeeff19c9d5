use litschema::lit::parse;
use litschema::render::{clean_text, text_to_markdown, trim_codeblock};

#[test]
fn clean_text_pads_and_trims_each_line() {
    assert_eq!(clean_text("  hello  world "), " hello  world ");
}

#[test]
fn clean_text_turns_blank_lines_into_paragraph_breaks() {
    assert_eq!(clean_text("a\n\nb"), " a \n\n b ");
    assert_eq!(clean_text("a\n   \nb"), " a \n\n b ");
}

#[test]
fn clean_text_of_empty_input_is_empty() {
    assert_eq!(clean_text(""), "");
}

#[test]
fn trim_codeblock_removes_common_indentation() {
    assert_eq!(trim_codeblock("    foo\n      bar\n"), "foo\n  bar");
}

#[test]
fn trim_codeblock_ignores_blank_lines_for_the_minimum() {
    assert_eq!(trim_codeblock("  a\n\n  b"), "a\n\nb");
}

#[test]
fn trim_codeblock_without_indentation_only_trims() {
    assert_eq!(trim_codeblock("a\n b"), "a\n b");
}

#[test]
fn markdown_of_plain_text() {
    let doc = parse("hi there").unwrap();
    assert_eq!(text_to_markdown(&doc), " hi there ");
}

#[test]
fn markdown_bold() {
    let doc = parse("\\bold{hi}").unwrap();
    assert_eq!(text_to_markdown(&doc), "** hi **");
}

#[test]
fn markdown_code_uses_raw_text() {
    let doc = parse("\\code{a b}").unwrap();
    assert_eq!(text_to_markdown(&doc), "`a b`");
}

#[test]
fn markdown_codeblock() {
    let doc = parse("\\codeblock{go}{{{  x\n  y}}}").unwrap();
    assert_eq!(text_to_markdown(&doc), "```go\nx\ny\n```");
}

#[test]
fn markdown_example_toggle() {
    let doc = parse("\\example-toggle{T}{B}").unwrap();
    assert_eq!(text_to_markdown(&doc), "\n@example  T \n B ");
}

#[test]
fn markdown_warn_passes_its_body_through() {
    let doc = parse("\\warn{careful}").unwrap();
    assert_eq!(text_to_markdown(&doc), " careful ");
}

#[test]
fn markdown_unknown_call_renders_its_arguments() {
    let doc = parse("\\wrap{a}{b}").unwrap();
    assert_eq!(text_to_markdown(&doc), " a  b ");
}

#[test]
fn markdown_skips_comments() {
    let doc = parse("{- c -}xy").unwrap();
    assert_eq!(text_to_markdown(&doc), " xy ");
}

#[test]
fn text_swallows_a_comment_that_follows_it_directly() {
    // A comment is recognized only where a node starts; a running text node
    // swallows a brace-delimited span, comment-shaped or not.
    let doc = parse("x{- c -}y").unwrap();
    assert_eq!(text_to_markdown(&doc), " x{- c -}y ");
}

#[test]
fn markdown_unescapes_braces_once_at_the_end() {
    let doc = parse("a\\{b\\}c").unwrap();
    assert_eq!(text_to_markdown(&doc), " a{b}c ");
}
