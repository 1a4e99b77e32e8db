use html_parser::html_element::HtmlAttribute;
use html_parser::tokenizer::{tokenize, HtmlParseError, Token};

fn attr(name: &str, value: &str) -> HtmlAttribute {
    HtmlAttribute { name: String::from(name), value: String::from(value) }
}

/// Attributes are kept in document order, unquoted and trimmed, and
/// both quote characters are accepted.
#[test]
fn attribute_preservation() {
    let tokens = tokenize("<div class=\"container\" id='x'>").unwrap();
    assert_eq!(
        tokens,
        vec![Token::OpenTag(
            String::from("div"),
            vec![attr("class", "container"), attr("id", "x")]
        )]
    );
}

/// Text runs outside tags are preserved exactly, in document order.
#[test]
fn text_runs_preserved() {
    let tokens = tokenize("hello<b>world</b>").unwrap();
    assert_eq!(
        tokens,
        vec![
            Token::Text(String::from("hello")),
            Token::OpenTag(String::from("b"), vec![]),
            Token::Text(String::from("world")),
            Token::CloseTag(String::from("b")),
        ]
    );
}

/// A bare `>` outside a tag is silently dropped; the text around it
/// joins into one run.
#[test]
fn stray_gt_dropped() {
    let tokens = tokenize("a>b").unwrap();
    assert_eq!(tokens, vec![Token::Text(String::from("ab"))]);
}

/// A `<` that ends the input is the one tokenizer error.
#[test]
fn unexpected_end_of_input() {
    let err = tokenize("<").unwrap_err();
    assert_eq!(err, HtmlParseError::UnexpectedEndOfInput);
}

/// Empty input tokenizes to no tokens at all.
#[test]
fn empty_input_no_tokens() {
    let tokens = tokenize("").unwrap();
    assert_eq!(tokens, vec![]);
}

/// A close tag's name ends at the first space; what follows it is left
/// to the outer scan, which drops the `>` and keeps the rest as text.
#[test]
fn close_tag_name_stops_at_space() {
    let tokens = tokenize("</a >").unwrap();
    assert_eq!(
        tokens,
        vec![Token::CloseTag(String::from("a")), Token::Text(String::from(" "))]
    );
}

/// An `=` with no quote after it leaves the attribute value empty.
#[test]
fn attr_without_quoted_value_stays_empty() {
    let tokens = tokenize("<a x=>").unwrap();
    assert_eq!(
        tokens,
        vec![Token::OpenTag(String::from("a"), vec![attr("x", "")])]
    );
}

/// Attribute values are trimmed of leading and trailing whitespace.
#[test]
fn attr_value_trimmed() {
    let tokens = tokenize("<a x=\" hi \">").unwrap();
    assert_eq!(
        tokens,
        vec![Token::OpenTag(String::from("a"), vec![attr("x", "hi")])]
    );
}

/// Whitespace inside an attribute name is skipped while scanning to
/// the `=`.
#[test]
fn attr_name_skips_whitespace() {
    let tokens = tokenize("<a  x =\"v\">").unwrap();
    assert_eq!(
        tokens,
        vec![Token::OpenTag(String::from("a"), vec![attr("x", "v")])]
    );
}

/// A quoted value runs to the matching quote character: the other
/// quote character may appear inside it.
#[test]
fn attr_value_to_matching_quote() {
    let tokens = tokenize("<a x=\"v'w\">").unwrap();
    assert_eq!(
        tokens,
        vec![Token::OpenTag(String::from("a"), vec![attr("x", "v'w")])]
    );
}

/// An unquoted value is not supported: the characters after the `=`
/// start the next attribute name instead, which then swallows the `>`.
#[test]
fn unquoted_value_not_supported() {
    let tokens = tokenize("<a x=5>").unwrap();
    assert_eq!(
        tokens,
        vec![Token::OpenTag(
            String::from("a"),
            vec![attr("x", ""), attr("5>", "")]
        )]
    );
}

/// Duplicate attribute names are legal and both occurrences are kept,
/// in order.
#[test]
fn duplicate_attribute_names_kept() {
    let tokens = tokenize("<a x=\"1\" x=\"2\">").unwrap();
    assert_eq!(
        tokens,
        vec![Token::OpenTag(
            String::from("a"),
            vec![attr("x", "1"), attr("x", "2")]
        )]
    );
}

/// An open tag never closed by a `>` consumes to the end of the input
/// without an error: a documented leniency.
#[test]
fn unterminated_open_tag_accepted() {
    let tokens = tokenize("<a class=\"c\"").unwrap();
    assert_eq!(
        tokens,
        vec![Token::OpenTag(String::from("a"), vec![attr("class", "c")])]
    );
}
