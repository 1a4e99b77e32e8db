use html_parser::html_element::HtmlElement;
use html_parser::parser::Parse;
use html_parser::tokenizer::HtmlParseError;

/// A well-formed nested document parses to the expected tree: root `a`,
/// one child `b`, whose one child is a `#text` node carrying `x`.
#[test]
fn round_trip_structure() {
    let root = HtmlElement::parse("<a><b>x</b></a>").unwrap();
    assert_eq!(root.tag_name, "a");
    assert_eq!(root.attributes.len(), 0);
    assert_eq!(root.children.len(), 1);
    let b = &root.children[0];
    assert_eq!(b.tag_name, "b");
    assert_eq!(b.children.len(), 1);
    let text = &b.children[0];
    assert_eq!(text.tag_name, "#text");
    assert_eq!(text.children.len(), 0);
    assert_eq!(text.attributes.len(), 1);
    assert_eq!(text.attributes[0].name, "content");
    assert_eq!(text.attributes[0].value, "x");
}

/// An element with no content between its tags has zero children.
#[test]
fn empty_element() {
    let root = HtmlElement::parse("<div class=\"container\"></div>").unwrap();
    assert_eq!(root.tag_name, "div");
    assert_eq!(root.children.len(), 0);
    assert_eq!(root.attributes.len(), 1);
    assert_eq!(root.attributes[0].name, "class");
    assert_eq!(root.attributes[0].value, "container");
}

/// A paragraph nested in a division keeps its nesting: div holds p,
/// which holds the text run.
#[test]
fn sibling_text_and_elements() {
    let root = HtmlElement::parse("<div><p>Hello, world!</p></div>").unwrap();
    assert_eq!(root.tag_name, "div");
    assert_eq!(root.children.len(), 1);
    let p = &root.children[0];
    assert_eq!(p.tag_name, "p");
    assert_eq!(p.children.len(), 1);
    let text = &p.children[0];
    assert_eq!(text.tag_name, "#text");
    assert_eq!(text.attributes[0].name, "content");
    assert_eq!(text.attributes[0].value, "Hello, world!");
}

/// A close tag naming anything but the innermost open element fails
/// with that pair of names: the inner `b` is still open when `</a>`
/// appears.
#[test]
fn mismatched_close_tag() {
    let err = HtmlElement::parse("<a><b></a>").unwrap_err();
    assert_eq!(
        err,
        HtmlParseError::MismatchedTag { expected: String::from("b"), found: String::from("a") }
    );
}

/// Unclosed tags are accepted silently: the partial nesting built so
/// far is returned.
#[test]
fn unclosed_tags_accepted() {
    let root = HtmlElement::parse("<a><b>text").unwrap();
    assert_eq!(root.tag_name, "a");
    assert_eq!(root.children.len(), 1);
    let b = &root.children[0];
    assert_eq!(b.tag_name, "b");
    assert_eq!(b.children.len(), 1);
    let text = &b.children[0];
    assert_eq!(text.tag_name, "#text");
    assert_eq!(text.attributes[0].value, "text");
}

/// Parsing the same input twice yields structurally equal trees.
#[test]
fn reparse_idempotent() {
    let input = "<div class=\"c\"><p>one</p><p>two</p></div>";
    let first = HtmlElement::parse(input).unwrap();
    let second = HtmlElement::parse(input).unwrap();
    assert_eq!(first, second);
}

/// An empty input produces no top-level element and must report that,
/// never crash.
#[test]
fn empty_input_empty_document() {
    let err = HtmlElement::parse("").unwrap_err();
    assert_eq!(err, HtmlParseError::EmptyDocument);
}

/// Input that tokenizes to nothing at all (a lone stray `>`) also
/// reports an empty document.
#[test]
fn stray_gt_only_empty_document() {
    let err = HtmlElement::parse(">").unwrap_err();
    assert_eq!(err, HtmlParseError::EmptyDocument);
}

/// With several top-level siblings, the last one is the element
/// returned: the synthetic root collects them all and the facade pops
/// the final child.
#[test]
fn last_top_level_element_returned() {
    let root = HtmlElement::parse("<a></a><b></b>").unwrap();
    assert_eq!(root.tag_name, "b");
    assert_eq!(root.children.len(), 0);
}

/// Attributes survive parsing unchanged: in document order, values
/// unquoted and trimmed, under either quote character.
#[test]
fn attribute_preservation_through_parse() {
    let root = HtmlElement::parse("<div class=\"container\" id='x'>").unwrap();
    assert_eq!(root.tag_name, "div");
    assert_eq!(root.attributes.len(), 2);
    assert_eq!(root.attributes[0].name, "class");
    assert_eq!(root.attributes[0].value, "container");
    assert_eq!(root.attributes[1].name, "id");
    assert_eq!(root.attributes[1].value, "x");
}

/// A tokenizer error surfaces through the facade unchanged.
#[test]
fn parse_propagates_tokenizer_error() {
    let err = HtmlElement::parse("abc<").unwrap_err();
    assert_eq!(err, HtmlParseError::UnexpectedEndOfInput);
}

/// A close tag naming the synthetic root (empty name) ends the parse
/// early: everything after it is ignored.
#[test]
fn close_of_synthetic_root_stops_parse() {
    let root = HtmlElement::parse("<a></a></><b></b>").unwrap();
    assert_eq!(root.tag_name, "a");
}
