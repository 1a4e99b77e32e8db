//! The tree builder: consumes the token sequence, one cursor threaded
//! through all recursion levels, and reconstructs the nested element
//! structure, checking that every close tag matches the element it
//! closes.

use crate::html_element::{
    attr_views, elem_view, elem_views, lemma_elem_views_index, lemma_elem_views_len,
    lemma_elem_views_push, AttrView, ElemView, HtmlAttribute, HtmlElement,
};
use crate::tokenizer::{
    spec_tokenize, token_views, tokenize, HtmlParseError, ParseErrView, Token, TokenView,
};
use vstd::prelude::*;
use vstd::string::StringExecFns;

verus! {

/// A whole-document parser: tokenizer and tree builder chained into a
/// single entry point.
pub trait Parse {
    /// Parses a whole markup document and returns its root element, or
    /// the first error met: exactly the outcome that [`spec_parse`]
    /// assigns to the input.
    fn parse(input: &str) -> (r: Result<HtmlElement, HtmlParseError>)
        ensures
            parse_result_matches(input@, r),
    ;
}

/// The view of the pseudo-element a text run becomes: tag name `#text`,
/// one attribute named `content` holding the text, no children.
pub open spec fn text_elem_view(content: Seq<char>) -> ElemView {
    ElemView {
        tag_name: "#text"@,
        attributes: seq![AttrView { name: "content"@, value: content }],
        children: Seq::empty(),
    }
}

/// The elements built from the tokens of `ts` from position `i` on,
/// for the open element named `parent_tag`, and the position just after
/// the close tag that ended this level (or the length, if the tokens
/// ran out first: an unclosed tag is accepted silently).  An open tag
/// descends one level; a close tag naming anything but `parent_tag` is
/// the one builder error.
///
/// The guard on the returned position after a descent never changes the
/// value — positions only move forward, which
/// [`lemma_spec_parse_tokens_bounds`] proves — it only makes that
/// evident to the termination check.
pub open spec fn spec_parse_tokens(
    ts: Seq<TokenView>,
    i: int,
    parent_tag: Seq<char>,
) -> Result<(Seq<ElemView>, int), ParseErrView>
    decreases ts.len() - i,
    when 0 <= i <= ts.len()
{
    if i == ts.len() {
        Ok((Seq::empty(), i))
    } else {
        match ts[i] {
            TokenView::OpenTag(name, attrs) => match spec_parse_tokens(ts, i + 1, name) {
                Ok(inner) => {
                    let j = if i + 1 <= inner.1 && inner.1 <= ts.len() {
                        inner.1
                    } else {
                        i + 1
                    };
                    match spec_parse_tokens(ts, j, parent_tag) {
                        Ok(rest) => Ok(
                            (
                                seq![
                                    ElemView {
                                        tag_name: name,
                                        attributes: attrs,
                                        children: inner.0,
                                    },
                                ] + rest.0,
                                rest.1,
                            ),
                        ),
                        Err(e) => Err(e),
                    }
                },
                Err(e) => Err(e),
            },
            TokenView::Text(content) => match spec_parse_tokens(ts, i + 1, parent_tag) {
                Ok(rest) => Ok((seq![text_elem_view(content)] + rest.0, rest.1)),
                Err(e) => Err(e),
            },
            TokenView::CloseTag(name) => if name == parent_tag {
                Ok((Seq::empty(), i + 1))
            } else {
                Err(ParseErrView::MismatchedTag { expected: parent_tag, found: name })
            },
        }
    }
}

/// Building never moves the cursor backwards and never runs past the
/// end of the tokens.
pub proof fn lemma_spec_parse_tokens_bounds(ts: Seq<TokenView>, i: int, parent_tag: Seq<char>)
    requires
        0 <= i <= ts.len(),
    ensures
        match spec_parse_tokens(ts, i, parent_tag) {
            Ok(res) => i <= res.1 <= ts.len(),
            Err(_) => true,
        },
    decreases ts.len() - i,
{
    if i < ts.len() {
        match ts[i] {
            TokenView::OpenTag(name, _attrs) => {
                lemma_spec_parse_tokens_bounds(ts, i + 1, name);
                match spec_parse_tokens(ts, i + 1, name) {
                    Ok(inner) => {
                        lemma_spec_parse_tokens_bounds(ts, inner.1, parent_tag);
                    },
                    Err(_) => {},
                }
            },
            TokenView::Text(_) => {
                lemma_spec_parse_tokens_bounds(ts, i + 1, parent_tag);
            },
            TokenView::CloseTag(_) => {},
        }
    }
}

/// A copy of an attribute list, equal to the original element for
/// element.
fn clone_attributes(attrs: &Vec<HtmlAttribute>) -> (r: Vec<HtmlAttribute>)
    ensures
        r@ == attrs@,
{
    let mut r: Vec<HtmlAttribute> = Vec::new();
    let mut k: usize = 0;
    while k < attrs.len()
        invariant
            k <= attrs@.len(),
            r@ =~= attrs@.subrange(0, k as int),
        decreases attrs@.len() - k,
    {
        r.push(attrs[k].clone());
        k = k + 1;
    }
    assert(r@ =~= attrs@);
    r
}

/// Walks the tokens from `*pos` on and appends the elements they
/// describe to `parent`'s children, descending one recursion level per
/// open tag, until the close tag of `parent` (or the end of the
/// tokens): exactly the outcome that [`spec_parse_tokens`] assigns.  On
/// an error, `parent`'s tag name and attributes are still unchanged.
#[verifier::loop_isolation(false)]
pub fn parse_tokens(tokens: &Vec<Token>, pos: &mut usize, parent: &mut HtmlElement) -> (r: Result<
    (),
    HtmlParseError,
>)
    requires
        *old(pos) <= tokens@.len(),
    ensures
        match spec_parse_tokens(token_views(tokens@), *old(pos) as int, old(parent)@.tag_name) {
            Ok(res) => {
                &&& r is Ok
                &&& *final(pos) == res.1
                &&& final(parent)@.tag_name == old(parent)@.tag_name
                &&& final(parent)@.attributes == old(parent)@.attributes
                &&& final(parent)@.children == old(parent)@.children + res.0
            },
            Err(e) => {
                &&& r matches Err(err) && err@ == e
                &&& final(parent)@.tag_name == old(parent)@.tag_name
                &&& final(parent)@.attributes == old(parent)@.attributes
            },
        },
    decreases tokens@.len() - *old(pos),
{
    let ghost ts = token_views(tokens@);
    let ghost i0 = *pos as int;
    let ghost ptag = old(parent)@.tag_name;
    let ghost pattrs = old(parent)@.attributes;
    let ghost ch0 = old(parent)@.children;
    let ghost mut built: Seq<ElemView> = Seq::empty();
    proof {
        assert(ch0 + built =~= ch0);
    }
    while *pos < tokens.len()
        invariant
            0 <= i0 <= *pos as int <= ts.len(),
            ts == token_views(tokens@),
            parent@.tag_name == ptag,
            parent@.attributes == pattrs,
            parent@.children == ch0 + built,
            match spec_parse_tokens(ts, *pos as int, ptag) {
                Ok(res) => spec_parse_tokens(ts, i0, ptag) == Ok::<_, ParseErrView>(
                    (built + res.0, res.1),
                ),
                Err(e) => spec_parse_tokens(ts, i0, ptag) == Err::<(Seq<ElemView>, int), _>(e),
            },
        decreases ts.len() - *pos,
    {
        let ghost p = *pos as int;
        let t = &tokens[*pos];
        proof {
            assert(ts[p] == tokens@[p]@);
        }
        *pos = *pos + 1;
        match t {
            Token::OpenTag(name, attrs) => {
                let mut element = HtmlElement {
                    tag_name: name.clone(),
                    attributes: clone_attributes(attrs),
                    children: Vec::new(),
                };
                proof {
                    assert(element@.children =~= Seq::<ElemView>::empty());
                    lemma_spec_parse_tokens_bounds(ts, p + 1, name@);
                }
                match parse_tokens(tokens, pos, &mut element) {
                    Ok(_) => {},
                    Err(e) => {
                        return Err(e);
                    },
                }
                proof {
                    let inner = spec_parse_tokens(ts, p + 1, name@)->Ok_0;
                    let elemv = ElemView {
                        tag_name: name@,
                        attributes: attr_views(attrs@),
                        children: inner.0,
                    };
                    assert(element@.children =~= inner.0);
                    assert(element@ =~~= elemv);
                    match spec_parse_tokens(ts, *pos as int, ptag) {
                        Ok(rest) => {
                            assert(built + (seq![elemv] + rest.0) =~= built.push(elemv) + rest.0);
                        },
                        Err(_) => {},
                    }
                    lemma_elem_views_push(parent.children@, element);
                    assert((ch0 + built).push(elemv) =~= ch0 + built.push(elemv));
                    built = built.push(elemv);
                }
                parent.children.push(element);
            },
            Token::Text(text) => {
                let mut text_attrs: Vec<HtmlAttribute> = Vec::new();
                text_attrs.push(
                    HtmlAttribute { name: String::from_str("content"), value: text.clone() },
                );
                let text_node = HtmlElement {
                    tag_name: String::from_str("#text"),
                    attributes: text_attrs,
                    children: Vec::new(),
                };
                proof {
                    let elemv = text_elem_view(text@);
                    assert(elem_view(text_node).attributes =~= elemv.attributes);
                    assert(elem_view(text_node).children =~= elemv.children);
                    assert(elem_view(text_node) =~~= elemv);
                    match spec_parse_tokens(ts, *pos as int, ptag) {
                        Ok(rest) => {
                            assert(built + (seq![elemv] + rest.0) =~= built.push(elemv) + rest.0);
                        },
                        Err(_) => {},
                    }
                    lemma_elem_views_push(parent.children@, text_node);
                    assert((ch0 + built).push(elemv) =~= ch0 + built.push(elemv));
                    built = built.push(elemv);
                }
                parent.children.push(text_node);
            },
            Token::CloseTag(name) => {
                if parent.tag_name == *name {
                    proof {
                        assert(built + Seq::<ElemView>::empty() =~= built);
                    }
                    return Ok(());
                } else {
                    return Err(
                        HtmlParseError::MismatchedTag {
                            expected: parent.tag_name.clone(),
                            found: name.clone(),
                        },
                    );
                }
            },
        }
    }
    proof {
        assert(built + Seq::<ElemView>::empty() =~= built);
    }
    Ok(())
}

/// The element a whole document parses to, or the first error: the
/// tokens are built under a synthetic root with the empty tag name, and
/// the last top-level element is the result.  A document with no
/// top-level element at all is the [`ParseErrView::EmptyDocument`]
/// error.
pub open spec fn spec_parse(s: Seq<char>) -> Result<ElemView, ParseErrView> {
    match spec_tokenize(s) {
        Err(e) => Err(e),
        Ok(ts) => match spec_parse_tokens(ts, 0, Seq::empty()) {
            Err(e) => Err(e),
            Ok(res) => if res.0.len() == 0 {
                Err(ParseErrView::EmptyDocument)
            } else {
                Ok(res.0.last())
            },
        },
    }
}

/// Whether the outcome `r` is exactly what [`spec_parse`] assigns to
/// the input `s`: the same element on success, the same error on
/// failure.
pub open spec fn parse_result_matches(
    s: Seq<char>,
    r: Result<HtmlElement, HtmlParseError>,
) -> bool {
    match spec_parse(s) {
        Ok(ev) => match r {
            Ok(e) => e@ == ev,
            Err(_) => false,
        },
        Err(pe) => match r {
            Ok(_) => false,
            Err(err) => err@ == pe,
        },
    }
}

/// Parsing the same input twice yields structurally equal outcomes: the
/// result is a function of the input characters alone, with no hidden
/// state of any kind.
pub proof fn lemma_parse_deterministic(
    s: Seq<char>,
    r1: Result<HtmlElement, HtmlParseError>,
    r2: Result<HtmlElement, HtmlParseError>,
)
    requires
        parse_result_matches(s, r1),
        parse_result_matches(s, r2),
    ensures
        match (r1, r2) {
            (Ok(e1), Ok(e2)) => e1@ == e2@,
            (Err(e1), Err(e2)) => e1@ == e2@,
            _ => false,
        },
{
}

} // verus!

