//! The element model: the tree node produced by parsing and its
//! attribute pairs, together with their mathematical views, and the
//! whole-document parse entry point.

use crate::parser::{parse_tokens, spec_parse_tokens, Parse};
use crate::tokenizer::{token_views, tokenize, HtmlParseError};
use vstd::prelude::*;

verus! {

broadcast use vstd::std_specs::vec::axiom_vec_decreases_to_view, vstd::seq::axiom_seq_index_decreases;

/// One node of the parsed tree: either a markup element with a tag name,
/// attributes and children, or (by convention) a text run, marked by the
/// tag name `#text` and carrying its text in a single `content` attribute.
#[derive(Debug, PartialEq, Eq)]
pub struct HtmlElement {
    pub tag_name: String,
    pub attributes: Vec<HtmlAttribute>,
    pub children: Vec<HtmlElement>,
}

/// A name/value pair attached to an element.  Names are kept in document
/// order and need not be unique; duplicates are retained.
#[derive(Debug, PartialEq, Eq)]
pub struct HtmlAttribute {
    pub name: String,
    pub value: String,
}

/// The mathematical value of an [`HtmlAttribute`]: both texts as
/// character sequences.
#[verifier::ext_equal]
pub ghost struct AttrView {
    pub name: Seq<char>,
    pub value: Seq<char>,
}

/// The mathematical value of an [`HtmlElement`]: the tag name as a
/// character sequence, and the attribute and child lists as sequences of
/// their own views.
#[verifier::ext_equal]
pub ghost struct ElemView {
    pub tag_name: Seq<char>,
    pub attributes: Seq<AttrView>,
    pub children: Seq<ElemView>,
}

impl View for HtmlAttribute {
    type V = AttrView;

    open spec fn view(&self) -> AttrView {
        AttrView { name: self.name@, value: self.value@ }
    }
}

/// The views of a sequence of attributes, in order.
pub open spec fn attr_views(attrs: Seq<HtmlAttribute>) -> Seq<AttrView> {
    Seq::new(attrs.len(), |k: int| attrs[k]@)
}

/// The mathematical value of one element: tag name, attribute views and
/// child views.
pub open spec fn elem_view(e: HtmlElement) -> ElemView
    decreases e,
{
    ElemView {
        tag_name: e.tag_name@,
        attributes: attr_views(e.attributes@),
        children: elem_views(e.children@),
    }
}

/// The views of a sequence of elements, in order.
pub open spec fn elem_views(elems: Seq<HtmlElement>) -> Seq<ElemView>
    decreases elems,
{
    if elems.len() == 0 {
        Seq::empty()
    } else {
        seq![elem_view(elems[0])] + elem_views(elems.subrange(1, elems.len() as int))
    }
}

impl View for HtmlElement {
    type V = ElemView;

    open spec fn view(&self) -> ElemView {
        elem_view(*self)
    }
}

/// Each position of `elem_views` is the view of the element at that
/// position.
pub proof fn lemma_elem_views_index(elems: Seq<HtmlElement>, k: int)
    requires
        0 <= k < elems.len(),
    ensures
        elem_views(elems).len() == elems.len(),
        elem_views(elems)[k] == elems[k]@,
    decreases elems.len(),
{
    if k > 0 {
        lemma_elem_views_index(elems.subrange(1, elems.len() as int), k - 1);
    } else {
        lemma_elem_views_len(elems);
    }
}

/// `elem_views` keeps the length of the sequence.
pub proof fn lemma_elem_views_len(elems: Seq<HtmlElement>)
    ensures
        elem_views(elems).len() == elems.len(),
    decreases elems.len(),
{
    if elems.len() > 0 {
        lemma_elem_views_len(elems.subrange(1, elems.len() as int));
    }
}

/// Appending one element to a sequence appends its view to the views.
pub proof fn lemma_elem_views_push(elems: Seq<HtmlElement>, e: HtmlElement)
    ensures
        elem_views(elems.push(e)) =~= elem_views(elems).push(elem_view(e)),
    decreases elems.len(),
{
    if elems.len() == 0 {
        assert(elems.push(e).subrange(1, elems.push(e).len() as int) =~= Seq::<
            HtmlElement,
        >::empty());
        lemma_elem_views_len(elems.push(e));
        lemma_elem_views_index(elems.push(e), 0);
    } else {
        assert(elems.push(e).subrange(1, elems.push(e).len() as int) =~= elems.subrange(
            1,
            elems.len() as int,
        ).push(e));
        lemma_elem_views_push(elems.subrange(1, elems.len() as int), e);
        lemma_elem_views_len(elems);
    }
}

impl Clone for HtmlAttribute {
    /// A clone is equal to the original, field for field.
    fn clone(&self) -> (r: Self)
        ensures
            r == *self,
    {
        HtmlAttribute { name: self.name.clone(), value: self.value.clone() }
    }
}

impl Parse for HtmlElement {
    /// Tokenizes the input, builds the tree under a synthetic root with
    /// the empty tag name, and returns the last top-level element; a
    /// document with none at all is the `EmptyDocument` error.
    fn parse(input: &str) -> (r: Result<HtmlElement, HtmlParseError>) {
        let tokens = match tokenize(input) {
            Ok(t) => t,
            Err(e) => {
                return Err(e);
            },
        };
        let mut root = HtmlElement {
            tag_name: String::new(),
            attributes: Vec::new(),
            children: Vec::new(),
        };
        let mut pos: usize = 0;
        proof {
            assert(root@.tag_name =~= Seq::<char>::empty());
            assert(root@.children =~= Seq::<ElemView>::empty());
        }
        match parse_tokens(&tokens, &mut pos, &mut root) {
            Ok(_) => {},
            Err(e) => {
                return Err(e);
            },
        }
        let ghost kids = root.children@;
        proof {
            let ts = token_views(tokens@);
            let res = spec_parse_tokens(ts, 0, Seq::empty())->Ok_0;
            assert(elem_views(kids) =~= res.0);
            lemma_elem_views_len(kids);
            if kids.len() > 0 {
                lemma_elem_views_index(kids, kids.len() - 1);
            }
        }
        match root.children.pop() {
            Some(element) => Ok(element),
            None => Err(HtmlParseError::EmptyDocument),
        }
    }
}

} // verus!
