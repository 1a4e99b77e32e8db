//! The tokenizer: a single left-to-right scan with one character of
//! lookahead that turns the raw character stream into a flat sequence of
//! tokens (text run, open tag, close tag).
//!
//! The scan is specified by recursive functions over the input character
//! sequence, indexed by the current position; the executable functions
//! are proved to return exactly what those specifications describe.

use crate::html_element::{attr_views, AttrView, HtmlAttribute};
use vstd::prelude::*;

verus! {

/// One lexical unit of the input: a text run, an open tag with its
/// attributes, or a close tag.
#[derive(Debug, PartialEq, Eq)]
pub enum Token {
    Text(String),
    OpenTag(String, Vec<HtmlAttribute>),
    CloseTag(String),
}

/// The mathematical value of a [`Token`].
#[verifier::ext_equal]
pub ghost enum TokenView {
    Text(Seq<char>),
    OpenTag(Seq<char>, Seq<AttrView>),
    CloseTag(Seq<char>),
}

impl View for Token {
    type V = TokenView;

    open spec fn view(&self) -> TokenView {
        match self {
            Token::Text(content) => TokenView::Text(content@),
            Token::OpenTag(name, attrs) => TokenView::OpenTag(name@, attr_views(attrs@)),
            Token::CloseTag(name) => TokenView::CloseTag(name@),
        }
    }
}

/// The views of a sequence of tokens, in order.
pub open spec fn token_views(tokens: Seq<Token>) -> Seq<TokenView> {
    Seq::new(tokens.len(), |k: int| tokens[k]@)
}

/// A failure of the pipeline.  Every error is fail-fast: no partial tree
/// is returned once one is raised.
#[derive(Debug, PartialEq, Eq)]
pub enum HtmlParseError {
    /// A token appeared where none of the other kinds apply.  Defensive:
    /// the current tree builder cannot produce it.
    UnexpectedToken(Token),
    /// A tag was opened by a `<` that is the last character of the input.
    UnexpectedEndOfInput,
    /// A close tag's name did not match the currently open element's name.
    MismatchedTag { expected: String, found: String },
    /// The document produced no top-level element at all.
    EmptyDocument,
}

/// The mathematical value of an [`HtmlParseError`].
#[verifier::ext_equal]
pub ghost enum ParseErrView {
    UnexpectedToken(TokenView),
    UnexpectedEndOfInput,
    MismatchedTag { expected: Seq<char>, found: Seq<char> },
    EmptyDocument,
}

impl View for HtmlParseError {
    type V = ParseErrView;

    open spec fn view(&self) -> ParseErrView {
        match self {
            HtmlParseError::UnexpectedToken(t) => ParseErrView::UnexpectedToken(t@),
            HtmlParseError::UnexpectedEndOfInput => ParseErrView::UnexpectedEndOfInput,
            HtmlParseError::MismatchedTag { expected, found } => ParseErrView::MismatchedTag {
                expected: expected@,
                found: found@,
            },
            HtmlParseError::EmptyDocument => ParseErrView::EmptyDocument,
        }
    }
}

/// Relies on `String::push`: appends the given character to the end of
/// the string.
pub assume_specification[ String::push ](s: &mut String, c: char)
    ensures
        final(s)@ == old(s)@.push(c),
;

/// Whether `c` has the Unicode `White_Space` property, written out as
/// the explicit list of such code points.
pub open spec fn is_whitespace(c: char) -> bool {
    ||| c == ' '
    ||| c == '\t'
    ||| c == '\n'
    ||| c == '\u{0B}'
    ||| c == '\u{0C}'
    ||| c == '\r'
    ||| c == '\u{85}'
    ||| c == '\u{A0}'
    ||| c == '\u{1680}'
    ||| (0x2000 <= c as u32 && c as u32 <= 0x200A)
    ||| c == '\u{2028}'
    ||| c == '\u{2029}'
    ||| c == '\u{202F}'
    ||| c == '\u{205F}'
    ||| c == '\u{3000}'
}

/// Decides [`is_whitespace`].
fn is_whitespace_char(c: char) -> (r: bool)
    ensures
        r == is_whitespace(c),
{
    c == ' ' || c == '\t' || c == '\n' || c == '\u{0B}' || c == '\u{0C}' || c == '\r' || c
        == '\u{85}' || c == '\u{A0}' || c == '\u{1680}' || (0x2000 <= c as u32 && c as u32
        <= 0x200A) || c == '\u{2028}' || c == '\u{2029}' || c == '\u{202F}' || c == '\u{205F}' || c
        == '\u{3000}'
}

/// The least position at or after `i` holding a non-whitespace
/// character, or the length if there is none.
pub open spec fn first_non_ws(s: Seq<char>, i: int) -> int
    decreases s.len() - i,
    when 0 <= i <= s.len()
{
    if i == s.len() {
        i
    } else if is_whitespace(s[i]) {
        first_non_ws(s, i + 1)
    } else {
        i
    }
}

/// One past the greatest position below `i` holding a non-whitespace
/// character, or zero if there is none.
pub open spec fn last_non_ws_end(s: Seq<char>, i: int) -> int
    decreases i,
    when 0 <= i <= s.len()
{
    if i == 0 {
        0
    } else if is_whitespace(s[i - 1]) {
        last_non_ws_end(s, i - 1)
    } else {
        i
    }
}

/// `s` with leading and trailing whitespace removed.
pub open spec fn spec_trim(s: Seq<char>) -> Seq<char> {
    let lo = first_non_ws(s, 0);
    let hi = last_non_ws_end(s, s.len() as int);
    if lo <= hi {
        s.subrange(lo, hi)
    } else {
        Seq::empty()
    }
}

/// The characters of `s`, one by one, as a vector.
fn chars_of(s: &str) -> (v: Vec<char>)
    ensures
        v@ == s@,
{
    let n = s.unicode_len();
    let mut v: Vec<char> = Vec::new();
    let mut i: usize = 0;
    while i < n
        invariant
            n == s@.len(),
            i <= n,
            v@ =~= s@.subrange(0, i as int),
        decreases n - i,
    {
        v.push(s.get_char(i));
        i = i + 1;
    }
    assert(v@ =~= s@);
    v
}

/// The string holding exactly the characters of `v`, in order.
fn string_from_chars(v: &Vec<char>) -> (s: String)
    ensures
        s@ == v@,
{
    let mut s = String::new();
    let mut i: usize = 0;
    while i < v.len()
        invariant
            i <= v@.len(),
            s@ =~= v@.subrange(0, i as int),
        decreases v@.len() - i,
    {
        s.push(v[i]);
        i = i + 1;
    }
    assert(s@ =~= v@);
    s
}

/// `v` with leading and trailing whitespace removed.
fn trim_chars(v: &Vec<char>) -> (r: Vec<char>)
    ensures
        r@ == spec_trim(v@),
{
    let ghost s = v@;
    let mut lo: usize = 0;
    while lo < v.len() && is_whitespace_char(v[lo])
        invariant
            0 <= lo <= s.len(),
            v@ == s,
            first_non_ws(s, 0) == first_non_ws(s, lo as int),
        decreases s.len() - lo,
    {
        lo = lo + 1;
    }
    assert(first_non_ws(s, 0) == lo);
    let mut hi: usize = v.len();
    while hi > 0 && is_whitespace_char(v[hi - 1])
        invariant
            0 <= hi <= s.len(),
            v@ == s,
            last_non_ws_end(s, s.len() as int) == last_non_ws_end(s, hi as int),
        decreases hi,
    {
        hi = hi - 1;
    }
    assert(last_non_ws_end(s, s.len() as int) == hi);
    if lo > hi {
        return Vec::new();
    }
    let mut r: Vec<char> = Vec::new();
    let mut k: usize = lo;
    while k < hi
        invariant
            lo <= k <= hi <= s.len(),
            v@ == s,
            r@ =~= s.subrange(lo as int, k as int),
        decreases hi - k,
    {
        r.push(v[k]);
        k = k + 1;
    }
    assert(r@ =~= s.subrange(lo as int, hi as int));
    r
}

/// Whether `c` ends a tag name: a space, the end of the tag, or a slash.
pub open spec fn is_name_stop(c: char) -> bool {
    c == ' ' || c == '>' || c == '/'
}

/// The least position at or after `i` holding a name-stopping character,
/// or the length if there is none.  The tag name starting at `i` runs up
/// to this position.
pub open spec fn scan_name_end(s: Seq<char>, i: int) -> int
    decreases s.len() - i,
    when 0 <= i <= s.len()
{
    if i == s.len() {
        i
    } else if is_name_stop(s[i]) {
        i
    } else {
        scan_name_end(s, i + 1)
    }
}

/// The end of a tag name lies between its start and the end of input.
pub proof fn lemma_scan_name_end_bounds(s: Seq<char>, i: int)
    requires
        0 <= i <= s.len(),
    ensures
        i <= scan_name_end(s, i) <= s.len(),
    decreases s.len() - i,
{
    if i < s.len() && !is_name_stop(s[i]) {
        lemma_scan_name_end_bounds(s, i + 1);
    }
}

/// The least position at or after `i` holding `=`, or the length if
/// there is none.  The attribute name starting at `i` runs up to this
/// position.
pub open spec fn attr_name_end(s: Seq<char>, i: int) -> int
    decreases s.len() - i,
    when 0 <= i <= s.len()
{
    if i == s.len() {
        i
    } else if s[i] == '=' {
        i
    } else {
        attr_name_end(s, i + 1)
    }
}

/// The end of an attribute name lies between its start and the end of
/// input.
pub proof fn lemma_attr_name_end_bounds(s: Seq<char>, i: int)
    requires
        0 <= i <= s.len(),
    ensures
        i <= attr_name_end(s, i) <= s.len(),
    decreases s.len() - i,
{
    if i < s.len() && s[i] != '=' {
        lemma_attr_name_end_bounds(s, i + 1);
    }
}

/// The non-whitespace characters between `i` and the `=` (or the end of
/// input), in order: whitespace is skipped while an attribute name is
/// accumulated.
pub open spec fn attr_name_chars(s: Seq<char>, i: int) -> Seq<char>
    decreases s.len() - i,
    when 0 <= i <= s.len()
{
    if i == s.len() || s[i] == '=' {
        Seq::empty()
    } else if is_whitespace(s[i]) {
        attr_name_chars(s, i + 1)
    } else {
        seq![s[i]] + attr_name_chars(s, i + 1)
    }
}

/// The least position at or after `i` holding the quote character `q`,
/// or the length if there is none.  A quoted attribute value runs up to
/// this position.
pub open spec fn quote_end(s: Seq<char>, i: int, q: char) -> int
    decreases s.len() - i,
    when 0 <= i <= s.len()
{
    if i == s.len() {
        i
    } else if s[i] == q {
        i
    } else {
        quote_end(s, i + 1, q)
    }
}

/// The end of a quoted value lies between its start and the end of
/// input.
pub proof fn lemma_quote_end_bounds(s: Seq<char>, i: int, q: char)
    requires
        0 <= i <= s.len(),
    ensures
        i <= quote_end(s, i, q) <= s.len(),
    decreases s.len() - i,
{
    if i < s.len() && s[i] != q {
        lemma_quote_end_bounds(s, i + 1, q);
    }
}

/// One attribute read from position `i`: its trimmed name and value,
/// and the position just after it.  The name runs up to the `=`; if a
/// quote follows the `=`, the value runs up to the matching quote,
/// otherwise it stays empty.
pub open spec fn spec_attr(s: Seq<char>, i: int) -> (AttrView, int) {
    let ne = attr_name_end(s, i);
    let name = spec_trim(attr_name_chars(s, i));
    let p = if ne < s.len() {
        ne + 1
    } else {
        ne
    };
    if p < s.len() && (s[p] == '"' || s[p] == '\'') {
        let q = s[p];
        let ve = quote_end(s, p + 1, q);
        let value = spec_trim(s.subrange(p + 1, ve));
        let j = if ve < s.len() {
            ve + 1
        } else {
            ve
        };
        (AttrView { name, value }, j)
    } else {
        (AttrView { name, value: Seq::empty() }, p)
    }
}

/// Reading an attribute consumes at least one character and never runs
/// past the end of input.
pub proof fn lemma_spec_attr_advances(s: Seq<char>, i: int)
    requires
        0 <= i < s.len(),
    ensures
        i + 1 <= spec_attr(s, i).1 <= s.len(),
{
    lemma_attr_name_end_bounds(s, i);
    let ne = attr_name_end(s, i);
    let p = if ne < s.len() {
        ne + 1
    } else {
        ne
    };
    if p < s.len() && (s[p] == '"' || s[p] == '\'') {
        lemma_quote_end_bounds(s, p + 1, s[p]);
    }
}

/// The attributes of an open tag read from position `i`, and the
/// position just after the closing `>` (or the end of input if the tag
/// is never closed).  Spaces between attributes are skipped; any other
/// character starts an attribute.
pub open spec fn open_tag_attrs(s: Seq<char>, i: int) -> (Seq<AttrView>, int)
    decreases s.len() - i,
    when 0 <= i <= s.len()
{
    if i == s.len() {
        (Seq::empty(), i)
    } else if s[i] == '>' {
        (Seq::empty(), i + 1)
    } else if s[i] == ' ' {
        open_tag_attrs(s, i + 1)
    } else {
        proof {
            lemma_spec_attr_advances(s, i);
        }
        let aj = spec_attr(s, i);
        let rest = open_tag_attrs(s, aj.1);
        (seq![aj.0] + rest.0, rest.1)
    }
}

/// Reading an open tag's attributes never moves backwards and never
/// runs past the end of input.
pub proof fn lemma_open_tag_attrs_bounds(s: Seq<char>, i: int)
    requires
        0 <= i <= s.len(),
    ensures
        i <= open_tag_attrs(s, i).1 <= s.len(),
    decreases s.len() - i,
{
    if i < s.len() {
        if s[i] == ' ' {
            lemma_open_tag_attrs_bounds(s, i + 1);
        } else if s[i] != '>' {
            lemma_spec_attr_advances(s, i);
            lemma_open_tag_attrs_bounds(s, spec_attr(s, i).1);
        }
    }
}

/// An open tag read from position `i` (just after the `<`): its name,
/// its attributes, and the position just after the closing `>` (or the
/// end of input if the tag is never closed).
pub open spec fn spec_open_tag(s: Seq<char>, i: int) -> (Seq<char>, Seq<AttrView>, int) {
    let ne = scan_name_end(s, i);
    let name = s.subrange(i, ne);
    let ar = open_tag_attrs(s, ne);
    (name, ar.0, ar.1)
}

/// Reading an open tag never moves backwards and never runs past the
/// end of input.
pub proof fn lemma_spec_open_tag_bounds(s: Seq<char>, i: int)
    requires
        0 <= i <= s.len(),
    ensures
        i <= spec_open_tag(s, i).2 <= s.len(),
        i <= scan_name_end(s, i) <= s.len(),
{
    lemma_scan_name_end_bounds(s, i);
    lemma_open_tag_attrs_bounds(s, scan_name_end(s, i));
}

/// Decides [`is_name_stop`].
fn is_name_stop_char(c: char) -> (r: bool)
    ensures
        r == is_name_stop(c),
{
    c == ' ' || c == '>' || c == '/'
}

/// Reads a tag name: consumes characters starting at `*pos` until a
/// space, `>` or `/` (left unconsumed) or the end of input, and returns
/// them.
fn extract_tag_name(chars: &Vec<char>, pos: &mut usize) -> (name: String)
    requires
        *old(pos) <= chars@.len(),
    ensures
        *final(pos) == scan_name_end(chars@, *old(pos) as int),
        name@ == chars@.subrange(*old(pos) as int, scan_name_end(chars@, *old(pos) as int)),
{
    let ghost s = chars@;
    let ghost i0 = *pos as int;
    let mut buf: Vec<char> = Vec::new();
    let mut i: usize = *pos;
    while i < chars.len() && !is_name_stop_char(chars[i])
        invariant
            0 <= i0 <= i as int <= s.len(),
            chars@ == s,
            scan_name_end(s, i0) == scan_name_end(s, i as int),
            buf@ =~= s.subrange(i0, i as int),
        decreases s.len() - i,
    {
        buf.push(chars[i]);
        i = i + 1;
    }
    assert(scan_name_end(s, i0) == i as int);
    *pos = i;
    string_from_chars(&buf)
}

/// Reads one attribute starting at `*pos`: the name up to the `=`
/// (whitespace skipped), then, if a quote follows, the value up to the
/// matching quote; both are trimmed.  Leaves `*pos` just after the
/// attribute.
fn extract_attribute(chars: &Vec<char>, pos: &mut usize) -> (attr: HtmlAttribute)
    requires
        *old(pos) <= chars@.len(),
    ensures
        attr@ == spec_attr(chars@, *old(pos) as int).0,
        *final(pos) == spec_attr(chars@, *old(pos) as int).1,
{
    let ghost s = chars@;
    let ghost i0 = *pos as int;
    let mut name: Vec<char> = Vec::new();
    let mut i: usize = *pos;
    while i < chars.len() && chars[i] != '='
        invariant
            0 <= i0 <= i as int <= s.len(),
            chars@ == s,
            attr_name_end(s, i0) == attr_name_end(s, i as int),
            attr_name_chars(s, i0) =~= name@ + attr_name_chars(s, i as int),
        decreases s.len() - i,
    {
        let c = chars[i];
        if !is_whitespace_char(c) {
            proof {
                assert(attr_name_chars(s, i as int) =~= seq![s[i as int]] + attr_name_chars(
                    s,
                    i as int + 1,
                ));
                assert(name@ + (seq![s[i as int]] + attr_name_chars(s, i as int + 1)) =~= name@.push(
                    s[i as int],
                ) + attr_name_chars(s, i as int + 1));
            }
            name.push(c);
        }
        i = i + 1;
    }
    assert(attr_name_end(s, i0) == i as int);
    assert(attr_name_chars(s, i0) =~= name@);
    if i < chars.len() {
        i = i + 1;  // consume the '='
    }
    let ghost p = i as int;
    let mut value: Vec<char> = Vec::new();
    if i < chars.len() {
        let q = chars[i];
        if q == '"' || q == '\'' {
            i = i + 1;  // consume the opening quote
            let ghost vstart = i as int;
            while i < chars.len() && chars[i] != q
                invariant
                    0 <= vstart <= i as int <= s.len(),
                    chars@ == s,
                    quote_end(s, vstart, q) == quote_end(s, i as int, q),
                    value@ =~= s.subrange(vstart, i as int),
                decreases s.len() - i,
            {
                value.push(chars[i]);
                i = i + 1;
            }
            assert(quote_end(s, vstart, q) == i as int);
            if i < chars.len() {
                i = i + 1;  // consume the closing quote
            }
        }
    }
    *pos = i;
    let name_t = trim_chars(&name);
    let value_t = trim_chars(&value);
    HtmlAttribute { name: string_from_chars(&name_t), value: string_from_chars(&value_t) }
}

/// Reads an open tag starting at `*pos` (just after the `<`): its name,
/// then its attributes until the closing `>` is consumed (or the input
/// ends).  Leaves `*pos` just after the `>`.
fn extract_open_tag_info(chars: &Vec<char>, pos: &mut usize) -> (r: (String, Vec<HtmlAttribute>))
    requires
        *old(pos) <= chars@.len(),
    ensures
        r.0@ == spec_open_tag(chars@, *old(pos) as int).0,
        attr_views(r.1@) == spec_open_tag(chars@, *old(pos) as int).1,
        *final(pos) == spec_open_tag(chars@, *old(pos) as int).2,
{
    let ghost s = chars@;
    let ghost i0 = *pos as int;
    let tag_name = extract_tag_name(chars, pos);
    let ghost ne = scan_name_end(s, i0);
    proof {
        lemma_scan_name_end_bounds(s, i0);
    }
    let mut attributes: Vec<HtmlAttribute> = Vec::new();
    let mut i: usize = *pos;
    while i < chars.len()
        invariant_except_break
            0 <= ne <= i as int <= s.len(),
            chars@ == s,
            open_tag_attrs(s, ne).0 =~= attr_views(attributes@) + open_tag_attrs(s, i as int).0,
            open_tag_attrs(s, ne).1 == open_tag_attrs(s, i as int).1,
        ensures
            attr_views(attributes@) =~= open_tag_attrs(s, ne).0,
            i as int == open_tag_attrs(s, ne).1,
            chars@ == s,
        decreases s.len() - i,
    {
        let c = chars[i];
        if c == '>' {
            i = i + 1;
            break ;
        } else if c == ' ' {
            i = i + 1;
        } else {
            proof {
                lemma_spec_attr_advances(s, i as int);
            }
            let ghost before = i as int;
            let attribute = extract_attribute(chars, &mut i);
            proof {
                assert(attr_views(attributes@.push(attribute)) =~= attr_views(
                    attributes@,
                ).push(attribute@));
                assert(attr_views(attributes@) + (seq![attribute@] + open_tag_attrs(
                    s,
                    i as int,
                ).0) =~= attr_views(attributes@).push(attribute@) + open_tag_attrs(s, i as int).0);
            }
            attributes.push(attribute);
        }
    }
    *pos = i;
    (tag_name, attributes)
}

/// `r` with the tokens `pre` put in front of its token sequence;
/// an error is passed through unchanged.
pub open spec fn with_prefix(pre: Seq<TokenView>, r: Result<Seq<TokenView>, ParseErrView>) -> Result<
    Seq<TokenView>,
    ParseErrView,
> {
    match r {
        Ok(ts) => Ok(pre + ts),
        Err(e) => Err(e),
    }
}

/// Prefixing twice is prefixing with the concatenation.
pub proof fn lemma_with_prefix_assoc(
    a: Seq<TokenView>,
    b: Seq<TokenView>,
    r: Result<Seq<TokenView>, ParseErrView>,
)
    ensures
        with_prefix(a, with_prefix(b, r)) == with_prefix(a + b, r),
{
    match r {
        Ok(ts) => {
            assert(a + (b + ts) =~= (a + b) + ts);
        },
        Err(_) => {},
    }
}

/// The tokens of `s` from position `i` on, given the text accumulated
/// so far in `buf`.  On `<` the buffer is flushed as a text token and
/// the tag after it is read (a close tag after `/`, otherwise an open
/// tag); a `<` that ends the input is the one tokenizer error; a bare
/// `>` is dropped; any other character joins the buffer, which is
/// flushed once more at the end of input.
pub open spec fn spec_tokenize_from(s: Seq<char>, i: int, buf: Seq<char>) -> Result<
    Seq<TokenView>,
    ParseErrView,
>
    decreases s.len() - i,
    when 0 <= i <= s.len()
{
    if i == s.len() {
        Ok(
            if buf.len() > 0 {
                seq![TokenView::Text(buf)]
            } else {
                Seq::empty()
            },
        )
    } else if s[i] == '<' {
        let flushed: Seq<TokenView> = if buf.len() > 0 {
            seq![TokenView::Text(buf)]
        } else {
            Seq::empty()
        };
        if i + 1 == s.len() {
            Err(ParseErrView::UnexpectedEndOfInput)
        } else if s[i + 1] == '/' {
            proof {
                lemma_scan_name_end_bounds(s, i + 2);
            }
            let ne = scan_name_end(s, i + 2);
            let name = s.subrange(i + 2, ne);
            with_prefix(
                flushed + seq![TokenView::CloseTag(name)],
                spec_tokenize_from(s, ne, Seq::empty()),
            )
        } else {
            proof {
                lemma_spec_open_tag_bounds(s, i + 1);
            }
            let ot = spec_open_tag(s, i + 1);
            with_prefix(
                flushed + seq![TokenView::OpenTag(ot.0, ot.1)],
                spec_tokenize_from(s, ot.2, Seq::empty()),
            )
        }
    } else if s[i] == '>' {
        spec_tokenize_from(s, i + 1, buf)
    } else {
        spec_tokenize_from(s, i + 1, buf.push(s[i]))
    }
}

/// The token sequence of the whole input, or the first error.
pub open spec fn spec_tokenize(s: Seq<char>) -> Result<Seq<TokenView>, ParseErrView> {
    spec_tokenize_from(s, 0, Seq::empty())
}

/// Whether the outcome `r` is exactly what [`spec_tokenize`] assigns to
/// the input `s`: the same tokens on success, the same error on
/// failure.
pub open spec fn tokenize_result_matches(
    s: Seq<char>,
    r: Result<Vec<Token>, HtmlParseError>,
) -> bool {
    match spec_tokenize(s) {
        Ok(ts) => match r {
            Ok(v) => token_views(v@) == ts,
            Err(_) => false,
        },
        Err(e) => match r {
            Ok(_) => false,
            Err(err) => err@ == e,
        },
    }
}

/// Scans the input once, left to right, and returns its tokens in
/// document order, or the first error: exactly the outcome that
/// [`spec_tokenize`] assigns to the input.
pub fn tokenize(input: &str) -> (r: Result<Vec<Token>, HtmlParseError>)
    ensures
        tokenize_result_matches(input@, r),
{
    let ghost s = input@;
    let chars = chars_of(input);
    let mut tokens: Vec<Token> = Vec::new();
    let mut buffer: Vec<char> = Vec::new();
    let mut i: usize = 0;
    proof {
        assert(token_views(tokens@) =~= Seq::<TokenView>::empty());
        match spec_tokenize_from(s, 0, Seq::<char>::empty()) {
            Ok(ts) => {
                assert(Seq::<TokenView>::empty() + ts =~= ts);
            },
            Err(_) => {},
        }
    }
    while i < chars.len()
        invariant
            0 <= i as int <= s.len(),
            chars@ == s,
            input@ == s,
            with_prefix(token_views(tokens@), spec_tokenize_from(s, i as int, buffer@))
                == spec_tokenize(s),
        decreases s.len() - i,
    {
        let c = chars[i];
        if c == '<' {
            let ghost buf0 = buffer@;
            let ghost toks0 = tokens@;
            let ghost flushed: Seq<TokenView> = if buf0.len() > 0 {
                seq![TokenView::Text(buf0)]
            } else {
                Seq::empty()
            };
            if !buffer.is_empty() {
                let text = string_from_chars(&buffer);
                tokens.push(Token::Text(text));
                buffer = Vec::new();
            }
            proof {
                assert(token_views(tokens@) =~= token_views(toks0) + flushed);
                assert(buffer@ =~= Seq::<char>::empty());
            }
            if i + 1 == chars.len() {
                return Err(HtmlParseError::UnexpectedEndOfInput);
            }
            if chars[i + 1] == '/' {
                let mut pos: usize = i + 2;
                let name = extract_tag_name(&chars, &mut pos);
                proof {
                    lemma_scan_name_end_bounds(s, i as int + 2);
                }
                let ghost head = flushed + seq![TokenView::CloseTag(name@)];
                tokens.push(Token::CloseTag(name));
                proof {
                    lemma_with_prefix_assoc(
                        token_views(toks0),
                        head,
                        spec_tokenize_from(s, pos as int, Seq::<char>::empty()),
                    );
                    assert(token_views(tokens@) =~= token_views(toks0) + head);
                }
                i = pos;
            } else {
                let mut pos: usize = i + 1;
                let (tag_name, attrs) = extract_open_tag_info(&chars, &mut pos);
                proof {
                    lemma_spec_open_tag_bounds(s, i as int + 1);
                }
                let ghost head = flushed + seq![
                    TokenView::OpenTag(tag_name@, attr_views(attrs@)),
                ];
                tokens.push(Token::OpenTag(tag_name, attrs));
                proof {
                    lemma_with_prefix_assoc(
                        token_views(toks0),
                        head,
                        spec_tokenize_from(s, pos as int, Seq::<char>::empty()),
                    );
                    assert(token_views(tokens@) =~= token_views(toks0) + head);
                }
                i = pos;
            }
        } else if c == '>' {
            i = i + 1;
        } else {
            buffer.push(c);
            i = i + 1;
        }
    }
    if !buffer.is_empty() {
        let ghost toks0 = tokens@;
        let text = string_from_chars(&buffer);
        tokens.push(Token::Text(text));
        proof {
            assert(token_views(tokens@) =~= token_views(toks0) + seq![
                TokenView::Text(buffer@),
            ]);
        }
    } else {
        proof {
            assert(token_views(tokens@) + Seq::<TokenView>::empty() =~= token_views(tokens@));
        }
    }
    Ok(tokens)
}

} // verus!
