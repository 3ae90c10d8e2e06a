use vstd::prelude::*;
use crate::source::{same_text, skip_ws, skip_whitespace, lemma_skip_ws_bounds, ErrorKind, Failure, ParseError, Span};

verus! {

/// A tag or attribute name: a slice of the source, with where it stands.
#[derive(Debug)]
pub struct HtmlIdent<'a> {
    content: &'a [char],
    span: Span,
}

impl<'a> View for HtmlIdent<'a> {
    type V = Seq<char>;

    closed spec fn view(&self) -> Seq<char> {
        self.content@
    }
}

pub open spec fn is_ident_start(c: char) -> bool {
    ('a' <= c && c <= 'z') || ('A' <= c && c <= 'Z')
}

pub open spec fn is_ident_char(c: char) -> bool {
    is_ident_start(c) || ('0' <= c && c <= '9') || c == '-' || c == '_'
}

/// The end of the longest run of name characters that starts at `i`.
pub open spec fn ident_end(s: Seq<char>, i: int) -> int
    decreases s.len() - i,
{
    if 0 <= i < s.len() && is_ident_char(s[i]) {
        ident_end(s, i + 1)
    } else {
        i
    }
}

/// The identifier rule: after whitespace, a letter, then the longest run of
/// letters, digits, `-` and `_`. Yields the name and the position after it.
pub open spec fn spec_ident(s: Seq<char>, i: int) -> Result<(Seq<char>, int), Failure> {
    let p = skip_ws(s, i);
    if p < s.len() && is_ident_start(s[p]) {
        Ok((s.subrange(p, ident_end(s, p)), ident_end(s, p)))
    } else {
        Err(Failure { kind: ErrorKind::Mismatch, at: p })
    }
}

pub proof fn lemma_ident_end_bounds(s: Seq<char>, i: int)
    requires
        0 <= i <= s.len(),
    ensures
        i <= ident_end(s, i) <= s.len(),
        forall|k: int| i <= k < ident_end(s, i) ==> is_ident_char(#[trigger] s[k]),
    decreases s.len() - i,
{
    if i < s.len() && is_ident_char(s[i]) {
        lemma_ident_end_bounds(s, i + 1);
    }
}

/// A name never starts with whitespace, so a name found after whitespace
/// ends past where the rule started.
pub proof fn lemma_ident_advances(s: Seq<char>, i: int)
    requires
        0 <= i <= s.len(),
        spec_ident(s, i) is Ok,
    ensures
        i < spec_ident(s, i)->Ok_0.1 <= s.len(),
        skip_ws(s, i) < spec_ident(s, i)->Ok_0.1,
{
    lemma_skip_ws_bounds(s, i);
    lemma_ident_end_bounds(s, skip_ws(s, i));
    lemma_ident_end_bounds(s, skip_ws(s, i) + 1);
}

pub fn is_ident_start_char(c: char) -> (r: bool)
    ensures
        r == is_ident_start(c),
{
    ('a' <= c && c <= 'z') || ('A' <= c && c <= 'Z')
}

pub fn is_ident_char_exec(c: char) -> (r: bool)
    ensures
        r == is_ident_char(c),
{
    is_ident_start_char(c) || ('0' <= c && c <= '9') || c == '-' || c == '_'
}

impl<'a> HtmlIdent<'a> {
    /// Whether the text is `other`.
    pub fn content_eq(&self, other: &[char]) -> (r: bool)
        ensures
            r == (self@ == other@),
    {
        same_text(self.content(), other)
    }

    /// The name's text.
    pub fn content(&self) -> (r: &'a [char])
        ensures
            r@ == self@,
    {
        self.content
    }

    /// Where the name stands in the source.
    pub fn span(&self) -> (r: Span)
        ensures
            r == self.spec_span(),
    {
        self.span
    }

    pub closed spec fn spec_span(&self) -> Span {
        self.span
    }

    /// Reads a name at `pos`, skipping whitespace first. Fails with a mismatch
    /// where no letter starts the name, so that a caller may try another rule.
    pub fn parse(src: &'a [char], pos: usize) -> (r: Result<(HtmlIdent<'a>, usize), ParseError>)
        requires
            pos <= src@.len(),
        ensures
            match r {
                Ok((id, e)) => spec_ident(src@, pos as int) == Ok::<(Seq<char>, int), Failure>(
                    (id@, e as int),
                ) && id.spec_span() == (Span { start: skip_ws(src@, pos as int) as usize, end: e }),
                Err(err) => spec_ident(src@, pos as int) == Err::<(Seq<char>, int), Failure>(
                    err.failure(),
                ),
            },
    {
        let p = skip_whitespace(src, pos);
        if p >= src.len() || !is_ident_start_char(src[p]) {
            return Err(ParseError::new(ErrorKind::Mismatch, p, p, "expected a name"));
        }
        let mut e = p;
        while e < src.len() && is_ident_char_exec(src[e])
            invariant
                p <= e <= src@.len(),
                ident_end(src@, e as int) == ident_end(src@, p as int),
            decreases src@.len() - e,
        {
            e = e + 1;
        }
        let content = vstd::slice::slice_subrange(src, p, e);
        Ok((HtmlIdent { content, span: Span { start: p, end: e } }, e))
    }
}

} // verus!
