use std::borrow::Cow;
use vstd::prelude::*;
use crate::source::{same_text, push_run, skip_ws, skip_whitespace, lemma_skip_ws_bounds, ErrorKind, Failure, ParseError, Span};

verus! {

/// A quoted value whose entities are decoded. The text borrows from the
/// source until the first entity forces a copy.
#[derive(Debug)]
pub struct HtmlStrLit<'a> {
    content: Cow<'a, [char]>,
    span: Span,
}

/// A quoted value taken verbatim: `&` means nothing inside it.
#[derive(Debug)]
pub struct HtmlRawStrLit<'a> {
    content: Cow<'a, [char]>,
    span: Span,
}

impl<'a> View for HtmlStrLit<'a> {
    type V = Seq<char>;

    closed spec fn view(&self) -> Seq<char> {
        self.content@
    }
}

impl<'a> View for HtmlRawStrLit<'a> {
    type V = Seq<char>;

    closed spec fn view(&self) -> Seq<char> {
        self.content@
    }
}

/// The entity that follows the `&` at `i`: the character it stands for and
/// its length, `&` and `;` included.
pub open spec fn escape_at(s: Seq<char>, i: int) -> Option<(char, int)> {
    if i + 5 <= s.len() && s[i + 1] == 'a' && s[i + 2] == 'm' && s[i + 3] == 'p' && s[i + 4] == ';' {
        Some(('&', 5))
    } else if i + 4 <= s.len() && s[i + 1] == 'l' && s[i + 2] == 't' && s[i + 3] == ';' {
        Some(('<', 4))
    } else if i + 4 <= s.len() && s[i + 1] == 'g' && s[i + 2] == 't' && s[i + 3] == ';' {
        Some(('>', 4))
    } else if i + 5 <= s.len() && s[i + 1] == '#' && s[i + 2] == '3' && s[i + 3] == '9' && s[i
        + 4] == ';' {
        Some(('&', 5))
    } else if i + 6 <= s.len() && s[i + 1] == 'q' && s[i + 2] == 'u' && s[i + 3] == 'o' && s[i
        + 4] == 't' && s[i + 5] == ';' {
        Some(('"', 6))
    } else {
        None
    }
}

/// `acc` followed by what `r` decoded, or `r`'s failure.
pub open spec fn prepend(acc: Seq<char>, r: Result<(Seq<char>, int), Failure>) -> Result<
    (Seq<char>, int),
    Failure,
> {
    match r {
        Ok((d, e)) => Ok((acc + d, e)),
        Err(f) => Err(f),
    }
}

/// Decodes the inside of an escaped literal from `i` up to the closing quote:
/// the decoded text and the position of that quote. An `&` that starts no
/// known entity, and a missing closing quote, are hard failures.
pub open spec fn decode_from(s: Seq<char>, i: int) -> Result<(Seq<char>, int), Failure>
    decreases s.len() - i,
{
    if i < 0 || i >= s.len() {
        Err(Failure { kind: ErrorKind::Hard, at: i })
    } else if s[i] == '"' {
        Ok((Seq::empty(), i))
    } else if s[i] == '&' {
        match escape_at(s, i) {
            Some((c, n)) => if n > 0 { prepend(seq![c], decode_from(s, i + n)) } else {
                Err(Failure { kind: ErrorKind::Hard, at: i })
            },
            None => Err(Failure { kind: ErrorKind::Hard, at: i }),
        }
    } else {
        prepend(seq![s[i]], decode_from(s, i + 1))
    }
}

/// The escaped-literal rule: after whitespace a `"`, then the decoded inside,
/// then the closing `"`. Yields the text and the position after the literal.
pub open spec fn spec_str_lit(s: Seq<char>, i: int) -> Result<(Seq<char>, int), Failure> {
    let p = skip_ws(s, i);
    if p < s.len() && s[p] == '"' {
        match decode_from(s, p + 1) {
            Ok((d, e)) => Ok((d, e + 1)),
            Err(f) => Err(f),
        }
    } else {
        Err(Failure { kind: ErrorKind::Mismatch, at: p })
    }
}

/// The first position at or after `i` that holds a `"`, or the end.
pub open spec fn quote_end(s: Seq<char>, i: int) -> int
    decreases s.len() - i,
{
    if 0 <= i < s.len() && s[i] != '"' {
        quote_end(s, i + 1)
    } else {
        i
    }
}

/// The raw-literal rule: after whitespace a `"`, then everything up to the
/// next `"`, which is required.
pub open spec fn spec_raw_lit(s: Seq<char>, i: int) -> Result<(Seq<char>, int), Failure> {
    let p = skip_ws(s, i);
    if p < s.len() && s[p] == '"' {
        let e = quote_end(s, p + 1);
        if e < s.len() {
            Ok((s.subrange(p + 1, e), e + 1))
        } else {
            Err(Failure { kind: ErrorKind::Hard, at: e })
        }
    } else {
        Err(Failure { kind: ErrorKind::Mismatch, at: p })
    }
}

pub proof fn lemma_quote_end_bounds(s: Seq<char>, i: int)
    requires
        0 <= i <= s.len(),
    ensures
        i <= quote_end(s, i) <= s.len(),
        forall|k: int| i <= k < quote_end(s, i) ==> #[trigger] s[k] != '"',
    decreases s.len() - i,
{
    if i < s.len() && s[i] != '"' {
        lemma_quote_end_bounds(s, i + 1);
    }
}

/// Decoding ends at the closing quote, past where it began.
pub proof fn lemma_decode_bounds(s: Seq<char>, i: int)
    requires
        0 <= i,
        decode_from(s, i) is Ok,
    ensures
        i <= decode_from(s, i)->Ok_0.1 < s.len(),
        s[decode_from(s, i)->Ok_0.1] == '"',
    decreases s.len() - i,
{
    if s[i] != '"' {
        if s[i] == '&' {
            let (c, n) = escape_at(s, i)->Some_0;
            lemma_decode_bounds(s, i + n);
        } else {
            lemma_decode_bounds(s, i + 1);
        }
    }
}

/// Text without `&` decodes to itself: a literal whose inside holds no `&`
/// has exactly the characters between its quotes as its content.
pub proof fn lemma_decode_plain(s: Seq<char>, i: int, e: int)
    requires
        0 <= i <= e < s.len(),
        s[e] == '"',
        forall|k: int| i <= k < e ==> #[trigger] s[k] != '&' && s[k] != '"',
    ensures
        decode_from(s, i) == Ok::<(Seq<char>, int), Failure>((s.subrange(i, e), e)),
    decreases e - i,
{
    if i < e {
        lemma_decode_plain(s, i + 1, e);
        assert(seq![s[i]] + s.subrange(i + 1, e) =~= s.subrange(i, e));
    } else {
        assert(s.subrange(i, e) =~= Seq::<char>::empty());
    }
}

/// An escaped literal whose inside holds no `&` reads as exactly the
/// characters between its quotes.
pub proof fn lemma_plain_literal(s: Seq<char>, i: int, e: int)
    requires
        0 <= i <= s.len(),
        skip_ws(s, i) < e < s.len(),
        s[skip_ws(s, i)] == '"',
        s[e] == '"',
        forall|k: int| skip_ws(s, i) < k < e ==> #[trigger] s[k] != '&' && s[k] != '"',
    ensures
        spec_str_lit(s, i) == Ok::<(Seq<char>, int), Failure>((s.subrange(skip_ws(s, i) + 1, e), e + 1)),
{
    lemma_skip_ws_bounds(s, i);
    lemma_decode_plain(s, skip_ws(s, i) + 1, e);
}

/// Each of the five entities decodes to exactly one character, and an `&`
/// that starts none of them fails the literal there, hard.
pub proof fn lemma_decode_entity(s: Seq<char>, i: int)
    requires
        0 <= i < s.len(),
        s[i] == '&',
    ensures
        escape_at(s, i) matches Some((c, n)) ==> decode_from(s, i) == prepend(
            seq![c],
            decode_from(s, i + n),
        ),
        escape_at(s, i) is None ==> decode_from(s, i) == Err::<(Seq<char>, int), Failure>(
            Failure { kind: ErrorKind::Hard, at: i },
        ),
{
}

/// Looks for one of the five entities after the `&` at `i`.
fn escape_at_exec(src: &[char], i: usize) -> (r: Option<(char, usize)>)
    requires
        i < src@.len(),
    ensures
        match r {
            Some((c, n)) => escape_at(src@, i as int) == Some((c, n as int)) && i + n <= src@.len(),
            None => escape_at(src@, i as int) is None,
        },
{
    let rem = src.len() - i;
    if rem >= 5 && src[i + 1] == 'a' && src[i + 2] == 'm' && src[i + 3] == 'p' && src[i + 4] == ';' {
        Some(('&', 5))
    } else if rem >= 4 && src[i + 1] == 'l' && src[i + 2] == 't' && src[i + 3] == ';' {
        Some(('<', 4))
    } else if rem >= 4 && src[i + 1] == 'g' && src[i + 2] == 't' && src[i + 3] == ';' {
        Some(('>', 4))
    } else if rem >= 5 && src[i + 1] == '#' && src[i + 2] == '3' && src[i + 3] == '9' && src[i
        + 4] == ';' {
        Some(('&', 5))
    } else if rem >= 6 && src[i + 1] == 'q' && src[i + 2] == 'u' && src[i + 3] == 'o' && src[i
        + 4] == 't' && src[i + 5] == ';' {
        Some(('"', 6))
    } else {
        None
    }
}

/// What a buffer that may not exist yet holds.
pub open spec fn held(buf: Option<Vec<char>>) -> Seq<char> {
    match buf {
        Some(v) => v@,
        None => Seq::empty(),
    }
}

/// Whether `s` holds an `&` between `a` and `b`.
pub open spec fn has_amp(s: Seq<char>, a: int, b: int) -> bool {
    exists|k: int| a <= k < b && s[k] == '&'
}

impl<'a> HtmlStrLit<'a> {
    /// Whether the text is `other`.
    pub fn content_eq(&self, other: &[char]) -> (r: bool)
        ensures
            r == (self@ == other@),
    {
        same_text(self.content(), other)
    }

    /// The decoded text.
    pub fn content(&self) -> (r: &[char])
        ensures
            r@ == self@,
    {
        match &self.content {
            Cow::Borrowed(b) => b,
            Cow::Owned(o) => o.as_slice(),
        }
    }

    /// Whether the text is still a slice of the source, with no copy made.
    pub fn is_borrowed(&self) -> (r: bool)
        ensures
            r == self.spec_borrowed(),
    {
        match &self.content {
            Cow::Borrowed(_) => true,
            Cow::Owned(_) => false,
        }
    }

    pub closed spec fn spec_borrowed(&self) -> bool {
        self.content is Borrowed
    }

    /// The literal's place in the source, quotes included.
    pub fn span(&self) -> (r: Span)
        ensures
            r == self.spec_span(),
    {
        self.span
    }

    pub closed spec fn spec_span(&self) -> Span {
        self.span
    }

    /// Reads an escaped literal at `pos`, skipping whitespace first. A missing
    /// opening quote is a mismatch; an unknown entity or a missing closing
    /// quote is a hard failure. The text is borrowed from `src` exactly when
    /// the inside holds no `&`.
    pub fn parse(src: &'a [char], pos: usize) -> (r: Result<(HtmlStrLit<'a>, usize), ParseError>)
        requires
            pos <= src@.len(),
        ensures
            match r {
                Ok((lit, e)) => {
                    &&& spec_str_lit(src@, pos as int) == Ok::<(Seq<char>, int), Failure>(
                        (lit@, e as int),
                    )
                    &&& lit.spec_span() == (Span { start: skip_ws(src@, pos as int) as usize, end: e })
                    &&& lit.spec_borrowed() == !has_amp(src@, skip_ws(src@, pos as int) + 1, e - 1)
                },
                Err(err) => spec_str_lit(src@, pos as int) == Err::<(Seq<char>, int), Failure>(
                    err.failure(),
                ),
            },
    {
        let p = skip_whitespace(src, pos);
        if p >= src.len() || src[p] != '"' {
            return Err(ParseError::new(ErrorKind::Mismatch, p, p, "expected '\"'"));
        }
        let q = p + 1;
        let mut owned: Option<Vec<char>> = None;
        let mut run = q;
        let mut j = q;
        while j < src.len() && src[j] != '"'
            invariant
                q == p + 1,
                p < src@.len(),
                p == skip_ws(src@, pos as int),
                src@[p as int] == '"',
                q <= run <= j <= src@.len(),
                owned is None ==> run == q && !has_amp(src@, q as int, j as int),
                owned is Some ==> has_amp(src@, q as int, j as int),
                decode_from(src@, q as int) == prepend(
                    held(owned) + src@.subrange(run as int, j as int),
                    decode_from(src@, j as int),
                ),
            decreases src@.len() - j,
        {
            let ghost prefix = held(owned);
            let ghost acc = prefix + src@.subrange(run as int, j as int);
            if src[j] == '&' {
                match escape_at_exec(src, j) {
                    None => {
                        assert(decode_from(src@, j as int) == Err::<(Seq<char>, int), Failure>(
                            Failure { kind: ErrorKind::Hard, at: j as int },
                        ));
                        return Err(
                            ParseError::new(
                                ErrorKind::Hard,
                                j,
                                j + 1,
                                "unknown escape sequence: expected &amp; or &lt; or &gt; or &#39; or &quot;",
                            ),
                        );
                    },
                    Some((c, n)) => {
                        let mut v = match owned {
                            Some(v) => v,
                            None => Vec::new(),
                        };
                        push_run(&mut v, src, run, j);
                        v.push(c);
                        assert(v@ == acc + seq![c]);
                        assert(src@.subrange(j + n, j + n) =~= Seq::<char>::empty());
                        assert(v@ + src@.subrange(j + n, j + n) =~= v@);
                        proof {
                            assert(decode_from(src@, j as int) == prepend(seq![c], decode_from(src@, j + n)));
                            match decode_from(src@, j + n) {
                                Ok((d, e)) => {
                                    assert(acc + (seq![c] + d) =~= (acc + seq![c]) + d);
                                    assert((acc + seq![c]) + d =~= (v@ + src@.subrange(j + n, j + n)) + d);
                                },
                                Err(f) => {},
                            }
                        }
                        owned = Some(v);
                        j = j + n;
                        run = j;
                    },
                }
            } else {
                proof {
                    assert(decode_from(src@, j as int) == prepend(seq![src@[j as int]], decode_from(src@, j + 1)));
                    assert(src@.subrange(run as int, j + 1) =~= src@.subrange(run as int, j as int).push(src@[j as int]));
                    assert(prefix + src@.subrange(run as int, j + 1) =~= acc + seq![src@[j as int]]);
                    match decode_from(src@, j + 1) {
                        Ok((d, e)) => {
                            assert(acc + (seq![src@[j as int]] + d) =~= (acc + seq![src@[j as int]]) + d);
                        },
                        Err(f) => {},
                    }
                }
                j = j + 1;
            }
        }
        if j >= src.len() {
            return Err(ParseError::new(ErrorKind::Hard, j, j, "expected '\"'"));
        }
        let content = match owned {
            None => {
                proof {
                    assert(src@.subrange(q as int, j as int) + Seq::<char>::empty() =~= src@.subrange(q as int, j as int));
                    assert(Seq::<char>::empty() + src@.subrange(q as int, j as int) =~= src@.subrange(q as int, j as int));
                }
                Cow::Borrowed(vstd::slice::slice_subrange(src, q, j))
            },
            Some(v) => {
                let mut v = v;
                push_run(&mut v, src, run, j);
                proof {
                    assert(v@ + Seq::<char>::empty() =~= v@);
                }
                Cow::Owned(v)
            },
        };
        Ok((HtmlStrLit { content, span: Span { start: p, end: j + 1 } }, j + 1))
    }
}

impl<'a> HtmlRawStrLit<'a> {
    /// Whether the text is `other`.
    pub fn content_eq(&self, other: &[char]) -> (r: bool)
        ensures
            r == (self@ == other@),
    {
        same_text(self.content(), other)
    }

    /// The text, exactly as it stands between the quotes.
    pub fn content(&self) -> (r: &[char])
        ensures
            r@ == self@,
    {
        match &self.content {
            Cow::Borrowed(b) => b,
            Cow::Owned(o) => o.as_slice(),
        }
    }

    /// The literal's place in the source, quotes included.
    pub fn span(&self) -> (r: Span)
        ensures
            r == self.spec_span(),
    {
        self.span
    }

    pub closed spec fn spec_span(&self) -> Span {
        self.span
    }

    /// Reads a raw literal at `pos`, skipping whitespace first. A missing
    /// opening quote is a mismatch, a missing closing quote a hard failure.
    pub fn parse(src: &'a [char], pos: usize) -> (r: Result<(HtmlRawStrLit<'a>, usize), ParseError>)
        requires
            pos <= src@.len(),
        ensures
            match r {
                Ok((lit, e)) => {
                    &&& spec_raw_lit(src@, pos as int) == Ok::<(Seq<char>, int), Failure>(
                        (lit@, e as int),
                    )
                    &&& lit.spec_span() == (Span { start: skip_ws(src@, pos as int) as usize, end: e })
                },
                Err(err) => spec_raw_lit(src@, pos as int) == Err::<(Seq<char>, int), Failure>(
                    err.failure(),
                ),
            },
    {
        let p = skip_whitespace(src, pos);
        if p >= src.len() || src[p] != '"' {
            return Err(ParseError::new(ErrorKind::Mismatch, p, p, "expected '\"'"));
        }
        let q = p + 1;
        let mut j = q;
        while j < src.len() && src[j] != '"'
            invariant
                q <= j <= src@.len(),
                quote_end(src@, j as int) == quote_end(src@, q as int),
            decreases src@.len() - j,
        {
            j = j + 1;
        }
        if j >= src.len() {
            return Err(ParseError::new(ErrorKind::Hard, j, j, "expected '\"'"));
        }
        let content = Cow::Borrowed(vstd::slice::slice_subrange(src, q, j));
        Ok((HtmlRawStrLit { content, span: Span { start: p, end: j + 1 } }, j + 1))
    }
}

} // verus!
