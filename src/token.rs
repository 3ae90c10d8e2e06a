use vstd::prelude::*;
use crate::source::{skip_ws, skip_whitespace, lemma_skip_ws_bounds, ErrorKind, Failure, ParseError, Span};

verus! {

/// `<`, opening a tag.
#[derive(Clone, Copy, Debug, PartialEq, Eq, Structural)]
pub struct LeftAngle {
    pub span: Span,
}

/// `>`, ending a tag.
#[derive(Clone, Copy, Debug, PartialEq, Eq, Structural)]
pub struct RightAngle {
    pub span: Span,
}

/// `/>`, ending a tag that closes itself.
#[derive(Clone, Copy, Debug, PartialEq, Eq, Structural)]
pub struct SlashRightAngle {
    pub span: Span,
}

/// `</`, opening a closing tag.
#[derive(Clone, Copy, Debug, PartialEq, Eq, Structural)]
pub struct LeftAngleSlash {
    pub span: Span,
}

/// A fixed token after whitespace: where it starts and where it ends, or a
/// mismatch where it does not stand.
pub open spec fn spec_token(s: Seq<char>, i: int, tok: Seq<char>) -> Result<(int, int), Failure> {
    let p = skip_ws(s, i);
    if p + tok.len() <= s.len() && s.subrange(p, p + tok.len()) == tok {
        Ok((p, p + tok.len()))
    } else {
        Err(Failure { kind: ErrorKind::Mismatch, at: p })
    }
}

/// Reads the one-character token `c` at `pos`, skipping whitespace first.
pub fn token1(src: &[char], pos: usize, c: char) -> (r: Result<(Span, usize), ParseError>)
    requires
        pos <= src@.len(),
    ensures
        match r {
            Ok((sp, e)) => spec_token(src@, pos as int, seq![c]) == Ok::<(int, int), Failure>(
                (sp.start as int, e as int),
            ) && sp.end == e,
            Err(err) => spec_token(src@, pos as int, seq![c]) == Err::<(int, int), Failure>(
                err.failure(),
            ),
        },
{
    let p = skip_whitespace(src, pos);
    if p < src.len() && src[p] == c {
        assert(src@.subrange(p as int, p + 1) =~= seq![c]);
        Ok((Span { start: p, end: p + 1 }, p + 1))
    } else {
        proof {
            if p + 1 <= src@.len() {
                assert(src@.subrange(p as int, p + 1)[0] == src@[p as int]);
            }
        }
        Err(ParseError::new(ErrorKind::Mismatch, p, p, "expected a token"))
    }
}

/// Reads the two-character token `c1 c2` at `pos`, skipping whitespace first.
pub fn token2(src: &[char], pos: usize, c1: char, c2: char) -> (r: Result<(Span, usize), ParseError>)
    requires
        pos <= src@.len(),
    ensures
        match r {
            Ok((sp, e)) => spec_token(src@, pos as int, seq![c1, c2]) == Ok::<(int, int), Failure>(
                (sp.start as int, e as int),
            ) && sp.end == e,
            Err(err) => spec_token(src@, pos as int, seq![c1, c2]) == Err::<(int, int), Failure>(
                err.failure(),
            ),
        },
{
    let p = skip_whitespace(src, pos);
    if p < src.len() && src.len() - p >= 2 && src[p] == c1 && src[p + 1] == c2 {
        assert(src@.subrange(p as int, p + 2) =~= seq![c1, c2]);
        Ok((Span { start: p, end: p + 2 }, p + 2))
    } else {
        proof {
            if p + 2 <= src@.len() {
                assert(src@.subrange(p as int, p + 2)[0] == src@[p as int]);
                assert(src@.subrange(p as int, p + 2)[1] == src@[p + 1]);
            }
        }
        Err(ParseError::new(ErrorKind::Mismatch, p, p, "expected a token"))
    }
}

impl LeftAngle {
    pub fn parse(src: &[char], pos: usize) -> (r: Result<(LeftAngle, usize), ParseError>)
        requires
            pos <= src@.len(),
        ensures
            match r {
                Ok((t, e)) => spec_token(src@, pos as int, seq!['<']) == Ok::<(int, int), Failure>(
                    (t.span.start as int, e as int),
                ),
                Err(err) => spec_token(src@, pos as int, seq!['<']) == Err::<(int, int), Failure>(
                    err.failure(),
                ),
            },
    {
        match token1(src, pos, '<') {
            Ok((span, e)) => Ok((LeftAngle { span }, e)),
            Err(err) => Err(err),
        }
    }
}

impl RightAngle {
    pub fn parse(src: &[char], pos: usize) -> (r: Result<(RightAngle, usize), ParseError>)
        requires
            pos <= src@.len(),
        ensures
            match r {
                Ok((t, e)) => spec_token(src@, pos as int, seq!['>']) == Ok::<(int, int), Failure>(
                    (t.span.start as int, e as int),
                ),
                Err(err) => spec_token(src@, pos as int, seq!['>']) == Err::<(int, int), Failure>(
                    err.failure(),
                ),
            },
    {
        match token1(src, pos, '>') {
            Ok((span, e)) => Ok((RightAngle { span }, e)),
            Err(err) => Err(err),
        }
    }
}

impl SlashRightAngle {
    pub fn parse(src: &[char], pos: usize) -> (r: Result<(SlashRightAngle, usize), ParseError>)
        requires
            pos <= src@.len(),
        ensures
            match r {
                Ok((t, e)) => spec_token(src@, pos as int, seq!['/', '>']) == Ok::<(int, int), Failure>(
                    (t.span.start as int, e as int),
                ),
                Err(err) => spec_token(src@, pos as int, seq!['/', '>']) == Err::<(int, int), Failure>(
                    err.failure(),
                ),
            },
    {
        match token2(src, pos, '/', '>') {
            Ok((span, e)) => Ok((SlashRightAngle { span }, e)),
            Err(err) => Err(err),
        }
    }
}

impl LeftAngleSlash {
    pub fn parse(src: &[char], pos: usize) -> (r: Result<(LeftAngleSlash, usize), ParseError>)
        requires
            pos <= src@.len(),
        ensures
            match r {
                Ok((t, e)) => spec_token(src@, pos as int, seq!['<', '/']) == Ok::<(int, int), Failure>(
                    (t.span.start as int, e as int),
                ),
                Err(err) => spec_token(src@, pos as int, seq!['<', '/']) == Err::<(int, int), Failure>(
                    err.failure(),
                ),
            },
    {
        match token2(src, pos, '<', '/') {
            Ok((span, e)) => Ok((LeftAngleSlash { span }, e)),
            Err(err) => Err(err),
        }
    }
}

/// A token found ends past where the search for it began.
pub proof fn lemma_token_advances(s: Seq<char>, i: int, tok: Seq<char>)
    requires
        0 <= i <= s.len(),
        tok.len() > 0,
        spec_token(s, i, tok) is Ok,
    ensures
        i <= spec_token(s, i, tok)->Ok_0.0 < spec_token(s, i, tok)->Ok_0.1 <= s.len(),
        spec_token(s, i, tok)->Ok_0.0 == skip_ws(s, i),
{
    lemma_skip_ws_bounds(s, i);
}

} // verus!
