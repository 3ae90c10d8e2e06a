use vstd::prelude::*;

verus! {

/// A half-open range `start..end` of character positions in the source.
#[derive(Clone, Copy, Debug, PartialEq, Eq, Structural)]
pub struct Span {
    pub start: usize,
    pub end: usize,
}

/// The two ways a rule can fail.
#[derive(Clone, Copy, Debug, PartialEq, Eq, Structural)]
pub enum ErrorKind {
    /// The rule does not apply here; a caller may try something else.
    Mismatch,
    /// The rule had committed and could not complete.
    Hard,
}

/// A failed parse: its kind, where it happened, what was expected, and the
/// labels that enclosing rules attached on the way out (innermost first).
#[derive(Debug)]
pub struct ParseError {
    pub kind: ErrorKind,
    pub span: Span,
    pub message: &'static str,
    pub context: Vec<&'static str>,
}

/// The kind and the position of a failure, as the grammar's spec functions state it.
pub ghost struct Failure {
    pub kind: ErrorKind,
    pub at: int,
}

impl ParseError {
    pub open spec fn failure(&self) -> Failure {
        Failure { kind: self.kind, at: self.span.start as int }
    }

    pub fn new(kind: ErrorKind, start: usize, end: usize, message: &'static str) -> (r: Self)
        ensures
            r.kind == kind,
            r.span == (Span { start, end }),
            r.message == message,
            r.context@.len() == 0,
    {
        ParseError { kind, span: Span { start, end }, message, context: Vec::new() }
    }

    /// Attaches a label naming what the enclosing rule was doing, keeping the
    /// kind, the span and the inner message.
    pub fn context(self, label: &'static str) -> (r: Self)
        ensures
            r.kind == self.kind,
            r.span == self.span,
            r.message == self.message,
            r.context@ == self.context@.push(label),
    {
        let mut r = self;
        r.context.push(label);
        r
    }

    /// The same error, made hard: what a required rule reports when the rule
    /// did not apply.
    pub fn harden(self) -> (r: Self)
        ensures
            r.kind == ErrorKind::Hard,
            r.span == self.span,
            r.message == self.message,
            r.context@ == self.context@,
    {
        ParseError { kind: ErrorKind::Hard, ..self }
    }
}

/// Insignificant whitespace between tokens.
pub open spec fn is_ws(c: char) -> bool {
    c == ' ' || c == '\t' || c == '\n' || c == '\r' || c == '\x0C'
}

/// The first position at or after `i` that does not hold whitespace.
pub open spec fn skip_ws(s: Seq<char>, i: int) -> int
    decreases s.len() - i,
{
    if i < 0 || i >= s.len() || !is_ws(s[i]) {
        i
    } else {
        skip_ws(s, i + 1)
    }
}

pub proof fn lemma_skip_ws_bounds(s: Seq<char>, i: int)
    requires
        0 <= i <= s.len(),
    ensures
        i <= skip_ws(s, i) <= s.len(),
        forall|k: int| i <= k < skip_ws(s, i) ==> is_ws(#[trigger] s[k]),
        skip_ws(s, i) < s.len() ==> !is_ws(s[skip_ws(s, i)]),
    decreases s.len() - i,
{
    if i < s.len() && is_ws(s[i]) {
        lemma_skip_ws_bounds(s, i + 1);
    }
}

pub fn is_whitespace(c: char) -> (r: bool)
    ensures
        r == is_ws(c),
{
    c == ' ' || c == '\t' || c == '\n' || c == '\r' || c == '\x0C'
}

/// Moves past the whitespace that starts at `pos`.
pub fn skip_whitespace(src: &[char], pos: usize) -> (r: usize)
    requires
        pos <= src@.len(),
    ensures
        r == skip_ws(src@, pos as int),
        pos <= r <= src@.len(),
{
    proof { lemma_skip_ws_bounds(src@, pos as int); }
    let mut i = pos;
    while i < src.len() && is_whitespace(src[i])
        invariant
            pos <= i <= src@.len(),
            skip_ws(src@, i as int) == skip_ws(src@, pos as int),
        decreases src@.len() - i,
    {
        i = i + 1;
    }
    i
}

/// Appends `src[a..b]` to `buf`.
pub fn push_run(buf: &mut Vec<char>, src: &[char], a: usize, b: usize)
    requires
        a <= b <= src@.len(),
    ensures
        final(buf)@ == old(buf)@ + src@.subrange(a as int, b as int),
{
    let mut k = a;
    while k < b
        invariant
            a <= k <= b <= src@.len(),
            buf@ == old(buf)@ + src@.subrange(a as int, k as int),
        decreases b - k,
    {
        buf.push(src[k]);
        assert(src@.subrange(a as int, k + 1) =~= src@.subrange(a as int, k as int).push(src@[k as int]));
        k = k + 1;
    }
}

/// Whether two texts are the same.
pub fn same_text(a: &[char], b: &[char]) -> (r: bool)
    ensures
        r == (a@ == b@),
{
    if a.len() != b.len() {
        return false;
    }
    let mut k: usize = 0;
    while k < a.len()
        invariant
            a@.len() == b@.len(),
            k <= a@.len(),
            forall|m: int| 0 <= m < k ==> a@[m] == b@[m],
        decreases a@.len() - k,
    {
        if a[k] != b[k] {
            return false;
        }
        k = k + 1;
    }
    assert(a@ =~= b@);
    true
}

} // verus!
