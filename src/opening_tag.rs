use vstd::prelude::*;
use crate::source::{ErrorKind, Failure, ParseError};
use crate::token::{spec_token, lemma_token_advances, LeftAngle, RightAngle, SlashRightAngle};
use crate::html_ident::{spec_ident, lemma_ident_advances, HtmlIdent};
use crate::attribute::{spec_attribute, lemma_attribute_advances, Attribute, AttributeView};

verus! {

/// `<name attr="v" ...>` or `<name ... />`.
#[derive(Debug)]
pub struct OpeningTag<'a> {
    pub opening_tag: LeftAngle,
    pub name: HtmlIdent<'a>,
    pub attributes: Vec<Attribute<'a>>,
    pub terminator: OpeningTagTerminator,
}

/// How an opening tag ends.
#[derive(Debug)]
pub enum OpeningTagTerminator {
    /// `/>`: the tag closes itself.
    Closed(SlashRightAngle),
    /// `>`: content follows.
    Open(RightAngle),
}

/// What an opening tag says: its name, its attributes in order, and whether
/// it closes itself.
pub ghost struct OpeningTagView {
    pub name: Seq<char>,
    pub attributes: Seq<AttributeView>,
    pub self_closing: bool,
}

impl<'a> View for OpeningTag<'a> {
    type V = OpeningTagView;

    open spec fn view(&self) -> OpeningTagView {
        OpeningTagView {
            name: self.name@,
            attributes: self.attributes@.map_values(|a: Attribute<'a>| a@),
            self_closing: self.terminator is Closed,
        }
    }
}

/// The terminator rule: `/>` (true) or `>` (false) after whitespace.
pub open spec fn spec_terminator(s: Seq<char>, i: int) -> Result<(bool, int), Failure> {
    match spec_token(s, i, seq!['/', '>']) {
        Ok((_, e)) => Ok((true, e)),
        Err(_) => match spec_token(s, i, seq!['>']) {
            Ok((_, e)) => Ok((false, e)),
            Err(f) => Err(f),
        },
    }
}

/// The attribute list from `i`: attributes for as long as one starts; a
/// hard failure in one fails the list.
pub open spec fn spec_attributes(s: Seq<char>, i: int) -> Result<(Seq<AttributeView>, int), Failure>
    decreases s.len() - i,
{
    match spec_attribute(s, i) {
        Err(f) => if f.kind == ErrorKind::Mismatch {
            Ok((Seq::empty(), i))
        } else {
            Err(f)
        },
        Ok((a, e)) => if i < e <= s.len() {
            match spec_attributes(s, e) {
                Ok((rest, e2)) => Ok((seq![a] + rest, e2)),
                Err(f) => Err(f),
            }
        } else {
            Err(Failure { kind: ErrorKind::Hard, at: e })
        },
    }
}

/// The opening-tag rule: `<` (a mismatch where it does not stand), then a
/// required name, the attributes, and a required terminator.
pub open spec fn spec_opening_tag(s: Seq<char>, i: int) -> Result<(OpeningTagView, int), Failure> {
    match spec_token(s, i, seq!['<']) {
        Err(f) => Err(f),
        Ok((_, j)) => match spec_ident(s, j) {
            Err(f) => Err(Failure { kind: ErrorKind::Hard, at: f.at }),
            Ok((name, k)) => match spec_attributes(s, k) {
                Err(f) => Err(f),
                Ok((attributes, m)) => match spec_terminator(s, m) {
                    Err(f) => Err(Failure { kind: ErrorKind::Hard, at: f.at }),
                    Ok((self_closing, e)) => Ok((OpeningTagView { name, attributes, self_closing }, e)),
                },
            },
        },
    }
}

impl OpeningTagTerminator {
    /// Reads `/>` or `>` at `pos`, skipping whitespace first; a mismatch where
    /// neither stands.
    pub fn parse(src: &[char], pos: usize) -> (r: Result<(OpeningTagTerminator, usize), ParseError>)
        requires
            pos <= src@.len(),
        ensures
            match r {
                Ok((t, e)) => spec_terminator(src@, pos as int) == Ok::<(bool, int), Failure>(
                    (t is Closed, e as int),
                ),
                Err(err) => spec_terminator(src@, pos as int) == Err::<(bool, int), Failure>(
                    err.failure(),
                ),
            },
    {
        match SlashRightAngle::parse(src, pos) {
            Ok((t, e)) => Ok((OpeningTagTerminator::Closed(t), e)),
            Err(_) => match RightAngle::parse(src, pos) {
                Ok((t, e)) => Ok((OpeningTagTerminator::Open(t), e)),
                Err(err) => Err(err),
            },
        }
    }
}

/// Where a list of attributes ends, it ends no earlier than it began.
pub proof fn lemma_attributes_bounds(s: Seq<char>, i: int)
    requires
        0 <= i <= s.len(),
        spec_attributes(s, i) is Ok,
    ensures
        i <= spec_attributes(s, i)->Ok_0.1 <= s.len(),
    decreases s.len() - i,
{
    if spec_attribute(s, i) is Ok {
        lemma_attribute_advances(s, i);
        lemma_attributes_bounds(s, spec_attribute(s, i)->Ok_0.1);
    }
}

impl<'a> OpeningTag<'a> {
    /// Whether the tag ends with `/>`.
    pub fn is_self_closing(&self) -> (r: bool)
        ensures
            r == self@.self_closing,
    {
        match self.terminator {
            OpeningTagTerminator::Closed(_) => true,
            OpeningTagTerminator::Open(_) => false,
        }
    }

    /// Reads an opening tag at `pos`. A mismatch means no `<` stands there;
    /// after the `<` every failure is hard.
    pub fn parse(src: &'a [char], pos: usize) -> (r: Result<(OpeningTag<'a>, usize), ParseError>)
        requires
            pos <= src@.len(),
        ensures
            match r {
                Ok((t, e)) => spec_opening_tag(src@, pos as int) == Ok::<(OpeningTagView, int), Failure>(
                    (t@, e as int),
                ) && pos < e <= src@.len(),
                Err(err) => spec_opening_tag(src@, pos as int) == Err::<(OpeningTagView, int), Failure>(
                    err.failure(),
                ),
            },
    {
        let (opening_tag, j) = match LeftAngle::parse(src, pos) {
            Ok(x) => x,
            Err(err) => {
                return Err(err.context("expected opening tag"));
            },
        };
        proof {
            lemma_token_advances(src@, pos as int, seq!['<']);
        }
        let (name, k) = match HtmlIdent::parse(src, j) {
            Ok(x) => x,
            Err(err) => {
                return Err(err.harden().context("expected tag name"));
            },
        };
        proof {
            lemma_ident_advances(src@, j as int);
        }
        let mut attributes: Vec<Attribute<'a>> = Vec::new();
        let mut m = k;
        loop
            invariant
                k <= m <= src@.len(),
                spec_opening_tag(src@, pos as int) == match spec_attributes(src@, m as int) {
                    Err(f) => Err(f),
                    Ok((rest, m2)) => match spec_terminator(src@, m2) {
                        Err(f) => Err(Failure { kind: ErrorKind::Hard, at: f.at }),
                        Ok((self_closing, e)) => Ok::<(OpeningTagView, int), Failure>(
                            (
                                OpeningTagView {
                                    name: name@,
                                    attributes: attributes@.map_values(|a: Attribute<'a>| a@)
                                        + rest,
                                    self_closing,
                                },
                                e,
                            ),
                        ),
                    },
                },
            ensures
                k <= m <= src@.len(),
                spec_opening_tag(src@, pos as int) == match spec_attributes(src@, m as int) {
                    Err(f) => Err(f),
                    Ok((rest, m2)) => match spec_terminator(src@, m2) {
                        Err(f) => Err(Failure { kind: ErrorKind::Hard, at: f.at }),
                        Ok((self_closing, e)) => Ok::<(OpeningTagView, int), Failure>(
                            (
                                OpeningTagView {
                                    name: name@,
                                    attributes: attributes@.map_values(|a: Attribute<'a>| a@)
                                        + rest,
                                    self_closing,
                                },
                                e,
                            ),
                        ),
                    },
                },
                spec_attributes(src@, m as int) == Ok::<(Seq<AttributeView>, int), Failure>((Seq::empty(), m as int)),
            decreases src@.len() - m,
        {
            match Attribute::parse(src, m) {
                Ok((a, e)) => {
                    let ghost old_view = attributes@.map_values(|x: Attribute<'a>| x@);
                    proof {
                        lemma_attribute_advances(src@, m as int);
                        match spec_attributes(src@, e as int) {
                            Ok((rest, m2)) => {
                                assert(old_view + (seq![a@] + rest) =~= old_view.push(a@) + rest);
                            },
                            Err(f) => {},
                        }
                    }
                    attributes.push(a);
                    proof {
                        assert(attributes@.map_values(|x: Attribute<'a>| x@) =~= old_view.push(a@));
                    }
                    m = e;
                },
                Err(err) => {
                    if err.kind == ErrorKind::Hard {
                        return Err(err.context("expected attribute"));
                    }
                    break;
                },
            }
        }
        proof {
            assert(attributes@.map_values(|x: Attribute<'a>| x@) + Seq::<AttributeView>::empty() =~= attributes@.map_values(|x: Attribute<'a>| x@));
        }
        let (terminator, e) = match OpeningTagTerminator::parse(src, m) {
            Ok(x) => x,
            Err(err) => {
                return Err(err.harden().context("expected tag terminator"));
            },
        };
        proof {
            if spec_token(src@, m as int, seq!['/', '>']) is Ok {
                lemma_token_advances(src@, m as int, seq!['/', '>']);
            } else {
                lemma_token_advances(src@, m as int, seq!['>']);
            }
        }
        Ok((OpeningTag { opening_tag, name, attributes, terminator }, e))
    }
}

} // verus!
