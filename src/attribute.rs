use vstd::prelude::*;
use crate::source::{same_text, skip_ws, skip_whitespace, lemma_skip_ws_bounds, ErrorKind, Failure, ParseError};
use crate::html_ident::{spec_ident, lemma_ident_advances, HtmlIdent};
use crate::html_lit_str::{spec_raw_lit, spec_str_lit, HtmlRawStrLit, HtmlStrLit};

verus! {

/// `name="value"` inside an opening tag.
#[derive(Debug)]
pub struct Attribute<'a> {
    pub name: HtmlIdent<'a>,
    pub value: AttributeValue<'a>,
}

/// An attribute's value: escaped, or raw for `style`.
#[derive(Debug)]
pub enum AttributeValue<'a> {
    HtmlStrLit(HtmlStrLit<'a>),
    HtmlRawStrLit(HtmlRawStrLit<'a>),
}

/// What an attribute says: its name, its value's text, and whether the value
/// was read raw.
pub ghost struct AttributeView {
    pub name: Seq<char>,
    pub value: Seq<char>,
    pub raw: bool,
}

impl<'a> View for AttributeValue<'a> {
    type V = Seq<char>;

    open spec fn view(&self) -> Seq<char> {
        match self {
            AttributeValue::HtmlStrLit(v) => v@,
            AttributeValue::HtmlRawStrLit(v) => v@,
        }
    }
}

impl<'a> View for Attribute<'a> {
    type V = AttributeView;

    open spec fn view(&self) -> AttributeView {
        AttributeView { name: self.name@, value: self.value@, raw: self.value is HtmlRawStrLit }
    }
}

impl<'a> AttributeValue<'a> {
    /// Whether the text is `other`.
    pub fn content_eq(&self, other: &[char]) -> (r: bool)
        ensures
            r == (self@ == other@),
    {
        same_text(self.content(), other)
    }

    /// The value's text, whichever way it was quoted.
    pub fn content(&self) -> (r: &[char])
        ensures
            r@ == self@,
    {
        match self {
            AttributeValue::HtmlStrLit(v) => v.content(),
            AttributeValue::HtmlRawStrLit(v) => v.content(),
        }
    }
}

/// The one attribute name whose value is read raw.
pub open spec fn style_name() -> Seq<char> {
    seq!['s', 't', 'y', 'l', 'e']
}

fn is_style(name: &[char]) -> (r: bool)
    ensures
        r == (name@ == style_name()),
{
    if name.len() == 5 && name[0] == 's' && name[1] == 't' && name[2] == 'y' && name[3] == 'l'
        && name[4] == 'e' {
        assert(name@ =~= style_name());
        true
    } else {
        proof {
            if name@ == style_name() {
                assert(name@[0] == 's' && name@[1] == 't' && name@[2] == 'y');
                assert(name@[3] == 'l' && name@[4] == 'e');
            }
        }
        false
    }
}

/// The attribute rule: a name (a mismatch where none stands), a required
/// `=`, then the value, raw exactly where the name is `style`. Once the name
/// is read every failure is hard.
pub open spec fn spec_attribute(s: Seq<char>, i: int) -> Result<(AttributeView, int), Failure> {
    match spec_ident(s, i) {
        Err(f) => Err(f),
        Ok((name, j)) => {
            let k = skip_ws(s, j);
            if k < s.len() && s[k] == '=' {
                let raw = name == style_name();
                let lit = if raw {
                    spec_raw_lit(s, k + 1)
                } else {
                    spec_str_lit(s, k + 1)
                };
                match lit {
                    Ok((v, e)) => Ok((AttributeView { name, value: v, raw }, e)),
                    Err(f) => Err(Failure { kind: ErrorKind::Hard, at: f.at }),
                }
            } else {
                Err(Failure { kind: ErrorKind::Hard, at: k })
            }
        },
    }
}

/// An attribute named exactly `style` takes its value by the raw rule, and
/// any other name by the escaped rule.
pub proof fn lemma_style_is_raw(s: Seq<char>, i: int)
    requires
        spec_attribute(s, i) is Ok,
    ensures
        ({
            let (a, e) = spec_attribute(s, i)->Ok_0;
            let k = skip_ws(s, spec_ident(s, i)->Ok_0.1);
            &&& a.raw <==> a.name == style_name()
            &&& a.raw ==> spec_raw_lit(s, k + 1) == Ok::<(Seq<char>, int), Failure>((a.value, e))
            &&& !a.raw ==> spec_str_lit(s, k + 1) == Ok::<(Seq<char>, int), Failure>((a.value, e))
        }),
{
}

impl<'a> Attribute<'a> {
    /// Reads an attribute at `pos`. A mismatch means no attribute starts
    /// here (nothing was consumed); every other failure is hard.
    pub fn parse(src: &'a [char], pos: usize) -> (r: Result<(Attribute<'a>, usize), ParseError>)
        requires
            pos <= src@.len(),
        ensures
            match r {
                Ok((a, e)) => spec_attribute(src@, pos as int) == Ok::<(AttributeView, int), Failure>(
                    (a@, e as int),
                ),
                Err(err) => spec_attribute(src@, pos as int) == Err::<(AttributeView, int), Failure>(
                    err.failure(),
                ),
            },
    {
        let (name, j) = match HtmlIdent::parse(src, pos) {
            Ok(x) => x,
            Err(err) => {
                return Err(err.context("expected attribute name"));
            },
        };
        proof {
            lemma_ident_advances(src@, pos as int);
        }
        let k = skip_whitespace(src, j);
        if k >= src.len() || src[k] != '=' {
            return Err(ParseError::new(ErrorKind::Hard, k, k, "expected '='"));
        }
        if is_style(name.content()) {
            match HtmlRawStrLit::parse(src, k + 1) {
                Ok((v, e)) => Ok((Attribute { name, value: AttributeValue::HtmlRawStrLit(v) }, e)),
                Err(err) => Err(err.harden().context("expected attribute value")),
            }
        } else {
            match HtmlStrLit::parse(src, k + 1) {
                Ok((v, e)) => Ok((Attribute { name, value: AttributeValue::HtmlStrLit(v) }, e)),
                Err(err) => Err(err.harden().context("expected attribute value")),
            }
        }
    }
}

/// An attribute found ends past where the search for it began.
pub proof fn lemma_attribute_advances(s: Seq<char>, i: int)
    requires
        0 <= i <= s.len(),
        spec_attribute(s, i) is Ok,
    ensures
        i < spec_attribute(s, i)->Ok_0.1 <= s.len(),
{
    lemma_ident_advances(s, i);
    let j = spec_ident(s, i)->Ok_0.1;
    lemma_skip_ws_bounds(s, j);
    let k = skip_ws(s, j);
    lemma_skip_ws_bounds(s, k + 1);
    let p = skip_ws(s, k + 1);
    crate::html_lit_str::lemma_quote_end_bounds(s, p + 1);
    if spec_ident(s, i)->Ok_0.0 != style_name() {
        crate::html_lit_str::lemma_decode_bounds(s, p + 1);
    }
}

} // verus!
