use std::borrow::Cow;
use vstd::prelude::*;
use crate::source::{same_text, skip_ws, skip_whitespace, lemma_skip_ws_bounds, ErrorKind, Failure, ParseError};
use crate::token::{spec_token, lemma_token_advances, LeftAngleSlash, RightAngle};
use crate::html_ident::{spec_ident, lemma_ident_advances, HtmlIdent};
use crate::opening_tag::{spec_opening_tag, OpeningTag, OpeningTagView};

verus! {

/// An element: its opening tag, its content in order, and its closing tag,
/// which is absent where the element was closed implicitly.
#[derive(Debug)]
pub struct Tag<'a> {
    pub opening_tag: OpeningTag<'a>,
    pub content: Vec<TagContent<'a>>,
    pub closing_tag: Option<ClosingTag<'a>>,
}

/// One entry of an element's content: a run of text, or a nested element.
#[derive(Debug)]
pub enum TagContent<'a> {
    Text(Cow<'a, [char]>),
    Tag(Tag<'a>),
}

/// `</name>`.
#[derive(Debug)]
pub struct ClosingTag<'a> {
    pub opening_tag: LeftAngleSlash,
    pub name: HtmlIdent<'a>,
    pub closing_tag: RightAngle,
}

/// What a content entry says.
pub ghost enum ContentView {
    Text(Seq<char>),
    Tag(TagView),
}

/// What an element says: its opening tag, its content, and the name in its
/// closing tag where it has one.
pub ghost struct TagView {
    pub opening: OpeningTagView,
    pub content: Seq<ContentView>,
    pub closing: Option<Seq<char>>,
}

pub open spec fn content_view<'a>(c: &TagContent<'a>) -> ContentView
    decreases c, 0int,
{
    match c {
        TagContent::Text(t) => ContentView::Text(t@),
        TagContent::Tag(t) => ContentView::Tag(tag_view(t)),
    }
}

/// The views of the first `n` content entries of `t`.
pub open spec fn contents_view<'a>(t: &Tag<'a>, n: int) -> Seq<ContentView>
    decreases t, n,
{
    if n <= 0 || n > t.content@.len() {
        Seq::empty()
    } else {
        contents_view(t, n - 1).push(content_view(&t.content@[n - 1]))
    }
}

pub open spec fn tag_view<'a>(t: &Tag<'a>) -> TagView
    decreases t, t.content@.len() + 1,
{
    TagView {
        opening: t.opening_tag@,
        content: contents_view(t, t.content@.len() as int),
        closing: match &t.closing_tag {
            Some(c) => Some(c.name@),
            None => None,
        },
    }
}

pub proof fn lemma_contents_view<'a>(t: &Tag<'a>, n: int)
    requires
        0 <= n <= t.content@.len(),
    ensures
        contents_view(t, n) == t.content@.subrange(0, n).map_values(|c: TagContent<'a>| content_view(&c)),
    decreases n,
{
    if n > 0 {
        lemma_contents_view(t, n - 1);
        assert(t.content@.subrange(0, n).map_values(|c: TagContent<'a>| content_view(&c))
            =~= t.content@.subrange(0, n - 1).map_values(|c: TagContent<'a>| content_view(&c)).push(content_view(&t.content@[n - 1])));
    } else {
        assert(t.content@.subrange(0, n).map_values(|c: TagContent<'a>| content_view(&c)) =~= Seq::<ContentView>::empty());
    }
}

/// The closing-tag rule: `</` (a mismatch where it does not stand), then a
/// required name and a required `>`. Yields the name.
pub open spec fn spec_closing_tag(s: Seq<char>, i: int) -> Result<(Seq<char>, int), Failure> {
    match spec_token(s, i, seq!['<', '/']) {
        Err(f) => Err(f),
        Ok((_, j)) => match spec_ident(s, j) {
            Err(f) => Err(Failure { kind: ErrorKind::Hard, at: f.at }),
            Ok((name, k)) => match spec_token(s, k, seq!['>']) {
                Err(f) => Err(Failure { kind: ErrorKind::Hard, at: f.at }),
                Ok((_, e)) => Ok((name, e)),
            },
        },
    }
}

/// Whether the next character at or after `j` that is not whitespace is a `<`.
pub open spec fn starts_markup(s: Seq<char>, j: int) -> bool {
    0 <= j && skip_ws(s, j) < s.len() && s[skip_ws(s, j)] == '<'
}

fn starts_markup_exec(src: &[char], j: usize) -> (r: bool)
    requires
        j <= src@.len(),
    ensures
        r == starts_markup(src@, j as int),
{
    let p = skip_whitespace(src, j);
    p < src.len() && src[p] == '<'
}

/// The end of the run of text that starts at `i`: the next `<`, or the end.
pub open spec fn text_end(s: Seq<char>, i: int) -> int
    decreases s.len() - i,
{
    if 0 <= i < s.len() && s[i] != '<' {
        text_end(s, i + 1)
    } else {
        i
    }
}

/// Content parsed so far, then what the rest of the content loop gives.
pub open spec fn prepend_content(
    acc: Seq<ContentView>,
    r: Result<(Seq<ContentView>, Option<Seq<char>>, int), Failure>,
) -> Result<(Seq<ContentView>, Option<Seq<char>>, int), Failure> {
    match r {
        Ok((c, closing, e)) => Ok((acc + c, closing, e)),
        Err(f) => Err(f),
    }
}

/// The element rule at `i`: an opening tag; a tag that closes itself has
/// no content and no closing tag; any other goes on with its content.
pub open spec fn spec_tag(s: Seq<char>, i: int) -> Result<(TagView, int), Failure>
    decreases s.len() - i, 0int,
{
    match spec_opening_tag(s, i) {
        Err(f) => Err(f),
        Ok((opening, j)) => if opening.self_closing {
            Ok((TagView { opening, content: Seq::empty(), closing: None }, j))
        } else if i < j <= s.len() {
            match spec_content(s, opening.name, j) {
                Err(f) => Err(f),
                Ok((content, closing, e)) => Ok((TagView { opening, content, closing }, e)),
            }
        } else {
            Err(Failure { kind: ErrorKind::Hard, at: j })
        },
    }
}

/// The content loop of an element named `name`, from `j`. A closing tag with
/// that name ends it and is kept; one with another name ends it too, but is
/// left where it stands for an enclosing element. Otherwise, where the next
/// character that is not whitespace is a `<`, a nested element follows;
/// where it is not, a run of text up to the next `<`, whitespace included;
/// and the end of the input ends the content with no closing tag.
pub open spec fn spec_content(s: Seq<char>, name: Seq<char>, j: int) -> Result<
    (Seq<ContentView>, Option<Seq<char>>, int),
    Failure,
>
    decreases s.len() - j, 1int,
{
    match spec_closing_tag(s, j) {
        Ok((n, e)) => if n == name {
            Ok((Seq::empty(), Some(n), e))
        } else {
            Ok((Seq::empty(), None, j))
        },
        Err(f) => if f.kind == ErrorKind::Hard {
            Err(f)
        } else if starts_markup(s, j) {
            match spec_tag(s, j) {
                Err(f) => Err(f),
                Ok((t, k)) => if j < k <= s.len() {
                    prepend_content(seq![ContentView::Tag(t)], spec_content(s, name, k))
                } else {
                    Err(Failure { kind: ErrorKind::Hard, at: k })
                },
            }
        } else {
            let k = text_end(s, j);
            if j < k <= s.len() {
                prepend_content(seq![ContentView::Text(s.subrange(j, k))], spec_content(s, name, k))
            } else {
                Ok((Seq::empty(), None, j))
            }
        },
    }
}

pub proof fn lemma_text_end_bounds(s: Seq<char>, i: int)
    requires
        0 <= i <= s.len(),
    ensures
        i <= text_end(s, i) <= s.len(),
        forall|k: int| i <= k < text_end(s, i) ==> #[trigger] s[k] != '<',
        text_end(s, i) < s.len() ==> s[text_end(s, i)] == '<',
    decreases s.len() - i,
{
    if i < s.len() && s[i] != '<' {
        lemma_text_end_bounds(s, i + 1);
    }
}

impl<'a> ClosingTag<'a> {
    /// Reads a closing tag at `pos`. A mismatch means no `</` stands there;
    /// after it every failure is hard.
    pub fn parse(src: &'a [char], pos: usize) -> (r: Result<(ClosingTag<'a>, usize), ParseError>)
        requires
            pos <= src@.len(),
        ensures
            match r {
                Ok((t, e)) => spec_closing_tag(src@, pos as int) == Ok::<(Seq<char>, int), Failure>(
                    (t.name@, e as int),
                ) && pos < e <= src@.len(),
                Err(err) => spec_closing_tag(src@, pos as int) == Err::<(Seq<char>, int), Failure>(
                    err.failure(),
                ),
            },
    {
        let (opening_tag, j) = match LeftAngleSlash::parse(src, pos) {
            Ok(x) => x,
            Err(err) => {
                return Err(err.context("expected </ for closing tag"));
            },
        };
        proof {
            lemma_token_advances(src@, pos as int, seq!['<', '/']);
        }
        let (name, k) = match HtmlIdent::parse(src, j) {
            Ok(x) => x,
            Err(err) => {
                return Err(err.harden().context("expected tag name"));
            },
        };
        proof {
            lemma_ident_advances(src@, j as int);
        }
        let (closing_tag, e) = match RightAngle::parse(src, k) {
            Ok(x) => x,
            Err(err) => {
                return Err(err.harden().context("expected > for closing tag"));
            },
        };
        proof {
            lemma_token_advances(src@, k as int, seq!['>']);
        }
        Ok((ClosingTag { opening_tag, name, closing_tag }, e))
    }
}

/// Finds where the run of text at `pos` ends.
fn text_end_exec(src: &[char], pos: usize) -> (r: usize)
    requires
        pos <= src@.len(),
    ensures
        r == text_end(src@, pos as int),
        pos <= r <= src@.len(),
{
    proof {
        lemma_text_end_bounds(src@, pos as int);
    }
    let mut k = pos;
    while k < src.len() && src[k] != '<'
        invariant
            pos <= k <= src@.len(),
            text_end(src@, k as int) == text_end(src@, pos as int),
        decreases src@.len() - k,
    {
        k = k + 1;
    }
    k
}

/// The views of a list of content entries.
pub open spec fn entries_view<'a>(v: Seq<TagContent<'a>>) -> Seq<ContentView> {
    v.map_values(|c: TagContent<'a>| content_view(&c))
}

pub open spec fn closing_view<'a>(c: Option<ClosingTag<'a>>) -> Option<Seq<char>> {
    match c {
        Some(t) => Some(t.name@),
        None => None,
    }
}

impl<'a> Tag<'a> {
    pub open spec fn view(&self) -> TagView {
        tag_view(self)
    }

    /// Reads an element at `pos`: its opening tag, then, unless it closes
    /// itself, its content up to its own closing tag, up to a closing tag
    /// that names another element (left unread), or up to the end of the
    /// input. The position returned is after what was read.
    pub fn parse(src: &'a [char], pos: usize) -> (r: Result<(Tag<'a>, usize), ParseError>)
        requires
            pos <= src@.len(),
        ensures
            match r {
                Ok((t, e)) => spec_tag(src@, pos as int) == Ok::<(TagView, int), Failure>((t.view(), e as int))
                    && pos < e <= src@.len(),
                Err(err) => spec_tag(src@, pos as int) == Err::<(TagView, int), Failure>(err.failure()),
            },
        decreases src@.len() - pos,
    {
        let (opening_tag, j0) = match OpeningTag::parse(src, pos) {
            Ok(x) => x,
            Err(err) => {
                return Err(err.context("expected opening tag"));
            },
        };
        let mut content: Vec<TagContent<'a>> = Vec::new();
        if opening_tag.is_self_closing() {
            let t = Tag { opening_tag, content, closing_tag: None };
            proof {
                lemma_contents_view(&t, 0);
                assert(t.content@.subrange(0, 0).map_values(|c: TagContent<'a>| content_view(&c)) =~= Seq::<ContentView>::empty());
            }
            return Ok((t, j0));
        }
        let ghost name = opening_tag.name@;
        let mut closing_tag: Option<ClosingTag<'a>> = None;
        let mut j = j0;
        loop
            invariant_except_break
                closing_tag is None,
                spec_content(src@, name, j0 as int) == prepend_content(
                    entries_view(content@),
                    spec_content(src@, name, j as int),
                ),
            invariant
                pos < j0 <= j <= src@.len(),
                spec_opening_tag(src@, pos as int) == Ok::<(OpeningTagView, int), Failure>(
                    (opening_tag@, j0 as int),
                ),
                !opening_tag@.self_closing,
                name == opening_tag@.name,
            ensures
                pos < j <= src@.len(),
                spec_content(src@, name, j0 as int) == Ok::<(Seq<ContentView>, Option<Seq<char>>, int), Failure>(
                    (entries_view(content@), closing_view(closing_tag), j as int),
                ),
            decreases src@.len() - j,
        {
            let ghost before = entries_view(content@);
            match ClosingTag::parse(src, j) {
                Ok((ct, e)) => {
                    proof {
                        assert(before + Seq::<ContentView>::empty() =~= before);
                    }
                    if same_text(opening_tag.name.content(), ct.name.content()) {
                        closing_tag = Some(ct);
                        j = e;
                    }
                    break;
                },
                Err(err) => {
                    if err.kind == ErrorKind::Hard {
                        return Err(err.context("expected closing tag"));
                    }
                },
            }
            if starts_markup_exec(src, j) {
                match Tag::parse(src, j) {
                    Ok((t, k)) => {
                        let ghost item = ContentView::Tag(t.view());
                        proof {
                            match spec_content(src@, name, k as int) {
                                Ok((c, cl, e)) => {
                                    assert(before + (seq![item] + c) =~= before.push(item) + c);
                                },
                                Err(f) => {},
                            }
                        }
                        content.push(TagContent::Tag(t));
                        proof {
                            assert(entries_view(content@) =~= before.push(item));
                        }
                        j = k;
                    },
                    Err(err) => {
                        return Err(err.context("expected tag"));
                    },
                }
            } else {
                let k = text_end_exec(src, j);
                if k == j {
                    proof {
                        assert(before + Seq::<ContentView>::empty() =~= before);
                    }
                    break;
                }
                let text = vstd::slice::slice_subrange(src, j, k);
                let ghost item = ContentView::Text(src@.subrange(j as int, k as int));
                proof {
                    match spec_content(src@, name, k as int) {
                        Ok((c, cl, e)) => {
                            assert(before + (seq![item] + c) =~= before.push(item) + c);
                        },
                        Err(f) => {},
                    }
                }
                content.push(TagContent::Text(Cow::Borrowed(text)));
                proof {
                    assert(entries_view(content@) =~= before.push(item));
                }
                j = k;
            }
        }
        let t = Tag { opening_tag, content, closing_tag };
        proof {
            lemma_contents_view(&t, t.content@.len() as int);
            assert(t.content@.subrange(0, t.content@.len() as int) =~= t.content@);
        }
        Ok((t, j))
    }
}

/// One content entry at `j`: a nested element where the next character that
/// is not whitespace is a `<`, else the run of text up to the next `<`,
/// whitespace included; at the end of the input, a mismatch.
pub open spec fn spec_content_entry(s: Seq<char>, j: int) -> Result<(ContentView, int), Failure> {
    if starts_markup(s, j) {
        match spec_tag(s, j) {
            Ok((t, e)) => Ok((ContentView::Tag(t), e)),
            Err(f) => Err(f),
        }
    } else if j < text_end(s, j) {
        Ok((ContentView::Text(s.subrange(j, text_end(s, j))), text_end(s, j)))
    } else {
        Err(Failure { kind: ErrorKind::Mismatch, at: j })
    }
}

impl<'a> TagContent<'a> {
    /// Reads one content entry at `pos`.
    pub fn parse(src: &'a [char], pos: usize) -> (r: Result<(TagContent<'a>, usize), ParseError>)
        requires
            pos <= src@.len(),
        ensures
            match r {
                Ok((c, e)) => spec_content_entry(src@, pos as int) == Ok::<(ContentView, int), Failure>(
                    (content_view(&c), e as int),
                ) && pos < e <= src@.len(),
                Err(err) => spec_content_entry(src@, pos as int) == Err::<(ContentView, int), Failure>(
                    err.failure(),
                ),
            },
    {
        if starts_markup_exec(src, pos) {
            match Tag::parse(src, pos) {
                Ok((t, e)) => Ok((TagContent::Tag(t), e)),
                Err(err) => Err(err.context("expected tag")),
            }
        } else {
            let k = text_end_exec(src, pos);
            if k == pos {
                return Err(ParseError::new(ErrorKind::Mismatch, pos, pos, "expected text or a tag"));
            }
            Ok((TagContent::Text(Cow::Borrowed(vstd::slice::slice_subrange(src, pos, k))), k))
        }
    }

    /// The text of a text entry.
    pub fn text(&self) -> (r: Option<&[char]>)
        ensures
            match content_view(self) {
                ContentView::Text(t) => r matches Some(x) && x@ == t,
                ContentView::Tag(_) => r is None,
            },
    {
        match self {
            TagContent::Text(t) => match t {
                Cow::Borrowed(b) => Some(b),
                Cow::Owned(o) => Some(o.as_slice()),
            },
            TagContent::Tag(_) => None,
        }
    }
}

/// An element whose opening tag closes itself has no content and no closing
/// tag, and ends where its opening tag ends.
pub proof fn lemma_self_closing_tag(s: Seq<char>, i: int)
    requires
        spec_opening_tag(s, i) is Ok,
        spec_opening_tag(s, i)->Ok_0.0.self_closing,
    ensures
        spec_tag(s, i) is Ok,
        spec_tag(s, i)->Ok_0.0.content.len() == 0,
        spec_tag(s, i)->Ok_0.0.closing is None,
        spec_tag(s, i)->Ok_0.1 == spec_opening_tag(s, i)->Ok_0.1,
{
}

/// A closing tag that names the element ends its content and is kept; one
/// that names another element ends it too and is left unread; either way
/// nothing more is read into the element.
pub proof fn lemma_closing_tag_ends_content(s: Seq<char>, name: Seq<char>, j: int)
    requires
        spec_closing_tag(s, j) is Ok,
    ensures
        ({
            let (n, e) = spec_closing_tag(s, j)->Ok_0;
            &&& n == name ==> spec_content(s, name, j) == Ok::<
                (Seq<ContentView>, Option<Seq<char>>, int),
                Failure,
            >((Seq::empty(), Some(n), e))
            &&& n != name ==> spec_content(s, name, j) == Ok::<
                (Seq<ContentView>, Option<Seq<char>>, int),
                Failure,
            >((Seq::empty(), None, j))
        }),
{
}

pub proof fn lemma_closing_tag_bounds(s: Seq<char>, j: int)
    requires
        0 <= j <= s.len(),
        spec_closing_tag(s, j) is Ok,
    ensures
        j < spec_closing_tag(s, j)->Ok_0.1 <= s.len(),
{
    lemma_token_advances(s, j, seq!['<', '/']);
    let k0 = spec_token(s, j, seq!['<', '/'])->Ok_0.1;
    lemma_ident_advances(s, k0);
    let k = spec_ident(s, k0)->Ok_0.1;
    lemma_token_advances(s, k, seq!['>']);
}

} // verus!
