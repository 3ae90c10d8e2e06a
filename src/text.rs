use vstd::prelude::*;
use crate::source::{is_ws, skip_ws, lemma_skip_ws_bounds};
use crate::html_ident::{spec_ident, ident_end, lemma_ident_end_bounds};
use crate::token::spec_token;
use crate::attribute::{spec_attribute, style_name};
use crate::opening_tag::{spec_attributes, spec_opening_tag};
use crate::tag::{starts_markup, spec_closing_tag, spec_content, spec_tag, text_end, lemma_text_end_bounds, ContentView, TagView};
use crate::html_lit_str::{decode_from, escape_at, quote_end, spec_raw_lit, spec_str_lit, lemma_quote_end_bounds};

verus! {

/// The position after the first `>` at or after `a` that stands outside
/// double quotes: where a piece of markup that is open at `a` ends.
pub open spec fn markup_end(s: Seq<char>, a: int) -> int
    decreases s.len() - a,
{
    if a < 0 || a >= s.len() {
        s.len() as int
    } else if s[a] == '>' {
        a + 1
    } else if s[a] == '"' {
        let q = quote_end(s, a + 1);
        if a < q < s.len() {
            markup_end(s, q + 1)
        } else {
            s.len() as int
        }
    } else {
        markup_end(s, a + 1)
    }
}

/// The characters of `s` from `a` up to `b` with the markup taken out: each
/// `<` drops everything up to the end of its markup.
pub open spec fn strip_markup(s: Seq<char>, a: int, b: int) -> Seq<char>
    decreases b - a,
{
    if a < 0 || a >= b || a >= s.len() {
        Seq::empty()
    } else if s[a] == '<' {
        let m = markup_end(s, a + 1);
        if a < m <= b {
            strip_markup(s, m, b)
        } else {
            Seq::empty()
        }
    } else {
        seq![s[a]] + strip_markup(s, a + 1, b)
    }
}

/// Characters that cannot end markup or open a quote change nothing of where
/// the markup ends.
pub proof fn lemma_markup_plain(s: Seq<char>, a: int, b: int)
    requires
        0 <= a <= b <= s.len(),
        forall|k: int| a <= k < b ==> #[trigger] s[k] != '>' && s[k] != '"',
    ensures
        markup_end(s, a) == markup_end(s, b),
    decreases b - a,
{
    if a < b {
        lemma_markup_plain(s, a + 1, b);
    }
}

pub proof fn lemma_markup_ident(s: Seq<char>, i: int)
    requires
        0 <= i <= s.len(),
        spec_ident(s, i) is Ok,
    ensures
        markup_end(s, i) == markup_end(s, spec_ident(s, i)->Ok_0.1),
{
    let p = skip_ws(s, i);
    lemma_skip_ws_bounds(s, i);
    lemma_ident_end_bounds(s, p);
    lemma_markup_plain(s, i, p);
    lemma_markup_plain(s, p, ident_end(s, p));
}

/// A successful decode meets no quote before the closing one.
pub proof fn lemma_decode_no_quote(s: Seq<char>, i: int)
    requires
        0 <= i,
        decode_from(s, i) is Ok,
    ensures
        i <= decode_from(s, i)->Ok_0.1 < s.len(),
        s[decode_from(s, i)->Ok_0.1] == '"',
        forall|k: int| i <= k < decode_from(s, i)->Ok_0.1 ==> #[trigger] s[k] != '"',
    decreases s.len() - i,
{
    if s[i] != '"' {
        if s[i] == '&' {
            let (c, n) = escape_at(s, i)->Some_0;
            lemma_decode_no_quote(s, i + n);
        } else {
            lemma_decode_no_quote(s, i + 1);
        }
    }
}

pub proof fn lemma_quote_end_at(s: Seq<char>, i: int, e: int)
    requires
        0 <= i <= e < s.len(),
        s[e] == '"',
        forall|k: int| i <= k < e ==> #[trigger] s[k] != '"',
    ensures
        quote_end(s, i) == e,
    decreases e - i,
{
    if i < e {
        lemma_quote_end_at(s, i + 1, e);
    }
}

pub proof fn lemma_markup_str_lit(s: Seq<char>, i: int)
    requires
        0 <= i <= s.len(),
        spec_str_lit(s, i) is Ok,
    ensures
        markup_end(s, i) == markup_end(s, spec_str_lit(s, i)->Ok_0.1),
{
    let p = skip_ws(s, i);
    lemma_skip_ws_bounds(s, i);
    lemma_markup_plain(s, i, p);
    lemma_decode_no_quote(s, p + 1);
    lemma_quote_end_at(s, p + 1, decode_from(s, p + 1)->Ok_0.1);
}

pub proof fn lemma_markup_raw_lit(s: Seq<char>, i: int)
    requires
        0 <= i <= s.len(),
        spec_raw_lit(s, i) is Ok,
    ensures
        markup_end(s, i) == markup_end(s, spec_raw_lit(s, i)->Ok_0.1),
{
    let p = skip_ws(s, i);
    lemma_skip_ws_bounds(s, i);
    lemma_markup_plain(s, i, p);
    lemma_quote_end_bounds(s, p + 1);
}

pub proof fn lemma_markup_attribute(s: Seq<char>, i: int)
    requires
        0 <= i <= s.len(),
        spec_attribute(s, i) is Ok,
    ensures
        markup_end(s, i) == markup_end(s, spec_attribute(s, i)->Ok_0.1),
{
    let (n, j) = spec_ident(s, i)->Ok_0;
    crate::html_ident::lemma_ident_advances(s, i);
    lemma_markup_ident(s, i);
    let k = skip_ws(s, j);
    lemma_skip_ws_bounds(s, j);
    lemma_markup_plain(s, j, k);
    lemma_markup_plain(s, k, k + 1);
    if n == style_name() {
        lemma_markup_raw_lit(s, k + 1);
    } else {
        lemma_markup_str_lit(s, k + 1);
    }
}

pub proof fn lemma_markup_attributes(s: Seq<char>, i: int)
    requires
        0 <= i <= s.len(),
        spec_attributes(s, i) is Ok,
    ensures
        markup_end(s, i) == markup_end(s, spec_attributes(s, i)->Ok_0.1),
    decreases s.len() - i,
{
    if spec_attribute(s, i) is Ok {
        let e = spec_attribute(s, i)->Ok_0.1;
        crate::attribute::lemma_attribute_advances(s, i);
        lemma_markup_attribute(s, i);
        lemma_markup_attributes(s, e);
    }
}

/// Where a token stands after whitespace, its first character is there.
pub proof fn lemma_token_chars(s: Seq<char>, i: int, tok: Seq<char>)
    requires
        0 <= i <= s.len(),
        spec_token(s, i, tok) is Ok,
    ensures
        forall|m: int| 0 <= m < tok.len() ==> #[trigger] s[skip_ws(s, i) + m] == tok[m],
        i <= skip_ws(s, i),
        skip_ws(s, i) + tok.len() <= s.len(),
        markup_end(s, i) == markup_end(s, skip_ws(s, i)),
{
    let p = skip_ws(s, i);
    lemma_skip_ws_bounds(s, i);
    lemma_markup_plain(s, i, p);
    assert forall|m: int| 0 <= m < tok.len() implies #[trigger] s[p + m] == tok[m] by {
        assert(s.subrange(p, p + tok.len())[m] == s[p + m]);
    }
}

/// An opening tag is one piece of markup: it ends where its `>` ends it.
pub proof fn lemma_markup_opening_tag(s: Seq<char>, i: int)
    requires
        0 <= i < s.len(),
        s[i] == '<',
        spec_opening_tag(s, i) is Ok,
    ensures
        markup_end(s, i + 1) == spec_opening_tag(s, i)->Ok_0.1,
{
    lemma_token_chars(s, i, seq!['<']);
    assert(skip_ws(s, i) == i);
    let (n, k) = spec_ident(s, i + 1)->Ok_0;
    lemma_markup_ident(s, i + 1);
    crate::html_ident::lemma_ident_advances(s, i + 1);
    let m = spec_attributes(s, k)->Ok_0.1;
    lemma_markup_attributes(s, k);
    crate::opening_tag::lemma_attributes_bounds(s, k);
    let p = skip_ws(s, m);
    if spec_token(s, m, seq!['/', '>']) is Ok {
        lemma_token_chars(s, m, seq!['/', '>']);
        assert(s[p + 0] == '/' && s[p + 1] == '>');
        lemma_markup_plain(s, p, p + 1);
    } else {
        lemma_token_chars(s, m, seq!['>']);
        assert(s[p + 0] == '>');
    }
}

/// A closing tag that starts right at `j` is one piece of markup.
pub proof fn lemma_markup_closing_tag(s: Seq<char>, j: int)
    requires
        0 <= j < s.len(),
        s[j] == '<',
        spec_closing_tag(s, j) is Ok,
    ensures
        markup_end(s, j + 1) == spec_closing_tag(s, j)->Ok_0.1,
{
    lemma_token_chars(s, j, seq!['<', '/']);
    assert(skip_ws(s, j) == j);
    assert(s[j + 1] == '/');
    lemma_markup_plain(s, j + 1, j + 2);
    let (n, k) = spec_ident(s, j + 2)->Ok_0;
    lemma_markup_ident(s, j + 2);
    crate::html_ident::lemma_ident_advances(s, j + 2);
    lemma_token_chars(s, k, seq!['>']);
    assert(s[skip_ws(s, k) + 0] == '>');
}

/// The text of a content entry: a run's own text, or all the text inside a
/// nested element, in document order.
pub open spec fn entry_text(c: ContentView) -> Seq<char>
    decreases c,
{
    match c {
        ContentView::Text(t) => t,
        ContentView::Tag(t) => contents_text(t.content),
    }
}

/// The text of a list of content entries, in document order.
pub open spec fn contents_text(cs: Seq<ContentView>) -> Seq<char>
    decreases cs,
{
    if cs.len() == 0 {
        Seq::empty()
    } else {
        entry_text(cs[0]) + contents_text(cs.subrange(1, cs.len() as int))
    }
}

/// All the text inside an element, in document order.
pub open spec fn tag_text(t: TagView) -> Seq<char> {
    contents_text(t.content)
}

/// No whitespace stands directly before a `<` in `s`.
pub open spec fn no_space_before_markup(s: Seq<char>) -> bool {
    forall|k: int| 1 <= k < s.len() && #[trigger] s[k] == '<' ==> !is_ws(s[k - 1])
}

pub proof fn lemma_markup_end_bounds(s: Seq<char>, a: int)
    requires
        0 <= a <= s.len(),
    ensures
        a <= markup_end(s, a) <= s.len(),
    decreases s.len() - a,
{
    if a < s.len() && s[a] != '>' {
        if s[a] == '"' {
            let q = quote_end(s, a + 1);
            if a < q < s.len() {
                lemma_markup_end_bounds(s, q + 1);
            }
        } else {
            lemma_markup_end_bounds(s, a + 1);
        }
    }
}

/// A run without `<` passes into the stripped text unchanged.
pub proof fn lemma_strip_text(s: Seq<char>, j: int, k: int, b: int)
    requires
        0 <= j <= k <= b,
        k <= s.len(),
        forall|m: int| j <= m < k ==> #[trigger] s[m] != '<',
    ensures
        strip_markup(s, j, b) == s.subrange(j, k) + strip_markup(s, k, b),
    decreases k - j,
{
    if j < k {
        lemma_strip_text(s, j + 1, k, b);
        assert(seq![s[j]] + (s.subrange(j + 1, k) + strip_markup(s, k, b)) =~= s.subrange(j, k)
            + strip_markup(s, k, b));
    } else {
        assert(s.subrange(j, k) + strip_markup(s, k, b) =~= strip_markup(s, k, b));
    }
}

pub proof fn lemma_contents_text_cons(x: ContentView, rest: Seq<ContentView>)
    ensures
        contents_text(seq![x] + rest) == entry_text(x) + contents_text(rest),
{
    let cs = seq![x] + rest;
    assert(cs[0] == x);
    assert(cs.subrange(1, cs.len() as int) =~= rest);
}

pub proof fn lemma_content_text(s: Seq<char>, name: Seq<char>, j: int, b: int)
    requires
        0 <= j <= s.len(),
        no_space_before_markup(s),
        spec_content(s, name, j) is Ok,
        spec_content(s, name, j)->Ok_0.2 <= b,
    ensures
        j <= spec_content(s, name, j)->Ok_0.2,
        strip_markup(s, j, b) == contents_text(spec_content(s, name, j)->Ok_0.0) + strip_markup(
            s,
            spec_content(s, name, j)->Ok_0.2,
            b,
        ),
    decreases s.len() - j, 1int,
{
    let (c, cl, e) = spec_content(s, name, j)->Ok_0;
    assert(contents_text(Seq::<ContentView>::empty()) == Seq::<char>::empty());
    match spec_closing_tag(s, j) {
        Ok((n, ce)) => {
            if n == name {
                let p = skip_ws(s, j);
                lemma_token_chars(s, j, seq!['<', '/']);
                assert(s[p + 0] == '<' && s[p + 1] == '/');
                lemma_skip_ws_bounds(s, j);
                if p > j {
                    assert(is_ws(s[p - 1]));
                    assert(s[p] == '<');
                    assert(false);
                }
                crate::tag::lemma_closing_tag_bounds(s, j);
                lemma_markup_closing_tag(s, j);
            }
            assert(Seq::<char>::empty() + strip_markup(s, e, b) =~= strip_markup(s, e, b));
        },
        Err(f) => {
            if starts_markup(s, j) {
                lemma_skip_ws_bounds(s, j);
                if skip_ws(s, j) > j {
                    assert(is_ws(s[skip_ws(s, j) - 1]));
                    assert(false);
                }
                let (t, k) = spec_tag(s, j)->Ok_0;
                lemma_content_text(s, name, k, b);
                lemma_tag_text(s, j, b);
                let rest = spec_content(s, name, k)->Ok_0.0;
                lemma_contents_text_cons(ContentView::Tag(t), rest);
                assert(c == seq![ContentView::Tag(t)] + rest);
                assert(contents_text(t.content) + (contents_text(rest) + strip_markup(s, e, b))
                    =~= (contents_text(t.content) + contents_text(rest)) + strip_markup(s, e, b));
            } else {
                let k = text_end(s, j);
                lemma_text_end_bounds(s, j);
                if j < k <= s.len() {
                    lemma_content_text(s, name, k, b);
                    lemma_strip_text(s, j, k, b);
                    let rest = spec_content(s, name, k)->Ok_0.0;
                    lemma_contents_text_cons(ContentView::Text(s.subrange(j, k)), rest);
                    assert(s.subrange(j, k) + (contents_text(rest) + strip_markup(s, e, b))
                        =~= (s.subrange(j, k) + contents_text(rest)) + strip_markup(s, e, b));
                } else {
                    assert(Seq::<char>::empty() + strip_markup(s, e, b) =~= strip_markup(s, e, b));
                }
            }
        },
    }
}

pub proof fn lemma_tag_text(s: Seq<char>, i: int, b: int)
    requires
        0 <= i < s.len(),
        s[i] == '<',
        no_space_before_markup(s),
        spec_tag(s, i) is Ok,
        spec_tag(s, i)->Ok_0.1 <= b,
    ensures
        i < spec_tag(s, i)->Ok_0.1,
        strip_markup(s, i, b) == tag_text(spec_tag(s, i)->Ok_0.0) + strip_markup(
            s,
            spec_tag(s, i)->Ok_0.1,
            b,
        ),
    decreases s.len() - i, 0int,
{
    let (o, j0) = spec_opening_tag(s, i)->Ok_0;
    lemma_markup_opening_tag(s, i);
    lemma_markup_end_bounds(s, i + 1);
    let (t, e) = spec_tag(s, i)->Ok_0;
    if o.self_closing {
        assert(contents_text(Seq::<ContentView>::empty()) == Seq::<char>::empty());
        assert(Seq::<char>::empty() + strip_markup(s, e, b) =~= strip_markup(s, e, b));
    } else {
        lemma_content_text(s, o.name, j0, b);
    }
}

/// Round trip: the text of a parsed element, read in document order through
/// all nested elements, is exactly the source that the element spans with
/// its markup taken out. This holds of every input in which no whitespace
/// stands directly before a `<`: whitespace that only separates two pieces of
/// markup is skipped, so it is not part of any text run.
pub proof fn lemma_text_round_trip(s: Seq<char>, i: int)
    requires
        0 <= i <= s.len(),
        no_space_before_markup(s),
        spec_tag(s, i) is Ok,
    ensures
        tag_text(spec_tag(s, i)->Ok_0.0) == strip_markup(
            s,
            skip_ws(s, i),
            spec_tag(s, i)->Ok_0.1,
        ),
{
    let p = skip_ws(s, i);
    lemma_skip_ws_bounds(s, i);
    lemma_token_chars(s, i, seq!['<']);
    assert(s[p + 0] == '<');
    assert(skip_ws(s, p) == p);
    assert(spec_token(s, p, seq!['<']) == spec_token(s, i, seq!['<']));
    assert(spec_opening_tag(s, p) == spec_opening_tag(s, i));
    let (o, j0) = spec_opening_tag(s, i)->Ok_0;
    lemma_markup_opening_tag(s, p);
    lemma_markup_end_bounds(s, p + 1);
    assert(spec_tag(s, p) == spec_tag(s, i));
    let e = spec_tag(s, i)->Ok_0.1;
    lemma_tag_text(s, p, e);
    assert(tag_text(spec_tag(s, i)->Ok_0.0) + Seq::<char>::empty() =~= tag_text(spec_tag(s, i)->Ok_0.0));
}

} // verus!
