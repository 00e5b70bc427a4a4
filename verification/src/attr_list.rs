//! Inline attribute lists: the `{: class1 class2 }` ... `{::}` directives
//! that wrap rendered content in a container element.

use vstd::prelude::*;
use vstd::string::StrSliceExecFns;
use crate::from_web_pub::serialize::name_le;
use crate::model::{Paragraph, ParagraphElement};
use crate::text::{
    drop_spaces, find_from, first_match, lemma_first_match, matches_at, push_str, skip_spaces,
    starts_with, to_chars, to_text, trim,
};

verus! {

/// Why an attribute list could not be read.
#[derive(Clone, Copy, Debug, PartialEq, Eq, Structural)]
pub enum ParseError {
    /// The list opens with `{: ` and no `}` follows.
    MissingClosingBrace,
}

impl ParseError {
    /// A description of the error for the user.
    pub fn message(&self) -> (s: &'static str)
        ensures
            s@ == "Missing closing '}'"@,
    {
        "Missing closing '}'"
    }
}

/// The attributes that a list gives to its container element.
#[derive(Debug)]
pub struct InlineAttributes {
    pub id: Option<String>,
    pub classes: Vec<String>,
    /// Further attributes: a mapping from names to values, held in the
    /// order of the names (see `wf`).
    pub attrs: Vec<(String, String)>,
}

/// The names of `attrs` stand in strictly rising order: none occurs
/// twice, and each comes before the next.
pub open spec fn keys_ordered(attrs: Seq<(Seq<char>, Seq<char>)>) -> bool {
    forall|i: int, j: int|
        0 <= i < j < attrs.len() ==> (#[trigger] attrs[i]).0 != (#[trigger] attrs[j]).0 && name_le(
            attrs[i].0,
            attrs[j].0,
        )
}

/// What an attribute list stands for.
#[derive(Debug)]
pub enum AttrTag {
    /// `{: classes }`: open a container with these attributes.
    Start(InlineAttributes),
    /// `{::}`: close the container.
    End,
}

/// The mathematical content of `InlineAttributes`.
pub struct AttributesView {
    pub id: Option<Seq<char>>,
    pub classes: Seq<Seq<char>>,
    pub attrs: Seq<(Seq<char>, Seq<char>)>,
}

/// The mathematical content of `AttrTag`.
pub enum AttrTagView {
    Start(AttributesView),
    End,
}

/// The texts of a sequence of strings.
pub open spec fn texts(v: Seq<String>) -> Seq<Seq<char>> {
    Seq::new(v.len(), |i: int| v[i]@)
}

/// The texts of a sequence of pairs of strings.
pub open spec fn pair_texts(v: Seq<(String, String)>) -> Seq<(Seq<char>, Seq<char>)> {
    Seq::new(v.len(), |i: int| (v[i].0@, v[i].1@))
}

impl View for InlineAttributes {
    type V = AttributesView;

    open spec fn view(&self) -> AttributesView {
        AttributesView {
            id: match self.id {
                Some(s) => Some(s@),
                None => None,
            },
            classes: texts(self.classes@),
            attrs: pair_texts(self.attrs@),
        }
    }
}

impl View for AttrTag {
    type V = AttrTagView;

    open spec fn view(&self) -> AttrTagView {
        match self {
            AttrTag::Start(a) => AttrTagView::Start(a@),
            AttrTag::End => AttrTagView::End,
        }
    }
}

/// The pieces of `s` between the occurrences of `sep`; one more than there
/// are occurrences, empty pieces included.
pub open spec fn split_on(s: Seq<char>, sep: char) -> Seq<Seq<char>>
    decreases s.len(),
{
    if s.len() == 0 {
        seq![Seq::<char>::empty()]
    } else {
        let before = split_on(s.drop_last(), sep);
        if s.last() == sep {
            before.push(Seq::empty())
        } else {
            before.drop_last().push(before.last().push(s.last()))
        }
    }
}

/// The pieces joined with `sep` between them.
pub open spec fn join(pieces: Seq<Seq<char>>, sep: char) -> Seq<char>
    decreases pieces.len(),
{
    if pieces.len() == 0 {
        Seq::empty()
    } else if pieces.len() == 1 {
        pieces[0]
    } else {
        join(pieces.drop_last(), sep).push(sep) + pieces.last()
    }
}

/// The markup of further attributes: each as ` name='value'`.
pub open spec fn pairs_markup(attrs: Seq<(Seq<char>, Seq<char>)>) -> Seq<char>
    decreases attrs.len(),
{
    if attrs.len() == 0 {
        Seq::empty()
    } else {
        pairs_markup(attrs.drop_last()) + seq![' '] + attrs.last().0 + "='"@ + attrs.last().1
            + seq!['\'']
    }
}

/// The markup of the attributes, as it follows the name in an opening tag:
/// the id, the classes joined by spaces, then the further attributes, each
/// preceded by a space and with its value in single quotes.
pub open spec fn attributes_markup(a: AttributesView) -> Seq<char> {
    let id = match a.id {
        Some(id) => " id='"@ + id + seq!['\''],
        None => Seq::empty(),
    };
    let classes = if a.classes.len() > 0 {
        " class='"@ + join(a.classes, ' ') + seq!['\'']
    } else {
        Seq::empty()
    };
    id + classes + pairs_markup(a.attrs)
}

/// What the attribute list at the start of `text` stands for, with the text
/// that follows it.
///
/// A text that opens with `{: ` holds a list up to the next `}`: its classes
/// are the pieces, between single spaces, of what stands between the two,
/// trimmed. A text that opens with `{::}` closes the container. Any other
/// text holds no list.
pub open spec fn parsed(text: Seq<char>) -> Result<Option<(AttrTagView, Seq<char>)>, ParseError> {
    if starts_with(text, "{: "@) {
        let body = text.skip("{: "@.len() as int);
        match first_match(body, "}"@) {
            Some(end) => Ok(
                Some(
                    (
                        AttrTagView::Start(
                            AttributesView {
                                id: None,
                                classes: split_on(trim(body.take(end)), ' '),
                                attrs: Seq::empty(),
                            },
                        ),
                        body.skip(end + "}"@.len()),
                    ),
                ),
            ),
            None => Err(ParseError::MissingClosingBrace),
        }
    } else if starts_with(text, "{::}"@) {
        Ok(Some((AttrTagView::End, text.skip("{::}"@.len() as int))))
    } else {
        Ok(None)
    }
}

/// The content of the first element of a paragraph, if that is a text run
/// with content.
pub open spec fn leading_text(para: Paragraph) -> Option<Seq<char>> {
    if para.elements@.len() > 0 {
        match para.elements@[0] {
            ParagraphElement::TextRun(run) => match run.content {
                Some(c) => Some(c@),
                None => None,
            },
            _ => None,
        }
    } else {
        None
    }
}

/// What the attribute list at the start of a paragraph stands for.
pub open spec fn paragraph_attr_tag(para: Paragraph) -> Result<
    Option<(AttrTagView, Seq<char>)>,
    ParseError,
> {
    match leading_text(para) {
        Some(text) => parsed(text),
        None => Ok(None),
    }
}

/// The view of a parse result.
pub open spec fn parse_view(r: Result<Option<(AttrTag, &str)>, ParseError>) -> Result<
    Option<(AttrTagView, Seq<char>)>,
    ParseError,
> {
    match r {
        Ok(Some((tag, rest))) => Ok(Some((tag@, rest@))),
        Ok(None) => Ok(None),
        Err(e) => Err(e),
    }
}

/// The pieces of `v[lo..hi]` between single spaces.
pub fn split_spaces(v: &Vec<char>, lo: usize, hi: usize) -> (pieces: Vec<String>)
    requires
        lo <= hi <= v.len(),
    ensures
        texts(pieces@) == split_on(v@.subrange(lo as int, hi as int), ' '),
{
    let mut pieces: Vec<String> = Vec::new();
    let mut cur: Vec<char> = Vec::new();
    let mut i: usize = lo;
    while i < hi
        invariant
            lo <= i <= hi <= v.len(),
            split_on(v@.subrange(lo as int, i as int), ' ') == texts(pieces@).push(cur@),
        decreases hi - i,
    {
        let ghost before = v@.subrange(lo as int, i as int);
        let ghost now = v@.subrange(lo as int, i + 1);
        assert(now.drop_last() == before);
        if v[i] == ' ' {
            let piece = to_text(&cur);
            let ghost old_pieces = pieces@;
            pieces.push(piece);
            cur = Vec::new();
            assert(texts(pieces@) == texts(old_pieces).push(piece@));
        } else {
            cur.push(v[i]);
            assert(texts(pieces@).push(cur@.drop_last()).drop_last() == texts(pieces@));
        }
        i += 1;
    }
    let piece = to_text(&cur);
    let ghost old_pieces = pieces@;
    pieces.push(piece);
    assert(texts(pieces@) == texts(old_pieces).push(piece@));
    pieces
}

impl AttrTag {
    /// Reads the attribute list at the start of a paragraph: that of the
    /// content of its first element, where that is a text run with content.
    pub fn parse_para<'a>(para: &'a Paragraph) -> (r: Result<
        Option<(AttrTag, &'a str)>,
        ParseError,
    >)
        ensures
            parse_view(r) == paragraph_attr_tag(*para),
            r matches Ok(Some((AttrTag::Start(attrs), _))) ==> attrs.wf(),
    {
        if para.elements.len() > 0 {
            if let ParagraphElement::TextRun(run) = &para.elements[0] {
                if let Some(content) = &run.content {
                    return AttrTag::parse(content.as_str());
                }
            }
        }
        Ok(None)
    }

    /// Reads the attribute list at the start of `text`.
    pub fn parse<'a>(text: &'a str) -> (r: Result<Option<(AttrTag, &'a str)>, ParseError>)
        ensures
            parse_view(r) == parsed(text@),
            r matches Ok(Some((AttrTag::Start(attrs), _))) ==> attrs.wf(),
    {
        let v = to_chars(text);
        let n: usize = v.len();
        let open = to_chars("{: ");
        let close = to_chars("{::}");
        let brace = to_chars("}");
        assert(v@.take(n as int) == v@);
        if matches_at(&v, 0, n, &open) {
            let start: usize = open.len();
            assert(v@.subrange(start as int, n as int) == v@.skip(start as int));
            match find_from(&v, start, n, &brace) {
                Some(end) => {
                    let ghost body = v@.skip(start as int);
                    proof {
                        lemma_first_match(body, brace@);
                    }
                    let a: usize = skip_spaces(&v, start, end);
                    let b: usize = drop_spaces(&v, a, end);
                    assert(v@.subrange(start as int, end as int) == body.take(end - start));
                    let classes = split_spaces(&v, a, b);
                    let attrs = InlineAttributes { id: None, classes, attrs: Vec::new() };
                    assert(pair_texts(attrs.attrs@) == Seq::<(Seq<char>, Seq<char>)>::empty());
                    let rest = text.substring_char(end + brace.len(), n);
                    assert(rest@ == body.skip(end - start + brace@.len()));
                    Ok(Some((AttrTag::Start(attrs), rest)))
                },
                None => Err(ParseError::MissingClosingBrace),
            }
        } else if matches_at(&v, 0, n, &close) {
            let rest = text.substring_char(close.len(), n);
            assert(rest@ == v@.skip(close.len() as int));
            Ok(Some((AttrTag::End, rest)))
        } else {
            Ok(None)
        }
    }
}

impl Default for InlineAttributes {
    /// No id, no classes and no further attributes.
    fn default() -> (r: Self)
        ensures
            r@ == (AttributesView { id: None, classes: Seq::empty(), attrs: Seq::empty() }),
            r.wf(),
    {
        let r = InlineAttributes { id: None, classes: Vec::new(), attrs: Vec::new() };
        assert(texts(r.classes@) == Seq::<Seq<char>>::empty());
        assert(pair_texts(r.attrs@) == Seq::<(Seq<char>, Seq<char>)>::empty());
        r
    }
}

impl InlineAttributes {
    /// The further attributes are a mapping in the order of its names.
    pub open spec fn wf(&self) -> bool {
        keys_ordered(pair_texts(self.attrs@))
    }

    /// The markup of the attributes, as it follows the name in an opening
    /// tag; the further attributes come in the order of their names.
    pub fn to_string(&self) -> (s: String)
        requires
            self.wf(),
        ensures
            s@ == attributes_markup(self@),
    {
        let mut out: Vec<char> = Vec::new();
        if let Some(id) = &self.id {
            push_str(&mut out, " id='");
            push_str(&mut out, id.as_str());
            out.push('\'');
        }
        if self.classes.len() > 0 {
            push_str(&mut out, " class='");
            let ghost head = out@;
            let mut i: usize = 0;
            while i < self.classes.len()
                invariant
                    i <= self.classes.len(),
                    out@ == head + join(texts(self.classes@).take(i as int), ' '),
                decreases self.classes.len() - i,
            {
                let ghost all = texts(self.classes@);
                assert(all.take(i + 1).drop_last() == all.take(i as int));
                if i > 0 {
                    out.push(' ');
                }
                push_str(&mut out, self.classes[i].as_str());
                i += 1;
            }
            assert(texts(self.classes@).take(self.classes.len() as int) == texts(self.classes@));
            out.push('\'');
        }
        let ghost head = out@;
        let mut k: usize = 0;
        while k < self.attrs.len()
            invariant
                k <= self.attrs.len(),
                out@ == head + pairs_markup(pair_texts(self.attrs@).take(k as int)),
            decreases self.attrs.len() - k,
        {
            let ghost all = pair_texts(self.attrs@);
            assert(all.take(k + 1).drop_last() == all.take(k as int));
            out.push(' ');
            push_str(&mut out, self.attrs[k].0.as_str());
            push_str(&mut out, "='");
            push_str(&mut out, self.attrs[k].1.as_str());
            out.push('\'');
            k += 1;
        }
        assert(pair_texts(self.attrs@).take(self.attrs.len() as int) == pair_texts(self.attrs@));
        to_text(&out)
    }
}

} // verus!
