//! Markup events: what the renderer emits, and how it becomes text.
//!
//! A rendering is a sequence of tokens. Its text is obtained by `emit`; its
//! nesting is judged by `stack_after`, which replays the opening and closing
//! tags on a stack.

use vstd::prelude::*;

verus! {

/// The elements that the renderer opens and closes.
#[derive(Clone, Copy, Debug, PartialEq, Eq, Structural)]
pub enum Tag {
    Html,
    Head,
    Title,
    Body,
    Div,
    Ul,
    Li,
    P,
    H1,
    H2,
    H3,
    H4,
    A,
    Span,
    Strong,
    Em,
    Del,
    Sup,
    Sub,
    Table,
    Tbody,
    Tr,
    Td,
}

impl Tag {
    /// The name of the element in markup.
    pub open spec fn name(self) -> Seq<char> {
        match self {
            Tag::Html => "html"@,
            Tag::Head => "head"@,
            Tag::Title => "title"@,
            Tag::Body => "body"@,
            Tag::Div => "div"@,
            Tag::Ul => "ul"@,
            Tag::Li => "li"@,
            Tag::P => "p"@,
            Tag::H1 => "h1"@,
            Tag::H2 => "h2"@,
            Tag::H3 => "h3"@,
            Tag::H4 => "h4"@,
            Tag::A => "a"@,
            Tag::Span => "span"@,
            Tag::Strong => "strong"@,
            Tag::Em => "em"@,
            Tag::Del => "del"@,
            Tag::Sup => "sup"@,
            Tag::Sub => "sub"@,
            Tag::Table => "table"@,
            Tag::Tbody => "tbody"@,
            Tag::Tr => "tr"@,
            Tag::Td => "td"@,
        }
    }

    /// The name of the element in markup.
    pub fn as_str(self) -> (s: &'static str)
        ensures
            s@ == self.name(),
    {
        match self {
            Tag::Html => "html",
            Tag::Head => "head",
            Tag::Title => "title",
            Tag::Body => "body",
            Tag::Div => "div",
            Tag::Ul => "ul",
            Tag::Li => "li",
            Tag::P => "p",
            Tag::H1 => "h1",
            Tag::H2 => "h2",
            Tag::H3 => "h3",
            Tag::H4 => "h4",
            Tag::A => "a",
            Tag::Span => "span",
            Tag::Strong => "strong",
            Tag::Em => "em",
            Tag::Del => "del",
            Tag::Sup => "sup",
            Tag::Sub => "sub",
            Tag::Table => "table",
            Tag::Tbody => "tbody",
            Tag::Tr => "tr",
            Tag::Td => "td",
        }
    }
}

/// One markup event.
pub enum Token {
    /// An opening tag; `attrs` is the text between the name and `>`.
    Open { tag: Tag, attrs: Seq<char> },
    /// A closing tag.
    Close { tag: Tag },
    /// Text written as it stands: escaped content, void elements, directives.
    Text { chars: Seq<char> },
    /// A line break, unless the output already ends with one.
    Break,
}

/// The text of an opening tag.
pub open spec fn open_markup(tag: Tag, attrs: Seq<char>) -> Seq<char> {
    seq!['<'] + tag.name() + attrs + seq!['>']
}

/// The text of a closing tag.
pub open spec fn close_markup(tag: Tag) -> Seq<char> {
    seq!['<', '/'] + tag.name() + seq!['>']
}

/// The output `out` with a line break added unless it already ends with one.
pub open spec fn with_break(out: Seq<char>) -> Seq<char> {
    if out.len() > 0 && out.last() == '\n' {
        out
    } else {
        out.push('\n')
    }
}

/// The output once `t` has been written after `out`.
pub open spec fn emit_token(out: Seq<char>, t: Token) -> Seq<char> {
    match t {
        Token::Open { tag, attrs } => out + open_markup(tag, attrs),
        Token::Close { tag } => out + close_markup(tag),
        Token::Text { chars } => out + chars,
        Token::Break => with_break(out),
    }
}

/// The output once the tokens `ts` have been written, in order, after `out`.
pub open spec fn emit(out: Seq<char>, ts: Seq<Token>) -> Seq<char>
    decreases ts.len(),
{
    if ts.len() == 0 {
        out
    } else {
        emit_token(emit(out, ts.drop_last()), ts.last())
    }
}

/// The stack of open elements once `t` has been seen with the stack `st`;
/// `None` where `t` closes an element that is not the innermost open one.
pub open spec fn stack_step(st: Seq<Tag>, t: Token) -> Option<Seq<Tag>> {
    match t {
        Token::Open { tag, attrs } => Some(st.push(tag)),
        Token::Close { tag } => if st.len() > 0 && st.last() == tag {
            Some(st.drop_last())
        } else {
            None
        },
        _ => Some(st),
    }
}

/// The stack of open elements once the tokens `ts` have been seen, in
/// order, starting from the stack `st`.
pub open spec fn stack_after(st: Seq<Tag>, ts: Seq<Token>) -> Option<Seq<Tag>>
    decreases ts.len(),
{
    if ts.len() == 0 {
        Some(st)
    } else {
        match stack_after(st, ts.drop_last()) {
            Some(s) => stack_step(s, ts.last()),
            None => None,
        }
    }
}

/// Every element that `ts` opens is closed, innermost first, and nothing
/// else is closed.
pub open spec fn well_nested(ts: Seq<Token>) -> bool {
    stack_after(Seq::empty(), ts) == Some(Seq::<Tag>::empty())
}

} // verus!
