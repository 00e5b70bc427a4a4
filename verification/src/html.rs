//! Consumers of markup events: start of an element, text, end of an
//! element.
//!
//! `HtmlSerializer` writes the events as text, `DevNull` drops them, and a
//! consumer may hand them on to another one.

use vstd::prelude::*;
use crate::escape::{escaped, push_escaped};
use crate::text::{chars_eq, push_str, to_chars, to_text};

verus! {

/// Why a consumer refused an event.
#[derive(Clone, Copy, Debug, PartialEq, Eq, Structural)]
pub enum HtmlError {
    /// An `img` element has no `src` attribute.
    MissingSrc,
    /// An `img` element has no `id` attribute.
    MissingId,
}

impl HtmlError {
    /// A description of the error for the user.
    pub fn message(&self) -> (s: &'static str)
        ensures
            s@ == match self {
                HtmlError::MissingSrc => "<img> tag with no 'src' attribute"@,
                HtmlError::MissingId => "<img> tag with no 'id' attribute"@,
            },
    {
        match self {
            HtmlError::MissingSrc => "<img> tag with no 'src' attribute",
            HtmlError::MissingId => "<img> tag with no 'id' attribute",
        }
    }
}

/// The texts of a list of strings.
pub open spec fn str_texts(v: Seq<&str>) -> Seq<Seq<char>> {
    Seq::new(v.len(), |i: int| v[i]@)
}

/// The texts of a list of pairs of strings.
pub open spec fn str_pair_texts(v: Seq<(&str, &str)>) -> Seq<(Seq<char>, Seq<char>)> {
    Seq::new(v.len(), |i: int| (v[i].0@, v[i].1@))
}

/// A consumer of markup events. Each method takes the consumer from one
/// state to the next; the relations say which steps an event allows, and
/// with which errors the consumer may refuse an event.
pub trait HtmlConsumer: Sized {
    /// `after` is reached from `self` by the start or the end of the document.
    spec fn framed(&self, after: &Self) -> bool;

    /// `after` is reached from `self` by the start of an element.
    spec fn started(
        &self,
        after: &Self,
        name: Seq<char>,
        classes: Seq<Seq<char>>,
        style: Seq<(Seq<char>, Seq<char>)>,
        attrs: Seq<(Seq<char>, Seq<char>)>,
    ) -> bool;

    /// `after` is reached from `self` by a text.
    spec fn texted(&self, after: &Self, text: Seq<char>) -> bool;

    /// `after` is reached from `self` by the end of an element.
    spec fn ended(&self, after: &Self, name: Seq<char>) -> bool;

    /// The consumer may refuse the start of the document with the error `e`.
    spec fn start_refused(&self, e: HtmlError) -> bool;

    /// The consumer may refuse the start of an element with the error `e`.
    spec fn element_refused(
        &self,
        name: Seq<char>,
        classes: Seq<Seq<char>>,
        style: Seq<(Seq<char>, Seq<char>)>,
        attrs: Seq<(Seq<char>, Seq<char>)>,
        e: HtmlError,
    ) -> bool;

    /// The consumer may refuse the text `text` with the error `e`.
    spec fn text_refused(&self, text: Seq<char>, e: HtmlError) -> bool;

    /// The consumer may refuse the end of the element `name` with the error `e`.
    spec fn end_refused(&self, name: Seq<char>, e: HtmlError) -> bool;

    /// The consumer may refuse the end of the document with the error `e`.
    spec fn finish_refused(&self, e: HtmlError) -> bool;

    fn start_document(&mut self) -> (r: Result<(), HtmlError>)
        ensures
            r is Ok ==> old(self).framed(final(self)),
            r matches Err(e) ==> old(self).start_refused(e),
    ;

    fn start_element(
        &mut self,
        name: &str,
        classes: Vec<&str>,
        style: Vec<(&str, &str)>,
        attrs: Vec<(&str, &str)>,
    ) -> (r: Result<(), HtmlError>)
        ensures
            r is Ok ==> old(self).started(
                final(self),
                name@,
                str_texts(classes@),
                str_pair_texts(style@),
                str_pair_texts(attrs@),
            ),
            r matches Err(e) ==> old(self).element_refused(
                name@,
                str_texts(classes@),
                str_pair_texts(style@),
                str_pair_texts(attrs@),
                e,
            ),
    ;

    fn text(&mut self, text: &str) -> (r: Result<(), HtmlError>)
        ensures
            r is Ok ==> old(self).texted(final(self), text@),
            r matches Err(e) ==> old(self).text_refused(text@, e),
    ;

    fn end_element(&mut self, name: &str) -> (r: Result<(), HtmlError>)
        ensures
            r is Ok ==> old(self).ended(final(self), name@),
            r matches Err(e) ==> old(self).end_refused(name@, e),
    ;

    fn end_document(&mut self) -> (r: Result<(), HtmlError>)
        ensures
            r is Ok ==> old(self).framed(final(self)),
            r matches Err(e) ==> old(self).finish_refused(e),
    ;
}

/// The consumer that drops every event.
#[derive(Clone, Copy, Debug)]
pub struct DevNull;

impl HtmlConsumer for DevNull {
    open spec fn framed(&self, after: &Self) -> bool {
        true
    }

    open spec fn started(
        &self,
        after: &Self,
        name: Seq<char>,
        classes: Seq<Seq<char>>,
        style: Seq<(Seq<char>, Seq<char>)>,
        attrs: Seq<(Seq<char>, Seq<char>)>,
    ) -> bool {
        true
    }

    open spec fn texted(&self, after: &Self, text: Seq<char>) -> bool {
        true
    }

    open spec fn ended(&self, after: &Self, name: Seq<char>) -> bool {
        true
    }

    open spec fn start_refused(&self, e: HtmlError) -> bool {
        false
    }

    open spec fn element_refused(
        &self,
        name: Seq<char>,
        classes: Seq<Seq<char>>,
        style: Seq<(Seq<char>, Seq<char>)>,
        attrs: Seq<(Seq<char>, Seq<char>)>,
        e: HtmlError,
    ) -> bool {
        false
    }

    open spec fn text_refused(&self, text: Seq<char>, e: HtmlError) -> bool {
        false
    }

    open spec fn end_refused(&self, name: Seq<char>, e: HtmlError) -> bool {
        false
    }

    open spec fn finish_refused(&self, e: HtmlError) -> bool {
        false
    }

    fn start_document(&mut self) -> (r: Result<(), HtmlError>)
        ensures
            r is Ok,
    {
        Ok(())
    }

    fn start_element(
        &mut self,
        name: &str,
        classes: Vec<&str>,
        style: Vec<(&str, &str)>,
        attrs: Vec<(&str, &str)>,
    ) -> (r: Result<(), HtmlError>)
        ensures
            r is Ok,
    {
        Ok(())
    }

    fn text(&mut self, text: &str) -> (r: Result<(), HtmlError>)
        ensures
            r is Ok,
    {
        Ok(())
    }

    fn end_element(&mut self, name: &str) -> (r: Result<(), HtmlError>)
        ensures
            r is Ok,
    {
        Ok(())
    }

    fn end_document(&mut self) -> (r: Result<(), HtmlError>)
        ensures
            r is Ok,
    {
        Ok(())
    }
}

/// Appends a newline to `writer`.
pub fn nl(writer: &mut Vec<char>)
    ensures
        final(writer)@ == old(writer)@.push('\n'),
{
    writer.push('\n');
}

/// Appends the escaped form of `text` to `writer`: as an attribute value
/// where `attr_mode` holds, as content otherwise.
pub fn write_escaped(writer: &mut Vec<char>, text: &str, attr_mode: bool)
    ensures
        final(writer)@ == old(writer)@ + escaped(text@, attr_mode),
{
    let v = to_chars(text);
    push_escaped(writer, &v, attr_mode);
}

/// Whether an element of this name stands on lines of its own.
pub open spec fn block_tag(name: Seq<char>) -> bool {
    name == "body"@ || name == "head"@ || name == "div"@ || name == "ul"@ || name == "table"@
        || name == "td"@ || name == "p"@ || name == "li"@ || name == "hr"@
}

/// Whether an element of this name has no content and no closing tag.
pub open spec fn empty_tag(name: Seq<char>) -> bool {
    name == "img"@ || name == "br"@ || name == "hr"@
}

/// Whether an element of this name stands on lines of its own.
pub fn is_block_tag(name: &str) -> (r: bool)
    ensures
        r == block_tag(name@),
{
    let n = to_chars(name);
    chars_eq(&n, "body") || chars_eq(&n, "head") || chars_eq(&n, "div") || chars_eq(&n, "ul")
        || chars_eq(&n, "table") || chars_eq(&n, "td") || chars_eq(&n, "p") || chars_eq(&n, "li")
        || chars_eq(&n, "hr")
}

/// Whether an element of this name has no content and no closing tag.
pub fn is_empty_tag(name: &str) -> (r: bool)
    ensures
        r == empty_tag(name@),
{
    let n = to_chars(name);
    chars_eq(&n, "img") || chars_eq(&n, "br") || chars_eq(&n, "hr")
}

/// A newline where `on` holds, nothing otherwise.
pub open spec fn line_if(on: bool) -> Seq<char> {
    if on {
        seq!['\n']
    } else {
        Seq::empty()
    }
}

/// The classes as they are written: each class escaped, single spaces
/// between them.
pub open spec fn classes_written(classes: Seq<Seq<char>>) -> Seq<char>
    decreases classes.len(),
{
    if classes.len() == 0 {
        Seq::empty()
    } else if classes.len() == 1 {
        escaped(classes[0], true)
    } else {
        classes_written(classes.drop_last()) + seq![' '] + escaped(classes.last(), true)
    }
}

/// The class attribute; nothing where there are no classes.
pub open spec fn class_attr(classes: Seq<Seq<char>>) -> Seq<char> {
    if classes.len() == 0 {
        Seq::empty()
    } else {
        " class=\""@ + classes_written(classes) + seq!['"']
    }
}

/// The declarations of a style, each as `property:value;`.
pub open spec fn declarations_written(style: Seq<(Seq<char>, Seq<char>)>) -> Seq<char>
    decreases style.len(),
{
    if style.len() == 0 {
        Seq::empty()
    } else {
        declarations_written(style.drop_last()) + escaped(style.last().0, true) + seq![':']
            + escaped(style.last().1, true) + seq![';']
    }
}

/// The style attribute; nothing where there are no declarations.
pub open spec fn style_attr(style: Seq<(Seq<char>, Seq<char>)>) -> Seq<char> {
    if style.len() == 0 {
        Seq::empty()
    } else {
        " style=\""@ + declarations_written(style) + seq!['"']
    }
}

/// The further attributes, each as ` name="value"`.
pub open spec fn attrs_written(attrs: Seq<(Seq<char>, Seq<char>)>) -> Seq<char>
    decreases attrs.len(),
{
    if attrs.len() == 0 {
        Seq::empty()
    } else {
        attrs_written(attrs.drop_last()) + seq![' '] + attrs.last().0 + seq!['=', '"']
            + escaped(attrs.last().1, true) + seq!['"']
    }
}

/// What the start of an element writes: the opening tag with its classes,
/// its style and its further attributes, every value escaped. A block
/// element stands between newlines, and a newline follows `br`.
pub open spec fn element_start(
    name: Seq<char>,
    classes: Seq<Seq<char>>,
    style: Seq<(Seq<char>, Seq<char>)>,
    attrs: Seq<(Seq<char>, Seq<char>)>,
) -> Seq<char> {
    line_if(block_tag(name)) + seq!['<'] + name + class_attr(classes) + style_attr(style)
        + attrs_written(attrs) + seq!['>'] + line_if(block_tag(name) || name == "br"@)
}

/// What the end of an element writes: nothing for an empty element, else
/// the closing tag, between newlines for a block element.
pub open spec fn element_end(name: Seq<char>) -> Seq<char> {
    if empty_tag(name) {
        Seq::empty()
    } else {
        line_if(block_tag(name)) + seq!['<', '/'] + name + seq!['>'] + line_if(block_tag(name))
    }
}

/// The consumer that writes the events as text.
#[derive(Debug)]
pub struct HtmlSerializer {
    /// The text written so far.
    pub writer: Vec<char>,
}

impl View for HtmlSerializer {
    type V = Seq<char>;

    open spec fn view(&self) -> Seq<char> {
        self.writer@
    }
}

impl HtmlSerializer {
    /// A serializer that has written nothing.
    pub fn new() -> (r: Self)
        ensures
            r@ == Seq::<char>::empty(),
    {
        HtmlSerializer { writer: Vec::new() }
    }

    /// The text written so far.
    pub fn output(&self) -> (s: String)
        ensures
            s@ == self@,
    {
        to_text(&self.writer)
    }

    /// Appends the class attribute to the text.
    fn write_classes(&mut self, classes: &Vec<&str>)
        ensures
            final(self)@ == old(self)@ + class_attr(str_texts(classes@)),
    {
        if classes.len() == 0 {
            assert(old(self)@ + Seq::<char>::empty() == old(self)@);
            return ;
        }
        push_str(&mut self.writer, " class=\"");
        let ghost head = self.writer@;
        let ghost all = str_texts(classes@);
        let mut i: usize = 0;
        while i < classes.len()
            invariant
                i <= classes.len(),
                all == str_texts(classes@),
                self.writer@ == head + classes_written(all.take(i as int)),
            decreases classes.len() - i,
        {
            assert(all.take(i + 1).drop_last() == all.take(i as int));
            if i > 0 {
                self.writer.push(' ');
            }
            write_escaped(&mut self.writer, classes[i], true);
            i += 1;
        }
        assert(all.take(classes.len() as int) == all);
        self.writer.push('"');
    }

    /// Appends the style attribute to the text.
    fn write_style(&mut self, style: &Vec<(&str, &str)>)
        ensures
            final(self)@ == old(self)@ + style_attr(str_pair_texts(style@)),
    {
        if style.len() == 0 {
            assert(old(self)@ + Seq::<char>::empty() == old(self)@);
            return ;
        }
        push_str(&mut self.writer, " style=\"");
        let ghost head = self.writer@;
        let ghost all = str_pair_texts(style@);
        let mut i: usize = 0;
        while i < style.len()
            invariant
                i <= style.len(),
                all == str_pair_texts(style@),
                self.writer@ == head + declarations_written(all.take(i as int)),
            decreases style.len() - i,
        {
            assert(all.take(i + 1).drop_last() == all.take(i as int));
            write_escaped(&mut self.writer, style[i].0, true);
            self.writer.push(':');
            write_escaped(&mut self.writer, style[i].1, true);
            self.writer.push(';');
            i += 1;
        }
        assert(all.take(style.len() as int) == all);
        self.writer.push('"');
    }

    /// Appends the further attributes to the text.
    fn write_attrs(&mut self, attrs: &Vec<(&str, &str)>)
        ensures
            final(self)@ == old(self)@ + attrs_written(str_pair_texts(attrs@)),
    {
        let ghost head = self.writer@;
        let ghost all = str_pair_texts(attrs@);
        let mut i: usize = 0;
        assert(head + Seq::<char>::empty() == head);
        while i < attrs.len()
            invariant
                i <= attrs.len(),
                all == str_pair_texts(attrs@),
                self.writer@ == head + attrs_written(all.take(i as int)),
            decreases attrs.len() - i,
        {
            assert(all.take(i + 1).drop_last() == all.take(i as int));
            self.writer.push(' ');
            push_str(&mut self.writer, attrs[i].0);
            self.writer.push('=');
            self.writer.push('"');
            write_escaped(&mut self.writer, attrs[i].1, true);
            self.writer.push('"');
            i += 1;
        }
        assert(all.take(attrs.len() as int) == all);
    }
}

impl HtmlConsumer for HtmlSerializer {
    open spec fn framed(&self, after: &Self) -> bool {
        after@ == self@
    }

    open spec fn started(
        &self,
        after: &Self,
        name: Seq<char>,
        classes: Seq<Seq<char>>,
        style: Seq<(Seq<char>, Seq<char>)>,
        attrs: Seq<(Seq<char>, Seq<char>)>,
    ) -> bool {
        after@ == self@ + element_start(name, classes, style, attrs)
    }

    open spec fn texted(&self, after: &Self, text: Seq<char>) -> bool {
        after@ == self@ + escaped(text, false)
    }

    open spec fn ended(&self, after: &Self, name: Seq<char>) -> bool {
        after@ == self@ + element_end(name)
    }

    open spec fn start_refused(&self, e: HtmlError) -> bool {
        false
    }

    open spec fn element_refused(
        &self,
        name: Seq<char>,
        classes: Seq<Seq<char>>,
        style: Seq<(Seq<char>, Seq<char>)>,
        attrs: Seq<(Seq<char>, Seq<char>)>,
        e: HtmlError,
    ) -> bool {
        false
    }

    open spec fn text_refused(&self, text: Seq<char>, e: HtmlError) -> bool {
        false
    }

    open spec fn end_refused(&self, name: Seq<char>, e: HtmlError) -> bool {
        false
    }

    open spec fn finish_refused(&self, e: HtmlError) -> bool {
        false
    }

    fn start_document(&mut self) -> (r: Result<(), HtmlError>)
        ensures
            r is Ok,
    {
        Ok(())
    }

    fn start_element(
        &mut self,
        name: &str,
        classes: Vec<&str>,
        style: Vec<(&str, &str)>,
        attrs: Vec<(&str, &str)>,
    ) -> (r: Result<(), HtmlError>)
        ensures
            r is Ok,
    {
        let is_block = is_block_tag(name);
        if is_block {
            nl(&mut self.writer);
        }
        self.writer.push('<');
        push_str(&mut self.writer, name);
        self.write_classes(&classes);
        self.write_style(&style);
        self.write_attrs(&attrs);
        self.writer.push('>');
        if is_block || chars_eq(&to_chars(name), "br") {
            nl(&mut self.writer);
        }
        assert(self@ == old(self)@ + element_start(
            name@,
            str_texts(classes@),
            str_pair_texts(style@),
            str_pair_texts(attrs@),
        ));
        Ok(())
    }

    fn text(&mut self, text: &str) -> (r: Result<(), HtmlError>)
        ensures
            r is Ok,
    {
        write_escaped(&mut self.writer, text, false);
        Ok(())
    }

    fn end_element(&mut self, name: &str) -> (r: Result<(), HtmlError>)
        ensures
            r is Ok,
    {
        if is_empty_tag(name) {
            assert(old(self)@ + Seq::<char>::empty() == old(self)@);
            return Ok(());
        }
        let is_block = is_block_tag(name);
        if is_block {
            nl(&mut self.writer);
        }
        self.writer.push('<');
        self.writer.push('/');
        push_str(&mut self.writer, name);
        self.writer.push('>');
        if is_block {
            nl(&mut self.writer);
        }
        assert(self@ == old(self)@ + element_end(name@));
        Ok(())
    }

    fn end_document(&mut self) -> (r: Result<(), HtmlError>)
        ensures
            r is Ok,
    {
        Ok(())
    }
}

} // verus!
