//! The image rewriter: a consumer that gives every `img` element the
//! source that a resolver chooses for it, and hands all events on.

use vstd::prelude::*;
use crate::html::{str_pair_texts, str_texts, HtmlConsumer, HtmlError};
use crate::text::str_eq;

verus! {

/// An image as the resolver sees it.
#[derive(Debug)]
pub struct ImageReference<'a> {
    pub id: &'a str,
    pub src: &'a str,
}

/// What decides where an image is found once the page is published.
pub trait ImageResolver {
    /// Whether `answer` may be the new source that the resolver gives for
    /// the image with the id `id` and the source `src`. A resolver that
    /// says nothing of its answers admits any.
    open spec fn answers(&self, id: Seq<char>, src: Seq<char>, answer: Seq<char>) -> bool {
        true
    }

    /// The new source of `image`.
    fn resolve(&mut self, image: &ImageReference) -> (r: String)
        ensures
            old(self).answers(image.id@, image.src@, r@),
    ;
}

/// The consumer that rewrites the source of images on the way to `next`.
pub struct ImageRewriter<R: ImageResolver, C: HtmlConsumer> {
    pub resolver: R,
    pub next: C,
}

/// The position of the first attribute named `key`, from `from` on.
pub open spec fn position(attrs: Seq<(Seq<char>, Seq<char>)>, key: Seq<char>, from: int) -> Option<
    int,
>
    decreases attrs.len() - from,
{
    if from < 0 || from >= attrs.len() {
        None
    } else if attrs[from].0 == key {
        Some(from)
    } else {
        position(attrs, key, from + 1)
    }
}

/// The value of the first attribute named `key`.
pub open spec fn lookup(attrs: Seq<(Seq<char>, Seq<char>)>, key: Seq<char>) -> Option<Seq<char>> {
    match position(attrs, key, 0) {
        Some(i) => Some(attrs[i].1),
        None => None,
    }
}

/// `attrs` with `value` under `key`: in place of the first value under
/// that name, or at the end where the name is new.
pub open spec fn with_value(attrs: Seq<(Seq<char>, Seq<char>)>, key: Seq<char>, value: Seq<char>) -> Seq<
    (Seq<char>, Seq<char>),
> {
    match position(attrs, key, 0) {
        Some(i) => attrs.update(i, (key, value)),
        None => attrs.push((key, value)),
    }
}

/// What the rewriter hands on for the start of an element: for an image
/// with an id and a source, the attributes with a new source that the
/// resolver may give for that id and source; for any other element, the
/// attributes as they are.
pub open spec fn rewritten<R: ImageResolver>(
    resolver: R,
    name: Seq<char>,
    attrs: Seq<(Seq<char>, Seq<char>)>,
    handed: Seq<(Seq<char>, Seq<char>)>,
) -> bool {
    if name == "img"@ {
        match (lookup(attrs, "src"@), lookup(attrs, "id"@)) {
            (Some(src), Some(id)) => exists|source: Seq<char>|
                #[trigger] resolver.answers(id, src, source) && handed == with_value(
                    attrs,
                    "src"@,
                    source,
                ),
            _ => false,
        }
    } else {
        handed == attrs
    }
}

/// The error with which the rewriter itself refuses the start of an
/// element: an image without a source, or else without an id.
pub open spec fn own_refusal(name: Seq<char>, attrs: Seq<(Seq<char>, Seq<char>)>) -> Option<
    HtmlError,
> {
    if name != "img"@ {
        None
    } else if lookup(attrs, "src"@) is None {
        Some(HtmlError::MissingSrc)
    } else if lookup(attrs, "id"@) is None {
        Some(HtmlError::MissingId)
    } else {
        None
    }
}

/// The position of the first attribute named `key`.
pub fn find_key(attrs: &Vec<(&str, &str)>, key: &str) -> (r: Option<usize>)
    ensures
        match r {
            Some(i) => i < attrs.len() && attrs@[i as int].0@ == key@ && position(
                str_pair_texts(attrs@),
                key@,
                0,
            ) == Some(i as int),
            None => position(str_pair_texts(attrs@), key@, 0) is None,
        },
{
    let ghost all = str_pair_texts(attrs@);
    let mut i: usize = 0;
    while i < attrs.len()
        invariant
            i <= attrs.len(),
            all == str_pair_texts(attrs@),
            position(all, key@, 0) == position(all, key@, i as int),
        decreases attrs.len() - i,
    {
        if str_eq(attrs[i].0, key) {
            return Some(i);
        }
        i += 1;
    }
    None
}

/// `attrs` with `value` in place of the value at position `at`.
pub fn replace_value<'a>(attrs: &Vec<(&'a str, &'a str)>, at: usize, value: &'a str) -> (r: Vec<
    (&'a str, &'a str),
>)
    requires
        at < attrs.len(),
    ensures
        str_pair_texts(r@) == str_pair_texts(attrs@).update(
            at as int,
            (attrs@[at as int].0@, value@),
        ),
{
    let mut r: Vec<(&'a str, &'a str)> = Vec::new();
    let mut i: usize = 0;
    while i < attrs.len()
        invariant
            i <= attrs.len(),
            at < attrs.len(),
            r@.len() == i,
            forall|k: int|
                0 <= k < i ==> (#[trigger] r@[k]).0@ == attrs@[k].0@ && r@[k].1@ == (if k == at {
                    value@
                } else {
                    attrs@[k].1@
                }),
        decreases attrs.len() - i,
    {
        if i == at {
            r.push((attrs[i].0, value));
        } else {
            r.push((attrs[i].0, attrs[i].1));
        }
        i += 1;
    }
    assert(str_pair_texts(r@) =~= str_pair_texts(attrs@).update(
        at as int,
        (attrs@[at as int].0@, value@),
    ));
    r
}

/// The reference under which the resolver is asked for the image with
/// these attributes, and the position of its source among them; for an
/// image without a source, or else without an id, the error.
pub fn image_reference<'a>(attrs: &Vec<(&'a str, &'a str)>) -> (r: Result<
    (ImageReference<'a>, usize),
    HtmlError,
>)
    ensures
        match r {
            Ok((image, at)) => {
                &&& lookup(str_pair_texts(attrs@), "src"@) == Some(image.src@)
                &&& lookup(str_pair_texts(attrs@), "id"@) == Some(image.id@)
                &&& position(str_pair_texts(attrs@), "src"@, 0) == Some(at as int)
                &&& at < attrs.len()
            },
            Err(e) => own_refusal("img"@, str_pair_texts(attrs@)) == Some(e),
        },
{
    let at: usize = match find_key(attrs, "src") {
        Some(i) => i,
        None => {
            return Err(HtmlError::MissingSrc);
        },
    };
    let id_at: usize = match find_key(attrs, "id") {
        Some(i) => i,
        None => {
            return Err(HtmlError::MissingId);
        },
    };
    Ok((ImageReference { id: attrs[id_at].1, src: attrs[at].1 }, at))
}

impl<R: ImageResolver, C: HtmlConsumer> ImageRewriter<R, C> {
    /// Hands the start of an image on with the source that the resolver
    /// gave: the next consumer gets the attributes with `new_src` in place
    /// of the source, and takes its step or refuses with its own error.
    pub fn hand_on_image(
        &mut self,
        name: &str,
        classes: Vec<&str>,
        style: Vec<(&str, &str)>,
        attrs: Vec<(&str, &str)>,
        new_src: &str,
    ) -> (r: Result<(), HtmlError>)
        requires
            lookup(str_pair_texts(attrs@), "src"@) is Some,
        ensures
            final(self).resolver == old(self).resolver,
            r is Ok ==> old(self).next.started(
                &final(self).next,
                name@,
                str_texts(classes@),
                str_pair_texts(style@),
                with_value(str_pair_texts(attrs@), "src"@, new_src@),
            ),
            r matches Err(e) ==> old(self).next.element_refused(
                name@,
                str_texts(classes@),
                str_pair_texts(style@),
                with_value(str_pair_texts(attrs@), "src"@, new_src@),
                e,
            ),
    {
        let at: usize = match find_key(&attrs, "src") {
            Some(i) => i,
            None => 0,
        };
        let new_attrs = replace_value(&attrs, at, new_src);
        assert(str_pair_texts(new_attrs@) == with_value(
            str_pair_texts(attrs@),
            "src"@,
            new_src@,
        ));
        self.next.start_element(name, classes, style, new_attrs)
    }

    /// A rewriter that asks `resolver` and hands on to `next`.
    pub fn new(resolver: R, next: C) -> (r: Self)
        ensures
            r.resolver == resolver,
            r.next == next,
    {
        ImageRewriter { resolver, next }
    }
}

impl<R: ImageResolver, C: HtmlConsumer> HtmlConsumer for ImageRewriter<R, C> {
    open spec fn framed(&self, after: &Self) -> bool {
        self.next.framed(&after.next)
    }

    open spec fn started(
        &self,
        after: &Self,
        name: Seq<char>,
        classes: Seq<Seq<char>>,
        style: Seq<(Seq<char>, Seq<char>)>,
        attrs: Seq<(Seq<char>, Seq<char>)>,
    ) -> bool {
        exists|handed: Seq<(Seq<char>, Seq<char>)>|
            rewritten(self.resolver, name, attrs, handed) && #[trigger] self.next.started(
                &after.next,
                name,
                classes,
                style,
                handed,
            )
    }

    open spec fn texted(&self, after: &Self, text: Seq<char>) -> bool {
        self.next.texted(&after.next, text)
    }

    open spec fn ended(&self, after: &Self, name: Seq<char>) -> bool {
        self.next.ended(&after.next, name)
    }

    open spec fn element_refused(
        &self,
        name: Seq<char>,
        classes: Seq<Seq<char>>,
        style: Seq<(Seq<char>, Seq<char>)>,
        attrs: Seq<(Seq<char>, Seq<char>)>,
        e: HtmlError,
    ) -> bool {
        own_refusal(name, attrs) == Some(e) || (own_refusal(name, attrs) is None && exists|
            handed: Seq<(Seq<char>, Seq<char>)>,
        |
            rewritten(self.resolver, name, attrs, handed) && #[trigger] self.next.element_refused(
                name,
                classes,
                style,
                handed,
                e,
            ))
    }

    open spec fn start_refused(&self, e: HtmlError) -> bool {
        self.next.start_refused(e)
    }

    open spec fn text_refused(&self, text: Seq<char>, e: HtmlError) -> bool {
        self.next.text_refused(text, e)
    }

    open spec fn end_refused(&self, name: Seq<char>, e: HtmlError) -> bool {
        self.next.end_refused(name, e)
    }

    open spec fn finish_refused(&self, e: HtmlError) -> bool {
        self.next.finish_refused(e)
    }

    /// Hands the start of the document on: the next consumer takes its
    /// step, or refuses with its own error; the resolver is left alone.
    fn start_document(&mut self) -> (r: Result<(), HtmlError>)
        ensures
            final(self).resolver == old(self).resolver,
            r is Ok ==> old(self).next.framed(&final(self).next),
            r matches Err(e) ==> old(self).next.start_refused(e),
    {
        self.next.start_document()
    }

    /// Hands the start of an element on. An image without a source, or
    /// else without an id, is refused and nothing changes. For any other
    /// image the resolver is asked under the reference that
    /// `image_reference` gives, and the image goes on, as `hand_on_image`
    /// says, with a source that the resolver may answer for that
    /// reference. An element that is no image goes on as it is, and the
    /// resolver is left alone. An error other than the two of the
    /// rewriter is one of the next consumer.
    fn start_element(
        &mut self,
        name: &str,
        classes: Vec<&str>,
        style: Vec<(&str, &str)>,
        attrs: Vec<(&str, &str)>,
    ) -> (r: Result<(), HtmlError>)
        ensures
            own_refusal(name@, str_pair_texts(attrs@)) matches Some(e) ==> r == Err::<
                (),
                HtmlError,
            >(e) && *final(self) == *old(self),
            name@ != "img"@ ==> final(self).resolver == old(self).resolver,
            name@ != "img"@ && r is Ok ==> old(self).next.started(
                &final(self).next,
                name@,
                str_texts(classes@),
                str_pair_texts(style@),
                str_pair_texts(attrs@),
            ),
            name@ != "img"@ ==> (r matches Err(e) ==> old(self).next.element_refused(
                name@,
                str_texts(classes@),
                str_pair_texts(style@),
                str_pair_texts(attrs@),
                e,
            )),
            name@ == "img"@ && r is Ok ==> exists|source: Seq<char>|
                #[trigger] old(self).resolver.answers(
                    lookup(str_pair_texts(attrs@), "id"@)->Some_0,
                    lookup(str_pair_texts(attrs@), "src"@)->Some_0,
                    source,
                ) && old(self).next.started(
                    &final(self).next,
                    name@,
                    str_texts(classes@),
                    str_pair_texts(style@),
                    with_value(str_pair_texts(attrs@), "src"@, source),
                ),
            name@ == "img"@ && own_refusal(name@, str_pair_texts(attrs@)) is None ==> (r matches Err(
                e,
            ) ==> exists|source: Seq<char>|
                #[trigger] old(self).resolver.answers(
                    lookup(str_pair_texts(attrs@), "id"@)->Some_0,
                    lookup(str_pair_texts(attrs@), "src"@)->Some_0,
                    source,
                ) && old(self).next.element_refused(
                    name@,
                    str_texts(classes@),
                    str_pair_texts(style@),
                    with_value(str_pair_texts(attrs@), "src"@, source),
                    e,
                )),
    {
        let ghost given = str_pair_texts(attrs@);
        let ghost class_texts = str_texts(classes@);
        let ghost style_texts = str_pair_texts(style@);
        let ghost before = self.next;
        let ghost asked = self.resolver;
        if str_eq(name, "img") {
            let new_src: String = match image_reference(&attrs) {
                Ok((image, _)) => self.resolver.resolve(&image),
                Err(e) => {
                    return Err(e);
                },
            };
            let r = self.hand_on_image(name, classes, style, attrs, new_src.as_str());
            proof {
                let handed = with_value(given, "src"@, new_src@);
                assert(asked.answers(
                    lookup(given, "id"@)->Some_0,
                    lookup(given, "src"@)->Some_0,
                    new_src@,
                ));
                assert(rewritten(asked, name@, given, handed));
                if r is Ok {
                    assert(before.started(&self.next, name@, class_texts, style_texts, handed));
                }
                if r is Err {
                    assert(before.element_refused(name@, class_texts, style_texts, handed, r->Err_0));
                }
            }
            r
        } else {
            assert(rewritten(asked, name@, given, given));
            let r = self.next.start_element(name, classes, style, attrs);
            proof {
                if r is Ok {
                    assert(before.started(&self.next, name@, class_texts, style_texts, given));
                }
                if r is Err {
                    assert(before.element_refused(name@, class_texts, style_texts, given, r->Err_0));
                }
            }
            r
        }
    }

    /// Hands a text on: the next consumer takes its step, or refuses with
    /// its own error; the resolver is left alone.
    fn text(&mut self, text: &str) -> (r: Result<(), HtmlError>)
        ensures
            final(self).resolver == old(self).resolver,
            r is Ok ==> old(self).next.texted(&final(self).next, text@),
            r matches Err(e) ==> old(self).next.text_refused(text@, e),
    {
        self.next.text(text)
    }

    /// Hands the end of an element on: the next consumer takes its step,
    /// or refuses with its own error; the resolver is left alone.
    fn end_element(&mut self, name: &str) -> (r: Result<(), HtmlError>)
        ensures
            final(self).resolver == old(self).resolver,
            r is Ok ==> old(self).next.ended(&final(self).next, name@),
            r matches Err(e) ==> old(self).next.end_refused(name@, e),
    {
        self.next.end_element(name)
    }

    /// Hands the end of the document on: the next consumer takes its step,
    /// or refuses with its own error; the resolver is left alone.
    fn end_document(&mut self) -> (r: Result<(), HtmlError>)
        ensures
            final(self).resolver == old(self).resolver,
            r is Ok ==> old(self).next.framed(&final(self).next),
            r matches Err(e) ==> old(self).next.finish_refused(e),
    {
        self.next.end_document()
    }
}

} // verus!
