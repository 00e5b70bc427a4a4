//! The decisions of the passes that adjust a rendered page: which links
//! and images are touched, how the classes of a button are divided, and
//! what the title and the summary of a page are.

use vstd::prelude::*;
use crate::attr_list::{join, texts};
use crate::text::{
    has_prefix, is_space, is_whitespace, push_chars, push_range, push_str, starts_with, to_chars,
    to_text,
};

verus! {

/// Whether the source of an image is a local path to a static asset,
/// which is neither fetched nor resized.
pub fn is_local_asset(src: &str) -> (r: bool)
    ensures
        r == starts_with(src@, seq!['/']),
{
    let v = to_chars(src);
    if v.len() > 0 && v[0] == '/' {
        assert(v@.subrange(0, 1) == seq!['/']);
        true
    } else {
        proof {
            if v.len() > 0 {
                assert(v@.subrange(0, 1)[0] == v@[0]);
            }
        }
        false
    }
}

/// Whether a link leaves the site: it starts with `https://` or `http://`.
pub fn is_external_link(href: &str) -> (r: bool)
    ensures
        r == (starts_with(href@, "https://"@) || starts_with(href@, "http://"@)),
{
    let v = to_chars(href);
    has_prefix(&v, "https://") || has_prefix(&v, "http://")
}

/// Whether the address of an image still points to where it was fetched
/// from: it starts with `http`.
pub fn is_unresolved(url: &str) -> (r: bool)
    ensures
        r == starts_with(url@, "http"@),
{
    let v = to_chars(url);
    has_prefix(&v, "http")
}

//-------------------------------------------------------------------------
// Classes

/// The number of characters from position `i` on that are not white space.
pub open spec fn word_rest(s: Seq<char>, i: int) -> nat
    decreases s.len() - i,
{
    if i < 0 || i >= s.len() || is_space(s[i]) {
        0
    } else {
        1 + word_rest(s, i + 1)
    }
}

/// The words of `s` from position `from` on: the runs of characters that
/// are not white space.
pub open spec fn words_from(s: Seq<char>, from: int) -> Seq<Seq<char>>
    decreases s.len() - from,
{
    if from < 0 || from >= s.len() {
        Seq::empty()
    } else if is_space(s[from]) {
        words_from(s, from + 1)
    } else {
        let end = from + 1 + word_rest(s, from + 1);
        proof {
            lemma_word_rest(s, from + 1);
        }
        seq![s.subrange(from, end)] + words_from(s, end)
    }
}

/// The words of `s`.
pub open spec fn words(s: Seq<char>) -> Seq<Seq<char>> {
    words_from(s, 0)
}

/// A word does not reach past the end of the text.
pub proof fn lemma_word_rest(s: Seq<char>, i: int)
    requires
        0 <= i <= s.len(),
    ensures
        i + word_rest(s, i) <= s.len(),
    decreases s.len() - i,
{
    if i < s.len() && !is_space(s[i]) {
        lemma_word_rest(s, i + 1);
    }
}

/// Whether a class belongs to the button: it starts with `btn`.
pub open spec fn button_class(class: Seq<char>) -> bool {
    starts_with(class, "btn"@)
}

/// The classes of the button among `classes`, each after a space.
pub open spec fn button_classes(classes: Seq<Seq<char>>) -> Seq<char>
    decreases classes.len(),
{
    if classes.len() == 0 {
        Seq::empty()
    } else if button_class(classes.last()) {
        button_classes(classes.drop_last()).push(' ') + classes.last()
    } else {
        button_classes(classes.drop_last())
    }
}

/// The classes among `classes` that do not belong to the button.
pub open spec fn other_classes(classes: Seq<Seq<char>>) -> Seq<Seq<char>>
    decreases classes.len(),
{
    if classes.len() == 0 {
        Seq::empty()
    } else if button_class(classes.last()) {
        other_classes(classes.drop_last())
    } else {
        other_classes(classes.drop_last()).push(classes.last())
    }
}

/// The words of `text`.
pub fn split_words(text: &str) -> (r: Vec<Vec<char>>)
    ensures
        Seq::new(r@.len(), |i: int| r@[i]@) == words(text@),
{
    let v = to_chars(text);
    let n: usize = v.len();
    let mut r: Vec<Vec<char>> = Vec::new();
    let mut i: usize = 0;
    assert(Seq::new(r@.len(), |k: int| r@[k]@) + words_from(v@, 0) == words(v@));
    while i < n
        invariant
            i <= n == v.len(),
            v@ == text@,
            Seq::new(r@.len(), |k: int| r@[k]@) + words_from(v@, i as int) == words(v@),
        decreases n - i,
    {
        if is_whitespace(v[i]) {
            i += 1;
        } else {
            let start: usize = i;
            i += 1;
            while i < n && !is_whitespace(v[i])
                invariant
                    start < i <= n == v.len(),
                    start + 1 + word_rest(v@, start + 1) == i + word_rest(v@, i as int),
                decreases n - i,
            {
                i += 1;
            }
            let mut word: Vec<char> = Vec::new();
            push_range(&mut word, &v, start, i);
            let ghost before = Seq::new(r@.len(), |k: int| r@[k]@);
            r.push(word);
            proof {
                let now = Seq::new(r@.len(), |k: int| r@[k]@);
                assert(now == before.push(v@.subrange(start as int, i as int)));
                assert(before + (seq![v@.subrange(start as int, i as int)] + words_from(
                    v@,
                    i as int,
                )) == now + words_from(v@, i as int));
            }
        }
    }
    assert(Seq::new(r@.len(), |k: int| r@[k]@) + Seq::<Seq<char>>::empty() == Seq::new(
        r@.len(),
        |k: int| r@[k]@,
    ));
    r
}

/// Divides the classes of a container between the container and the
/// link of the button in it: the first text holds the classes that stay,
/// joined by spaces; the second holds the classes that start with `btn`,
/// each after a space.
pub fn split_button_classes(class_attr: &str) -> (r: (String, String))
    ensures
        r.0@ == join(other_classes(words(class_attr@)), ' '),
        r.1@ == button_classes(words(class_attr@)),
{
    let classes = split_words(class_attr);
    let ghost all = Seq::new(classes@.len(), |k: int| classes@[k]@);
    let mut kept: Vec<char> = Vec::new();
    let mut moved: Vec<char> = Vec::new();
    let mut any: bool = false;
    let mut i: usize = 0;
    while i < classes.len()
        invariant
            i <= classes.len(),
            all == Seq::new(classes@.len(), |k: int| classes@[k]@),
            kept@ == join(other_classes(all.take(i as int)), ' '),
            moved@ == button_classes(all.take(i as int)),
            any == (other_classes(all.take(i as int)).len() > 0),
        decreases classes.len() - i,
    {
        assert(all.take(i + 1).drop_last() == all.take(i as int));
        assert(all.take(i + 1).last() == classes@[i as int]@);
        if has_prefix(&classes[i], "btn") {
            moved.push(' ');
            push_chars(&mut moved, &classes[i]);
        } else {
            let ghost before = other_classes(all.take(i as int));
            assert(before.push(classes@[i as int]@).drop_last() == before);
            if any {
                kept.push(' ');
            }
            push_chars(&mut kept, &classes[i]);
            any = true;
        }
        i += 1;
    }
    assert(all.take(classes.len() as int) == all);
    (to_text(&kept), to_text(&moved))
}

//-------------------------------------------------------------------------
// Title and summary

/// A node that stands before the heading of a page.
#[derive(Debug)]
pub struct Sibling {
    /// The texts of the node, where it is an element.
    pub texts: Option<Vec<String>>,
    /// The source of the first image in the node, where it is an element
    /// that holds an image with a source.
    pub image: Option<String>,
}

/// What the heading of a page, and what stands before it, give the front
/// matter.
#[derive(Debug, PartialEq, Eq)]
pub struct Extracted {
    pub title: String,
    pub summary: Option<String>,
    pub banner: Option<String>,
}

/// Why a page could not be adjusted.
#[derive(Debug, PartialEq, Eq)]
pub enum TweakError {
    /// The image that would be the banner still has the address from
    /// which it is fetched.
    UnresolvedBanner(String),
}

impl TweakError {
    /// A description of the error for the user.
    pub fn message(&self) -> (s: String)
        ensures
            s@ == match self {
                TweakError::UnresolvedBanner(url) => "Banner image url hasn't been resolved: "@
                    + url@,
            },
    {
        match self {
            TweakError::UnresolvedBanner(url) => {
                let mut out = to_chars("Banner image url hasn't been resolved: ");
                push_str(&mut out, url.as_str());
                to_text(&out)
            },
        }
    }
}

/// The mathematical content of a `Sibling`.
pub struct SiblingView {
    pub texts: Option<Seq<Seq<char>>>,
    pub image: Option<Seq<char>>,
}

impl View for Sibling {
    type V = SiblingView;

    open spec fn view(&self) -> SiblingView {
        SiblingView {
            texts: match self.texts {
                Some(t) => Some(texts(t@)),
                None => None,
            },
            image: match self.image {
                Some(s) => Some(s@),
                None => None,
            },
        }
    }
}

/// The views of a sequence of siblings.
pub open spec fn sibling_views(s: Seq<Sibling>) -> Seq<SiblingView> {
    Seq::new(s.len(), |i: int| s[i]@)
}

/// The summary of a page: for each element before the heading, in order,
/// its texts joined by spaces, and a space.
pub open spec fn summary_of(before: Seq<SiblingView>) -> Seq<char>
    decreases before.len(),
{
    if before.len() == 0 {
        Seq::empty()
    } else {
        summary_of(before.drop_last()) + match before.last().texts {
            Some(t) => join(t, ' ').push(' '),
            None => Seq::empty(),
        }
    }
}

/// The image of an element, where it has one.
pub open spec fn image_of(s: SiblingView) -> Option<Seq<char>> {
    if s.texts is Some {
        s.image
    } else {
        None
    }
}

/// The banner of a page: the image of the last element before the
/// heading that has one. An image that is not resolved is an error, the
/// first one in order.
pub open spec fn banner_of(before: Seq<SiblingView>) -> Result<Option<Seq<char>>, Seq<char>>
    decreases before.len(),
{
    if before.len() == 0 {
        Ok(None)
    } else {
        match banner_of(before.drop_last()) {
            Ok(banner) => match image_of(before.last()) {
                Some(url) => if starts_with(url, "http"@) {
                    Err(url)
                } else {
                    Ok(Some(url))
                },
                None => Ok(banner),
            },
            Err(url) => Err(url),
        }
    }
}

/// The texts joined by single spaces.
pub fn join_texts(pieces: &Vec<String>) -> (r: Vec<char>)
    ensures
        r@ == join(texts(pieces@), ' '),
{
    let ghost all = texts(pieces@);
    let mut r: Vec<char> = Vec::new();
    let mut i: usize = 0;
    while i < pieces.len()
        invariant
            i <= pieces.len(),
            all == texts(pieces@),
            r@ == join(all.take(i as int), ' '),
        decreases pieces.len() - i,
    {
        assert(all.take(i + 1).drop_last() == all.take(i as int));
        if i > 0 {
            r.push(' ');
        }
        push_str(&mut r, pieces[i].as_str());
        i += 1;
    }
    assert(all.take(pieces.len() as int) == all);
    r
}

/// The title, the summary and the banner of a page, from the texts of its
/// heading and from what stands before the heading, in the order of the
/// page. The title is the texts of the heading joined by spaces; a page
/// with nothing to summarize has no summary.
pub fn title_and_summary(heading: &Vec<String>, before: &Vec<Sibling>) -> (r: Result<
    Extracted,
    TweakError,
>)
    ensures
        match r {
            Ok(found) => found.title@ == join(texts(heading@), ' ') && banner_of(
                sibling_views(before@),
            ) == Ok::<Option<Seq<char>>, Seq<char>>(
                match found.banner {
                    Some(b) => Some(b@),
                    None => None,
                },
            ) && (match found.summary {
                Some(s) => s@ == summary_of(sibling_views(before@)) && s@.len() > 0,
                None => summary_of(sibling_views(before@)).len() == 0,
            }),
            Err(TweakError::UnresolvedBanner(url)) => banner_of(sibling_views(before@)) == Err::<
                Option<Seq<char>>,
                Seq<char>,
            >(url@),
        },
{
    let ghost all = sibling_views(before@);
    let title = join_texts(heading);
    let mut summary: Vec<char> = Vec::new();
    let mut banner: Option<String> = None;
    let mut i: usize = 0;
    while i < before.len()
        invariant
            i <= before.len(),
            all == sibling_views(before@),
            summary@ == summary_of(all.take(i as int)),
            banner_of(all.take(i as int)) == Ok::<Option<Seq<char>>, Seq<char>>(
                match banner {
                    Some(b) => Some(b@),
                    None => None,
                },
            ),
        decreases before.len() - i,
    {
        assert(all.take(i + 1).drop_last() == all.take(i as int));
        assert(all.take(i + 1).last() == before@[i as int]@);
        if let Some(pieces) = &before[i].texts {
            let text = join_texts(pieces);
            push_chars(&mut summary, &text);
            summary.push(' ');
            if let Some(url) = &before[i].image {
                let v = to_chars(url.as_str());
                if has_prefix(&v, "http") {
                    proof {
                        assert(banner_of(all.take(i + 1)) == Err::<Option<Seq<char>>, Seq<char>>(
                            url@,
                        ));
                        lemma_banner_error(all, i + 1);
                    }
                    return Err(TweakError::UnresolvedBanner(url.clone()));
                }
                banner = Some(url.clone());
            }
        }
        i += 1;
    }
    assert(all.take(before.len() as int) == all);
    let summary_text = if summary.len() > 0 {
        Some(to_text(&summary))
    } else {
        None
    };
    Ok(Extracted { title: to_text(&title), summary: summary_text, banner })
}

/// An error among the first siblings is the error of all of them.
pub proof fn lemma_banner_error(all: Seq<SiblingView>, n: int)
    requires
        0 <= n <= all.len(),
        banner_of(all.take(n)) is Err,
    ensures
        banner_of(all) == banner_of(all.take(n)),
    decreases all.len() - n,
{
    if n < all.len() {
        assert(all.take(n + 1).drop_last() == all.take(n));
        lemma_banner_error(all, n + 1);
    } else {
        assert(all.take(n) == all);
    }
}

} // verus!
