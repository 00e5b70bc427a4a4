//! The decisions of the publishing pipeline: which rows are published,
//! what front matter a page gets, where it is written, and what it holds.

use vstd::prelude::*;
use vstd::string::StringExecFns;
use crate::gdocs_site::{entry_texts, flat, text_of, DocData};
use crate::text::{
    has_prefix, matches_at, push_range, push_str, starts_with, str_eq, to_chars, to_text,
};
use crate::hugo_site::FrontMatter;
use crate::site::SiteData;

verus! {

/// Whether a row is published: its own status, or all rows on request.
pub fn should_publish(doc: &DocData, all: bool) -> (r: bool)
    ensures
        r == (doc.publish || all),
{
    doc.publish || all
}

/// Whether a slug names a data file instead of a page.
pub open spec fn data_slug(slug: Seq<char>) -> bool {
    starts_with(slug, "/#data/"@)
}

/// Whether a slug names a data file instead of a page.
pub fn is_data_document(slug: &str) -> (r: bool)
    ensures
        r == data_slug(slug@),
{
    let v = to_chars(slug);
    has_prefix(&v, "/#data/")
}

/// The path of the data file of a slug, without its extension, below the
/// directory of the site: the slug without its two first characters.
pub fn data_path(slug: &str) -> (r: String)
    requires
        slug@.len() >= 2,
    ensures
        r@ == slug@.skip(2),
{
    let v = to_chars(slug);
    let mut r: Vec<char> = Vec::new();
    push_range(&mut r, &v, 2, v.len());
    assert(v@.subrange(2, v.len() as int) == v@.skip(2));
    to_text(&r)
}

/// `s` with every `/` replaced by `_`.
pub fn flatten(s: &str) -> (r: String)
    ensures
        r@ == flat(s@),
{
    let v = to_chars(s);
    let mut r: Vec<char> = Vec::new();
    let mut i: usize = 0;
    assert(r@ == flat(v@.take(0)));
    while i < v.len()
        invariant
            i <= v.len(),
            r@ == flat(v@.take(i as int)),
        decreases v.len() - i,
    {
        if v[i] == '/' {
            r.push('_');
        } else {
            r.push(v[i]);
        }
        assert(r@ == flat(v@.take(i + 1)));
        i += 1;
    }
    assert(v@.take(v.len() as int) == v@);
    to_text(&r)
}

/// The front matter that a row gives its page: the markup is HTML, the
/// slug is the flattened path, the address is the path, the categories
/// are the category of the row, if any; title, banner, summary and style
/// are left for the page to fill.
pub fn front_matter(doc: DocData) -> (r: FrontMatter)
    ensures
        r.markup@ == "html"@,
        r.date == doc.publish_date,
        r.lastmod == doc.update_date,
        r.author == doc.author,
        r.slug@ == flat(doc.slug@),
        r.url == Some(doc.slug),
        r.gdoc_url == doc.gdoc_url,
        r.weight == doc.weight,
        r.categories@ == match doc.category {
            Some(c) => seq![c],
            None => Seq::<String>::empty(),
        },
        r.other == doc.other,
        r.title@.len() == 0,
        r.banner is None,
        r.summary is None,
        r.description is None,
        r.inline_style is None,
{
    let mut categories: Vec<String> = Vec::new();
    if let Some(category) = doc.category {
        categories.push(category);
    }
    let slug = flatten(doc.slug.as_str());
    FrontMatter {
        markup: String::from_str("html"),
        author: doc.author,
        title: String::new(),
        date: doc.publish_date,
        lastmod: doc.update_date,
        banner: None,
        slug,
        url: Some(doc.slug),
        categories,
        weight: doc.weight,
        summary: None,
        description: None,
        inline_style: None,
        gdoc_url: doc.gdoc_url,
        other: doc.other,
    }
}

/// Two rows agree in everything but the author.
pub open spec fn same_but_author(a: DocData, b: DocData) -> bool {
    &&& a.title@ == b.title@
    &&& a.slug@ == b.slug@
    &&& text_of(a.category) == text_of(b.category)
    &&& a.weight == b.weight
    &&& a.publish == b.publish
    &&& a.publish_date == b.publish_date
    &&& a.update_date == b.update_date
    &&& text_of(a.gdoc_pub_url) == text_of(b.gdoc_pub_url)
    &&& text_of(a.gdoc_url) == text_of(b.gdoc_url)
    &&& a.download_path@ == b.download_path@
    &&& entry_texts(a.other@) == entry_texts(b.other@)
}

/// The author of a row once the default author is filled in.
pub open spec fn author_or(doc: DocData, default_author: Option<String>) -> Option<Seq<char>> {
    match doc.author {
        Some(a) => Some(a@),
        None => text_of(default_author),
    }
}

/// A copy of an optional string.
pub fn copy_text(s: &Option<String>) -> (r: Option<String>)
    ensures
        r == *s,
{
    match s {
        Some(s) => Some(s.clone()),
        None => None,
    }
}

impl DocData {
    /// A copy of the row.
    pub fn clone_row(&self) -> (r: DocData)
        ensures
            same_but_author(r, *self),
            r.author == self.author,
    {
        let mut other: Vec<(String, String)> = Vec::new();
        let mut i: usize = 0;
        while i < self.other.len()
            invariant
                i <= self.other.len(),
                other@ == self.other@.take(i as int),
            decreases self.other.len() - i,
        {
            other.push((self.other[i].0.clone(), self.other[i].1.clone()));
            assert(other@ == self.other@.take(i + 1));
            i += 1;
        }
        assert(self.other@.take(self.other.len() as int) == self.other@);
        DocData {
            title: self.title.clone(),
            slug: self.slug.clone(),
            author: copy_text(&self.author),
            category: copy_text(&self.category),
            weight: self.weight,
            publish: self.publish,
            publish_date: self.publish_date,
            update_date: self.update_date,
            gdoc_pub_url: copy_text(&self.gdoc_pub_url),
            gdoc_url: copy_text(&self.gdoc_url),
            download_path: self.download_path.clone(),
            other,
        }
    }
}

/// Gives every row without an author the default author.
pub fn with_default_author(docs: &mut Vec<DocData>, default_author: &Option<String>)
    ensures
        final(docs)@.len() == old(docs)@.len(),
        forall|i: int|
            0 <= i < old(docs)@.len() ==> text_of((#[trigger] final(docs)@[i]).author) == author_or(
                old(docs)@[i],
                *default_author,
            ) && same_but_author(final(docs)@[i], old(docs)@[i]),
{
    let n: usize = docs.len();
    let mut i: usize = 0;
    while i < n
        invariant
            i <= n == docs.len(),
            docs@.len() == old(docs)@.len(),
            forall|k: int| i <= k < n ==> docs@[k] == old(docs)@[k],
            forall|k: int|
                0 <= k < i ==> text_of((#[trigger] docs@[k]).author) == author_or(
                    old(docs)@[k],
                    *default_author,
                ) && same_but_author(docs@[k], old(docs)@[k]),
        decreases n - i,
    {
        if docs[i].author.is_none() {
            let mut doc = docs[i].clone_row();
            doc.author = copy_text(default_author);
            docs.set(i, doc);
        }
        i += 1;
    }
}

/// Some entry of `slugs`, from position `from` on, lies below `slug`: it
/// starts with `slug` and is longer.
pub open spec fn child_from(slugs: Seq<(Seq<char>, Seq<char>)>, slug: Seq<char>, from: int) -> bool
    decreases slugs.len() - from,
{
    if from < 0 || from >= slugs.len() {
        false
    } else if slugs[from].1.len() != slug.len() && starts_with(slugs[from].1, slug) {
        true
    } else {
        child_from(slugs, slug, from + 1)
    }
}

/// Whether some page of the site lies below the page with the slug `slug`.
pub fn has_children(site: &SiteData, slug: &str) -> (r: bool)
    ensures
        r == child_from(entry_texts(site.id_to_slug@), slug@, 0),
{
    let ghost all = entry_texts(site.id_to_slug@);
    let parent = to_chars(slug);
    let mut i: usize = 0;
    while i < site.id_to_slug.len()
        invariant
            i <= site.id_to_slug.len(),
            all == entry_texts(site.id_to_slug@),
            parent@ == slug@,
            child_from(all, slug@, 0) == child_from(all, slug@, i as int),
        decreases site.id_to_slug.len() - i,
    {
        let child = to_chars(site.id_to_slug[i].1.as_str());
        assert(child@.take(child.len() as int) == child@);
        if child.len() != parent.len() && matches_at(&child, 0, child.len(), &parent) {
            return true;
        }
        i += 1;
    }
    false
}

/// The path of a page below the directory of the site: a page with a
/// category is a post; a page without one is the index of its bundle, a
/// branch bundle where other pages lie below it.
pub open spec fn post_path_of(slug: Seq<char>, categorized: bool, parent: bool) -> Seq<char> {
    if categorized {
        "content/posts"@ + slug + ".html"@
    } else if parent {
        "content"@ + slug + "/_index.html"@
    } else {
        "content"@ + slug + "/index.html"@
    }
}

/// The path of a page below the directory of the site.
pub fn post_path(slug: &str, categorized: bool, parent: bool) -> (r: String)
    ensures
        r@ == post_path_of(slug@, categorized, parent),
{
    let mut r: Vec<char> = Vec::new();
    if categorized {
        push_str(&mut r, "content/posts");
        push_str(&mut r, slug);
        push_str(&mut r, ".html");
    } else if parent {
        push_str(&mut r, "content");
        push_str(&mut r, slug);
        push_str(&mut r, "/_index.html");
    } else {
        push_str(&mut r, "content");
        push_str(&mut r, slug);
        push_str(&mut r, "/index.html");
    }
    to_text(&r)
}

/// The text of a page: the front matter between two rules, an empty
/// line, the content, and a newline.
pub open spec fn page_text_of(front_matter: Seq<char>, content: Seq<char>) -> Seq<char> {
    "---\n"@ + front_matter + "\n---\n\n"@ + content + seq!['\n']
}

/// The text of a page.
pub fn page_text(front_matter: &str, content: &str) -> (r: String)
    ensures
        r@ == page_text_of(front_matter@, content@),
{
    let mut r: Vec<char> = Vec::new();
    push_str(&mut r, "---\n");
    push_str(&mut r, front_matter);
    push_str(&mut r, "\n---\n\n");
    push_str(&mut r, content);
    r.push('\n');
    to_text(&r)
}

/// The path of a slug below the download directory, without extension:
/// `index` for the root, else the slug without its leading character.
pub fn rel_path_or_index(slug: &str) -> (r: String)
    requires
        slug@.len() > 0,
    ensures
        r@ == if slug@ == seq!['/'] {
            "index"@
        } else {
            slug@.skip(1)
        },
{
    let v = to_chars(slug);
    if v.len() == 1 && v[0] == '/' {
        assert(v@ == seq!['/']);
        String::from_str("index")
    } else {
        let mut r: Vec<char> = Vec::new();
        push_range(&mut r, &v, 1, v.len());
        assert(v@.subrange(1, v.len() as int) == v@.skip(1));
        to_text(&r)
    }
}

/// The address of an image of a page: below the page, under its id and
/// with the extension of its file.
pub fn image_url(page_url: &str, id: &str, extension: &str) -> (r: String)
    ensures
        r@ == page_url@ + seq!['/'] + id@ + seq!['.'] + extension@,
{
    let mut r: Vec<char> = Vec::new();
    push_str(&mut r, page_url);
    r.push('/');
    push_str(&mut r, id);
    r.push('.');
    push_str(&mut r, extension);
    to_text(&r)
}

/// The extension under which a file is stored: `jpg` in place of `jpe`,
/// which not all tools know.
pub fn file_extension(extension: &str) -> (r: String)
    ensures
        r@ == if extension@ == "jpe"@ {
            "jpg"@
        } else {
            extension@
        },
{
    if str_eq(extension, "jpe") {
        String::from_str("jpg")
    } else {
        String::from_str(extension)
    }
}

/// The size above which an image in PNG is stored as JPEG: 256 kB.
pub const COMPRESS_ABOVE: usize = 262_144;

/// Whether an image is stored compressed: a PNG of more than 256 kB.
pub fn should_compress(extension: &str, size: usize) -> (r: bool)
    ensures
        r == (extension@ == "png"@ && size > COMPRESS_ABOVE),
{
    str_eq(extension, "png") && size > COMPRESS_ABOVE
}

/// Why a cell of the table of contents could not be read.
#[derive(Debug, PartialEq, Eq)]
pub enum CellError {
    /// A cell that should hold `TRUE` or `FALSE` holds this.
    NotABool(String),
}

impl CellError {
    /// A description of the error for the user.
    pub fn message(&self) -> (s: String)
        ensures
            s@ == match self {
                CellError::NotABool(text) => "Expecting TRUE or FALSE, got "@ + text@,
            },
    {
        match self {
            CellError::NotABool(text) => {
                let mut out = to_chars("Expecting TRUE or FALSE, got ");
                push_str(&mut out, text.as_str());
                to_text(&out)
            },
        }
    }
}

/// The truth value of a cell: `TRUE` or `FALSE`, in capitals.
pub fn parse_uppercase_bool(cell: &str) -> (r: Result<bool, CellError>)
    ensures
        match r {
            Ok(b) => (b && cell@ == "TRUE"@) || (!b && cell@ != "TRUE"@ && cell@ == "FALSE"@),
            Err(CellError::NotABool(text)) => cell@ != "TRUE"@ && cell@ != "FALSE"@ && text@
                == cell@,
        },
{
    if str_eq(cell, "TRUE") {
        Ok(true)
    } else if str_eq(cell, "FALSE") {
        Ok(false)
    } else {
        Err(CellError::NotABool(String::from_str(cell)))
    }
}

} // verus!
