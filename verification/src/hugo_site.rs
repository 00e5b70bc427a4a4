//! The front matter of a page of the generated site.

use vstd::prelude::*;

verus! {

/// The front matter of a page.
#[derive(Clone, Debug)]
pub struct FrontMatter {
    pub markup: String,
    pub author: Option<String>,
    pub title: String,
    /// Seconds since the epoch.
    pub date: Option<i64>,
    /// Seconds since the epoch.
    pub lastmod: Option<i64>,
    pub banner: Option<String>,
    pub slug: String,
    pub url: Option<String>,
    pub categories: Vec<String>,
    pub weight: Option<i16>,
    pub summary: Option<String>,
    /// Same as the summary; the site uses one for lists and one for search engines.
    pub description: Option<String>,
    pub inline_style: Option<String>,
    /// Not used to publish; tells generated pages apart.
    pub gdoc_url: Option<String>,
    /// Further entries, handed on from the table of contents.
    pub other: Vec<(String, String)>,
}

impl Default for FrontMatter {
    /// The front matter with every text empty and every option absent.
    fn default() -> (r: Self)
        ensures
            r.markup@.len() == 0,
            r.title@.len() == 0,
            r.slug@.len() == 0,
            r.categories@.len() == 0,
            r.other@.len() == 0,
            r.author is None,
            r.date is None,
            r.lastmod is None,
            r.banner is None,
            r.url is None,
            r.weight is None,
            r.summary is None,
            r.description is None,
            r.inline_style is None,
            r.gdoc_url is None,
    {
        FrontMatter {
            markup: String::new(),
            author: None,
            title: String::new(),
            date: None,
            lastmod: None,
            banner: None,
            slug: String::new(),
            url: None,
            categories: Vec::new(),
            weight: None,
            summary: None,
            description: None,
            inline_style: None,
            gdoc_url: None,
            other: Vec::new(),
        }
    }
}

} // verus!
