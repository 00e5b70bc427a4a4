//! The pages of the site, and the translation of links between documents
//! into links between pages.

use vstd::prelude::*;
use vstd::string::StringExecFns;
use crate::gdocs_site::{doc_id, entry_texts, get_doc_id, is_ascii_digit, is_digit, DocData};
use crate::text::{
    chars_eq, drop_spaces, find_from, first_match, has_prefix, lemma_first_match, matches_at,
    push_range, push_str, skip_spaces, starts_with, to_chars, to_text, trim,
};

verus! {

/// Why a link could not be translated.
#[derive(Debug, PartialEq, Eq)]
pub enum RewriteError {
    /// A redirect through the search engine is not a valid URL.
    InvalidRedirect,
    /// A link leads to a document, with this id, that is not a page of the site.
    UnknownDocument(String),
    /// A link leads to a document, at this address, that is not a page of the site.
    NotInSite(String),
    /// The address of a page of the site holds no document id.
    NoDocumentId(String),
}

/// The mathematical content of a `RewriteError`.
pub enum RewriteErrorView {
    InvalidRedirect,
    UnknownDocument(Seq<char>),
    NotInSite(Seq<char>),
    NoDocumentId(Seq<char>),
}

impl View for RewriteError {
    type V = RewriteErrorView;

    open spec fn view(&self) -> RewriteErrorView {
        match self {
            RewriteError::InvalidRedirect => RewriteErrorView::InvalidRedirect,
            RewriteError::UnknownDocument(id) => RewriteErrorView::UnknownDocument(id@),
            RewriteError::NotInSite(url) => RewriteErrorView::NotInSite(url@),
            RewriteError::NoDocumentId(url) => RewriteErrorView::NoDocumentId(url@),
        }
    }
}

impl RewriteError {
    /// A description of the error for the user.
    pub fn message(&self) -> (s: String)
        ensures
            s@ == match self {
                RewriteError::InvalidRedirect => "Redirect link is not a valid URL"@,
                RewriteError::UnknownDocument(id) => "Found a link to a GDoc that is not in the page list: id="@
                    + id@,
                RewriteError::NotInSite(url) => "Google doc url not found in site pages "@ + url@,
                RewriteError::NoDocumentId(url) => "Cannot extract doc id from "@ + url@,
            },
    {
        let mut out: Vec<char> = Vec::new();
        match self {
            RewriteError::InvalidRedirect => {
                push_str(&mut out, "Redirect link is not a valid URL");
            },
            RewriteError::UnknownDocument(id) => {
                push_str(&mut out, "Found a link to a GDoc that is not in the page list: id=");
                push_str(&mut out, id.as_str());
            },
            RewriteError::NotInSite(url) => {
                push_str(&mut out, "Google doc url not found in site pages ");
                push_str(&mut out, url.as_str());
            },
            RewriteError::NoDocumentId(url) => {
                push_str(&mut out, "Cannot extract doc id from ");
                push_str(&mut out, url.as_str());
            },
        }
        to_text(&out)
    }
}

/// The table that a list of entries stands for: a later entry replaces an
/// earlier one with the same key.
pub open spec fn table(entries: Seq<(Seq<char>, Seq<char>)>) -> Map<Seq<char>, Seq<char>>
    decreases entries.len(),
{
    if entries.len() == 0 {
        Map::empty()
    } else {
        table(entries.drop_last()).insert(entries.last().0, entries.last().1)
    }
}

/// The value under `key` in `m`, if there is one.
pub open spec fn value_in(m: Map<Seq<char>, Seq<char>>, key: Seq<char>) -> Option<Seq<char>> {
    if m.contains_key(key) {
        Some(m[key])
    } else {
        None
    }
}

/// The pages of the site: the slug of each, by the address of its
/// published rendering and by the id of its document.
#[derive(Debug)]
pub struct SiteData {
    pub url_to_slug: Vec<(String, String)>,
    pub id_to_slug: Vec<(String, String)>,
}

/// The mathematical content of `SiteData`.
pub struct SiteView {
    pub urls: Map<Seq<char>, Seq<char>>,
    pub ids: Map<Seq<char>, Seq<char>>,
}

impl View for SiteData {
    type V = SiteView;

    open spec fn view(&self) -> SiteView {
        SiteView {
            urls: table(entry_texts(self.url_to_slug@)),
            ids: table(entry_texts(self.id_to_slug@)),
        }
    }
}

impl Default for SiteData {
    /// A site without pages.
    fn default() -> (r: Self)
        ensures
            r@ == (SiteView { urls: Map::empty(), ids: Map::empty() }),
    {
        SiteData { url_to_slug: Vec::new(), id_to_slug: Vec::new() }
    }
}

/// The value under `key` in the table of `entries`.
pub fn lookup<'a>(entries: &'a Vec<(String, String)>, key: &Vec<char>) -> (r: Option<&'a String>)
    ensures
        match r {
            Some(v) => value_in(table(entry_texts(entries@)), key@) == Some(v@),
            None => value_in(table(entry_texts(entries@)), key@) is None,
        },
{
    let ghost all = entry_texts(entries@);
    let mut i: usize = entries.len();
    assert(all.take(i as int) == all);
    while i > 0
        invariant
            i <= entries.len(),
            all == entry_texts(entries@),
            value_in(table(all), key@) == value_in(table(all.take(i as int)), key@),
        decreases i,
    {
        assert(all.take(i as int).drop_last() == all.take(i - 1));
        if chars_eq(key, entries[i - 1].0.as_str()) {
            return Some(&entries[i - 1].1);
        }
        i -= 1;
    }
    None
}

//-------------------------------------------------------------------------
// Redirects

/// The pairs of the query of `url`, each name and value decoded; `None`
/// where `url` is not a valid URL.
pub uninterp spec fn url_query_pairs(url: Seq<char>) -> Option<Seq<(Seq<char>, Seq<char>)>>;

/// The view of an optional list of pairs.
pub open spec fn pairs_view(pairs: Option<Vec<(String, String)>>) -> Option<
    Seq<(Seq<char>, Seq<char>)>,
> {
    match pairs {
        Some(v) => Some(entry_texts(v@)),
        None => None,
    }
}

/// The pairs of the query of `url`.
///
/// Trusted: calls `Url::parse` and `Url::query_pairs` of the `url` crate.
/// The contract names what they give for a text; it claims nothing more
/// than that the same text gives the same pairs.
#[verifier::external_body]
fn query_pairs(url: &str) -> (r: Option<Vec<(String, String)>>)
    ensures
        pairs_view(r) == url_query_pairs(url@),
{
    match url::Url::parse(url) {
        Ok(parsed) => Some(
            parsed.query_pairs().map(|(k, v)| (k.into_owned(), v.into_owned())).collect(),
        ),
        Err(_) => None,
    }
}

/// The value of the first pair named `key`, from position `from` on.
pub open spec fn first_value(pairs: Seq<(Seq<char>, Seq<char>)>, key: Seq<char>, from: int) -> Option<
    Seq<char>,
>
    decreases pairs.len() - from,
{
    if from < 0 || from >= pairs.len() {
        None
    } else if pairs[from].0 == key {
        Some(pairs[from].1)
    } else {
        first_value(pairs, key, from + 1)
    }
}

/// What a redirect through the search engine leads to, given the pairs of
/// its query: the value of the first pair named `q`, trimmed.
pub open spec fn redirect_target(pairs: Seq<(Seq<char>, Seq<char>)>) -> Option<Seq<char>> {
    match first_value(pairs, seq!['q'], 0) {
        Some(value) => Some(trim(value)),
        None => None,
    }
}

/// What a redirect leads to, given the pairs of its query.
pub fn target_of(pairs: &Vec<(String, String)>) -> (r: Option<String>)
    ensures
        text_view(r) == redirect_target(entry_texts(pairs@)),
{
    let ghost all = entry_texts(pairs@);
    let mut q: Vec<char> = Vec::new();
    q.push('q');
    assert(q@ == seq!['q']);
    let mut i: usize = 0;
    while i < pairs.len()
        invariant
            i <= pairs.len(),
            all == entry_texts(pairs@),
            q@ == seq!['q'],
            first_value(all, seq!['q'], 0) == first_value(all, seq!['q'], i as int),
        decreases pairs.len() - i,
    {
        if chars_eq(&q, pairs[i].0.as_str()) {
            let v = to_chars(pairs[i].1.as_str());
            assert(v@.subrange(0, v.len() as int) == v@);
            let a: usize = skip_spaces(&v, 0, v.len());
            let b: usize = drop_spaces(&v, a, v.len());
            let mut t: Vec<char> = Vec::new();
            push_range(&mut t, &v, a, b);
            return Some(to_text(&t));
        }
        i += 1;
    }
    None
}

/// The text of an optional string.
pub open spec fn text_view(s: Option<String>) -> Option<Seq<char>> {
    match s {
        Some(s) => Some(s@),
        None => None,
    }
}

//-------------------------------------------------------------------------
// Addresses with a user part

/// Whether `s` starts with `/document/u/`, one digit and `/`.
pub open spec fn user_here(s: Seq<char>) -> bool {
    let mark = "/document/u/"@;
    let n = mark.len() as int;
    starts_with(s, mark) && s.len() >= n + 2 && is_digit(s[n]) && s[n + 1] == '/'
}

/// The first position, from `from` on, where a user part stands.
pub open spec fn user_from(s: Seq<char>, from: int) -> Option<int>
    decreases s.len() - from,
{
    if from < 0 || from >= s.len() {
        None
    } else if user_here(s.skip(from)) {
        Some(from)
    } else {
        user_from(s, from + 1)
    }
}

/// `url` with its first user part `/document/u/N/` replaced by `/document/`.
pub open spec fn without_user(url: Seq<char>) -> Seq<char> {
    match user_from(url, 0) {
        Some(p) => url.take(p) + "/document/"@ + url.skip(p + "/document/u/"@.len() + 2),
        None => url,
    }
}

/// `url` with its first user part replaced by `/document/`.
pub fn strip_user(url: &str) -> (r: String)
    ensures
        r@ == without_user(url@),
{
    let v = to_chars(url);
    let mark = to_chars("/document/u/");
    let n: usize = v.len();
    let len: usize = mark.len();
    let mut p: usize = 0;
    while p < n
        invariant
            p <= n,
            n == v.len(),
            len == mark.len(),
            v@ == url@,
            mark@ == "/document/u/"@,
            user_from(v@, 0) == user_from(v@, p as int),
        decreases n - p,
    {
        let found = matches_at(&v, p, n, &mark);
        proof {
            assert(v@.take(n as int) == v@);
            if p + len <= n {
                assert(v@.subrange(p as int, p + len) == v@.skip(p as int).subrange(0, len as int));
            }
            assert(found == starts_with(v@.skip(p as int), mark@));
        }
        if found && n - p - len >= 2 && is_ascii_digit(v[p + len]) && v[p + len + 1] == '/' {
            assert(user_here(v@.skip(p as int)));
            let mut r: Vec<char> = Vec::new();
            push_range(&mut r, &v, 0, p);
            push_str(&mut r, "/document/");
            push_range(&mut r, &v, p + len + 2, n);
            assert(v@.subrange(0, p as int) == v@.take(p as int));
            assert(v@.subrange(p + len + 2, n as int) == v@.skip(p + len + 2));
            return to_text(&r);
        }
        assert(!user_here(v@.skip(p as int)));
        p += 1;
    }
    to_text(&v)
}

//-------------------------------------------------------------------------
// Translation

/// The address of the page with the slug `slug`.
pub open spec fn page_url(slug: Seq<char>) -> Seq<char> {
    slug.push('/')
}

/// The translation of an address that is no redirect: the page that is
/// published at the address; else, for an address of the document
/// service, the page of the document with its id, or, where it holds no
/// id, the page published at the address without its user part; else
/// nothing. An address of the document service that leads to no page is
/// an error.
pub open spec fn direct_translation(site: SiteView, url: Seq<char>) -> Result<
    Option<Seq<char>>,
    RewriteErrorView,
> {
    if site.urls.contains_key(url) {
        Ok(Some(page_url(site.urls[url])))
    } else if starts_with(url, "https://docs.google.com/document/"@) {
        match doc_id(url) {
            Some(id) => if site.ids.contains_key(id) {
                Ok(Some(page_url(site.ids[id])))
            } else {
                Err(RewriteErrorView::UnknownDocument(id))
            },
            None => if site.urls.contains_key(without_user(url)) {
                Ok(Some(page_url(site.urls[without_user(url)])))
            } else {
                Err(RewriteErrorView::NotInSite(without_user(url)))
            },
        }
    } else {
        Ok(None)
    }
}

/// The translation of an address. A redirect through the search engine is
/// replaced by the translation of its target, or by the target itself
/// where that has no translation.
pub open spec fn translation(site: SiteView, url: Seq<char>) -> Result<
    Option<Seq<char>>,
    RewriteErrorView,
>
    decreases url.len(),
{
    if starts_with(url, "https://www.google.com/url?"@) {
        match url_query_pairs(url) {
            Some(pairs) => match redirect_target(pairs) {
                Some(target) => if target.len() < url.len() {
                    match translation(site, target) {
                        Ok(Some(page)) => Ok(Some(page)),
                        Ok(None) => Ok(Some(target)),
                        Err(e) => Err(e),
                    }
                } else {
                    Ok(Some(target))
                },
                None => direct_translation(site, url),
            },
            None => Err(RewriteErrorView::InvalidRedirect),
        }
    } else {
        direct_translation(site, url)
    }
}

/// The translation of a link: that of its address, with the fragment of
/// the link kept.
pub open spec fn href_translation(site: SiteView, href: Seq<char>) -> Result<
    Option<Seq<char>>,
    RewriteErrorView,
> {
    match first_match(href, seq!['#']) {
        Some(i) => match translation(site, href.take(i)) {
            Ok(Some(page)) => Ok(Some(page + seq!['#'] + href.skip(i + 1))),
            Ok(None) => Ok(None),
            Err(e) => Err(e),
        },
        None => translation(site, href),
    }
}

/// The view of the result of a translation.
pub open spec fn translated(r: Result<Option<String>, RewriteError>) -> Result<
    Option<Seq<char>>,
    RewriteErrorView,
> {
    match r {
        Ok(Some(s)) => Ok(Some(s@)),
        Ok(None) => Ok(None),
        Err(e) => Err(e@),
    }
}

/// The tables of the site after the rows from position `from` on are
/// added: each row with a published address goes into the first table,
/// each row with a document address goes into the second under its id. A
/// document address without an id is an error.
pub open spec fn site_from(docs: Seq<DocData>, from: int, site: SiteView) -> Result<
    SiteView,
    RewriteErrorView,
>
    decreases docs.len() - from,
{
    if from < 0 || from >= docs.len() {
        Ok(site)
    } else {
        let doc = docs[from];
        let urls = match doc.gdoc_pub_url {
            Some(url) => site.urls.insert(url@, doc.slug@),
            None => site.urls,
        };
        match doc.gdoc_url {
            Some(url) => match doc_id(url@) {
                Some(id) => site_from(
                    docs,
                    from + 1,
                    SiteView { urls, ids: site.ids.insert(id, doc.slug@) },
                ),
                None => Err(RewriteErrorView::NoDocumentId(url@)),
            },
            None => site_from(docs, from + 1, SiteView { urls, ids: site.ids }),
        }
    }
}

impl SiteData {
    /// The pages of the site that the rows `docs` describe.
    pub fn new(docs: &Vec<DocData>) -> (r: Result<Self, RewriteError>)
        ensures
            match r {
                Ok(site) => site_from(
                    docs@,
                    0,
                    SiteView { urls: Map::empty(), ids: Map::empty() },
                ) == Ok::<SiteView, RewriteErrorView>(site@),
                Err(e) => site_from(docs@, 0, SiteView { urls: Map::empty(), ids: Map::empty() })
                    == Err::<SiteView, RewriteErrorView>(e@),
            },
    {
        let ghost start = SiteView { urls: Map::empty(), ids: Map::empty() };
        let mut site = SiteData { url_to_slug: Vec::new(), id_to_slug: Vec::new() };
        let mut i: usize = 0;
        while i < docs.len()
            invariant
                i <= docs.len(),
                start == (SiteView { urls: Map::empty(), ids: Map::empty() }),
                site_from(docs@, 0, start) == site_from(docs@, i as int, site@),
            decreases docs.len() - i,
        {
            let doc = &docs[i];
            let ghost before = site@;
            if let Some(url) = &doc.gdoc_pub_url {
                let ghost entries = entry_texts(site.url_to_slug@);
                site.url_to_slug.push((url.clone(), doc.slug.clone()));
                assert(entry_texts(site.url_to_slug@).drop_last() == entries);
            }
            if let Some(url) = &doc.gdoc_url {
                match get_doc_id(url.as_str()) {
                    Some(id) => {
                        let ghost entries = entry_texts(site.id_to_slug@);
                        site.id_to_slug.push((String::from_str(id), doc.slug.clone()));
                        assert(entry_texts(site.id_to_slug@).drop_last() == entries);
                    },
                    None => {
                        return Err(RewriteError::NoDocumentId(url.clone()));
                    },
                }
            }
            i += 1;
        }
        Ok(site)
    }

    /// Translates an address that is no redirect.
    pub fn rewrite_direct(&self, url: &str) -> (r: Result<Option<String>, RewriteError>)
        ensures
            translated(r) == direct_translation(self@, url@),
    {
        let v = to_chars(url);
        if let Some(slug) = lookup(&self.url_to_slug, &v) {
            return Ok(Some(page_of(slug)));
        }
        if has_prefix(&v, "https://docs.google.com/document/") {
            match get_doc_id(url) {
                Some(id) => {
                    let key = to_chars(id);
                    match lookup(&self.id_to_slug, &key) {
                        Some(slug) => Ok(Some(page_of(slug))),
                        None => Err(RewriteError::UnknownDocument(String::from_str(id))),
                    }
                },
                None => {
                    let plain = strip_user(url);
                    let key = to_chars(plain.as_str());
                    match lookup(&self.url_to_slug, &key) {
                        Some(slug) => Ok(Some(page_of(slug))),
                        None => Err(RewriteError::NotInSite(plain)),
                    }
                },
            }
        } else {
            Ok(None)
        }
    }

    /// Translates an address of a document into the address of a page.
    pub fn rewrite_url(&self, url: &str) -> (r: Result<Option<String>, RewriteError>)
        ensures
            translated(r) == translation(self@, url@),
        decreases url@.len(),
    {
        let v = to_chars(url);
        if has_prefix(&v, "https://www.google.com/url?") {
            match query_pairs(url) {
                Some(pairs) => match target_of(&pairs) {
                    Some(target) => {
                        if target.as_str().unicode_len() < v.len() {
                            match self.rewrite_url(target.as_str()) {
                                Ok(Some(page)) => Ok(Some(page)),
                                Ok(None) => Ok(Some(target)),
                                Err(e) => Err(e),
                            }
                        } else {
                            Ok(Some(target))
                        }
                    },
                    None => self.rewrite_direct(url),
                },
                None => Err(RewriteError::InvalidRedirect),
            }
        } else {
            self.rewrite_direct(url)
        }
    }

    /// Rewrites a link, so that a reference to a document becomes a
    /// reference to its page. The fragment of the link, if any, is kept.
    pub fn rewrite_href(&self, href: &str) -> (r: Result<Option<String>, RewriteError>)
        ensures
            translated(r) == href_translation(self@, href@),
    {
        let v = to_chars(href);
        let mut hash: Vec<char> = Vec::new();
        hash.push('#');
        assert(hash@ == seq!['#']);
        assert(v@.subrange(0, v.len() as int) == v@);
        match find_from(&v, 0, v.len(), &hash) {
            Some(i) => {
                proof {
                    lemma_first_match(v@, seq!['#']);
                }
                let mut url: Vec<char> = Vec::new();
                push_range(&mut url, &v, 0, i);
                assert(url@ == v@.take(i as int));
                let address = to_text(&url);
                match self.rewrite_url(address.as_str()) {
                    Ok(Some(page)) => {
                        let mut out = to_chars(page.as_str());
                        out.push('#');
                        push_range(&mut out, &v, i + 1, v.len());
                        assert(v@.subrange(i + 1, v.len() as int) == v@.skip(i + 1));
                        assert(out@ == page@ + seq!['#'] + href@.skip(i + 1));
                        Ok(Some(to_text(&out)))
                    },
                    Ok(None) => Ok(None),
                    Err(e) => Err(e),
                }
            },
            None => self.rewrite_url(href),
        }
    }
}

/// The address of the page with the slug `slug`.
pub fn page_of(slug: &String) -> (r: String)
    ensures
        r@ == page_url(slug@),
{
    let mut out = to_chars(slug.as_str());
    out.push('/');
    to_text(&out)
}

} // verus!
