//! The documents that make up the site, as the table of contents lists them.

use vstd::prelude::*;
use vstd::string::StrSliceExecFns;
use crate::text::{
    find_from, first_match, matches_at, push_range, push_str, starts_with, to_chars, to_text,
};

verus! {

//-------------------------------------------------------------------------
// Document ids

/// What follows `pat` at the start of `s`, if `s` starts with it.
pub open spec fn after(s: Option<Seq<char>>, pat: Seq<char>) -> Option<Seq<char>> {
    match s {
        Some(s) => if starts_with(s, pat) {
            Some(s.skip(pat.len() as int))
        } else {
            None
        },
        None => None,
    }
}

/// What follows the first character of `s`, if that is not a line feed.
pub open spec fn after_any(s: Option<Seq<char>>) -> Option<Seq<char>> {
    match s {
        Some(s) => if s.len() > 0 && s[0] != '\n' {
            Some(s.skip(1))
        } else {
            None
        },
        None => None,
    }
}

/// Whether `c` is one of the digits `0` to `9`.
pub open spec fn is_digit(c: char) -> bool {
    '0' as int <= c as int <= '9' as int
}

/// The number of digits at the start of `s`.
pub open spec fn digit_run(s: Seq<char>) -> nat
    decreases s.len(),
{
    if s.len() > 0 && is_digit(s[0]) {
        1 + digit_run(s.drop_first())
    } else {
        0
    }
}

/// What follows the host of the document service. The two separators of
/// the host name may be any character but a line feed.
pub open spec fn after_host(url: Seq<char>) -> Option<Seq<char>> {
    after(after_any(after(after_any(after(Some(url), "https://docs"@)), "google"@)), "com/"@)
}

/// What follows the kind of document: `document` or `spreadsheets`.
pub open spec fn after_kind(s: Option<Seq<char>>) -> Option<Seq<char>> {
    match after(s, "document"@) {
        Some(rest) => Some(rest),
        None => after(s, "spreadsheets"@),
    }
}

/// What follows the optional user part `/u/` and a number.
pub open spec fn after_user(s: Option<Seq<char>>) -> Option<Seq<char>> {
    match after(s, seq!['/', 'u', '/']) {
        Some(rest) => if digit_run(rest) > 0 {
            Some(rest.skip(digit_run(rest) as int))
        } else {
            s
        },
        None => s,
    }
}

/// The document id of a URL of the document service:
/// `https://docs.google.com/`, then `document` or `spreadsheets`, then
/// optionally `/u/` and a number, then `/d/`, the id, and `/`. The id is
/// not empty and holds no `/`.
pub open spec fn doc_id(url: Seq<char>) -> Option<Seq<char>> {
    match after(after_user(after_kind(after_host(url))), seq!['/', 'd', '/']) {
        Some(rest) => match first_match(rest, seq!['/']) {
            Some(n) => if n > 0 {
                Some(rest.take(n))
            } else {
                None
            },
            None => None,
        },
        None => None,
    }
}

/// What is left of `s` from an optional position on.
pub open spec fn rest_at(s: Seq<char>, at: Option<usize>) -> Option<Seq<char>> {
    match at {
        Some(p) => Some(s.skip(p as int)),
        None => None,
    }
}

/// The position after `pat`, where `pat` stands at the position `at`.
pub fn eat(v: &Vec<char>, at: Option<usize>, pat: &Vec<char>) -> (r: Option<usize>)
    requires
        at matches Some(p) ==> p <= v.len(),
    ensures
        rest_at(v@, r) == after(rest_at(v@, at), pat@),
        r matches Some(q) ==> q <= v.len(),
{
    match at {
        Some(p) => {
            let found = matches_at(v, p, v.len(), pat);
            proof {
                assert(v@.take(v.len() as int) == v@);
                if p + pat@.len() <= v.len() {
                    assert(v@.subrange(p as int, p + pat@.len()) == v@.skip(p as int).subrange(
                        0,
                        pat@.len() as int,
                    ));
                }
                assert(found == starts_with(v@.skip(p as int), pat@));
            }
            if found {
                assert(v@.skip(p as int).skip(pat@.len() as int) == v@.skip(p + pat@.len()));
                Some(p + pat.len())
            } else {
                None
            }
        },
        None => None,
    }
}

/// The position after the character at `at`, where that is not a line feed.
pub fn eat_any(v: &Vec<char>, at: Option<usize>) -> (r: Option<usize>)
    requires
        at matches Some(p) ==> p <= v.len(),
    ensures
        rest_at(v@, r) == after_any(rest_at(v@, at)),
        r matches Some(q) ==> q <= v.len(),
{
    match at {
        Some(p) => {
            if p < v.len() && v[p] != '\n' {
                assert(v@.skip(p as int).skip(1) == v@.skip(p + 1));
                Some(p + 1)
            } else {
                None
            }
        },
        None => None,
    }
}

/// Whether `c` is one of the digits `0` to `9`.
pub fn is_ascii_digit(c: char) -> (r: bool)
    ensures
        r == is_digit(c),
{
    '0' <= c && c <= '9'
}

/// The number of digits from the position `at` on.
pub fn count_digits(v: &Vec<char>, at: usize) -> (n: usize)
    requires
        at <= v.len(),
    ensures
        n == digit_run(v@.skip(at as int)),
        at + n <= v.len(),
{
    let mut i: usize = at;
    while i < v.len() && is_ascii_digit(v[i])
        invariant
            at <= i <= v.len(),
            digit_run(v@.skip(at as int)) == (i - at) + digit_run(v@.skip(i as int)),
        decreases v.len() - i,
    {
        assert(v@.skip(i as int).drop_first() == v@.skip(i + 1));
        i += 1;
    }
    i - at
}

/// The position after the host of the document service.
pub fn eat_host(v: &Vec<char>) -> (r: Option<usize>)
    ensures
        rest_at(v@, r) == after_host(v@),
        r matches Some(q) ==> q <= v.len(),
{
    let start: Option<usize> = Some(0);
    assert(v@.skip(0) == v@);
    let docs = eat(v, start, &to_chars("https://docs"));
    let first_dot = eat_any(v, docs);
    let google = eat(v, first_dot, &to_chars("google"));
    let second_dot = eat_any(v, google);
    eat(v, second_dot, &to_chars("com/"))
}

/// The position after the kind of document.
pub fn eat_kind(v: &Vec<char>, at: Option<usize>) -> (r: Option<usize>)
    requires
        at matches Some(p) ==> p <= v.len(),
    ensures
        rest_at(v@, r) == after_kind(rest_at(v@, at)),
        r matches Some(q) ==> q <= v.len(),
{
    match eat(v, at, &to_chars("document")) {
        Some(p) => Some(p),
        None => eat(v, at, &to_chars("spreadsheets")),
    }
}

/// The position after the optional user part.
pub fn eat_user(v: &Vec<char>, at: Option<usize>) -> (r: Option<usize>)
    requires
        at matches Some(p) ==> p <= v.len(),
    ensures
        rest_at(v@, r) == after_user(rest_at(v@, at)),
        r matches Some(q) ==> q <= v.len(),
{
    let mut user_mark: Vec<char> = Vec::new();
    user_mark.push('/');
    user_mark.push('u');
    user_mark.push('/');
    assert(user_mark@ == seq!['/', 'u', '/']);
    match eat(v, at, &user_mark) {
        Some(p) => {
            let n: usize = count_digits(v, p);
            if n > 0 {
                assert(v@.skip(p as int).skip(n as int) == v@.skip(p + n));
                Some(p + n)
            } else {
                at
            }
        },
        None => at,
    }
}

/// The window of `v` that holds the document id, if `v` is a URL of the
/// document service.
#[verifier::rlimit(40)]
pub fn doc_id_window(v: &Vec<char>) -> (r: Option<(usize, usize)>)
    ensures
        match r {
            Some((from, to)) => from <= to <= v.len() && doc_id(v@) == Some(
                v@.subrange(from as int, to as int),
            ),
            None => doc_id(v@) is None,
        },
{
    let host = eat_host(v);
    let kind = eat_kind(v, host);
    let user = eat_user(v, kind);
    let mut id_mark: Vec<char> = Vec::new();
    id_mark.push('/');
    id_mark.push('d');
    id_mark.push('/');
    assert(id_mark@ == seq!['/', 'd', '/']);
    let mut slash: Vec<char> = Vec::new();
    slash.push('/');
    assert(slash@ == seq!['/']);
    match eat(v, user, &id_mark) {
        Some(from) => {
            assert(v@.subrange(from as int, v.len() as int) == v@.skip(from as int));
            match find_from(v, from, v.len(), &slash) {
                Some(to) => {
                    if to > from {
                        assert(v@.skip(from as int).take(to - from) == v@.subrange(
                            from as int,
                            to as int,
                        ));
                        Some((from, to))
                    } else {
                        None
                    }
                },
                None => None,
            }
        },
        None => None,
    }
}

/// Extracts the document id, if any, from a URL of the document service.
pub fn get_doc_id(url: &str) -> (r: Option<&str>)
    ensures
        match r {
            Some(id) => doc_id(url@) == Some(id@),
            None => doc_id(url@) is None,
        },
{
    let v = to_chars(url);
    match doc_id_window(&v) {
        Some((from, to)) => Some(url.substring_char(from, to)),
        None => None,
    }
}

//-------------------------------------------------------------------------
// The table of contents

/// One document of the site, as a row of the table of contents gives it.
#[derive(Clone, Debug)]
pub struct DocData {
    pub title: String,
    /// Target path. Has a leading `/` but no trailing `/`.
    pub slug: String,
    pub author: Option<String>,
    pub category: Option<String>,
    pub weight: Option<i16>,
    pub publish: bool,
    /// Seconds since the epoch.
    pub publish_date: Option<i64>,
    /// Seconds since the epoch.
    pub update_date: Option<i64>,
    /// Address of the published rendering of the document.
    pub gdoc_pub_url: Option<String>,
    /// Address of the document, used to translate links.
    pub gdoc_url: Option<String>,
    /// Relative path of the downloaded page.
    pub download_path: String,
    /// Further columns, handed on to the front matter.
    pub other: Vec<(String, String)>,
}

/// The texts of a sequence of pairs of strings.
pub open spec fn entry_texts(v: Seq<(String, String)>) -> Seq<(Seq<char>, Seq<char>)> {
    Seq::new(v.len(), |i: int| (v[i].0@, v[i].1@))
}

/// `url` without its fragment.
pub open spec fn without_fragment(url: Seq<char>) -> Seq<char> {
    match first_match(url, seq!['#']) {
        Some(i) => url.take(i),
        None => url,
    }
}

/// `slug` with a leading `/` and without a trailing one.
pub open spec fn normal_slug(slug: Seq<char>) -> Seq<char> {
    let cut = if slug.len() > 0 && slug.last() == '/' {
        slug.drop_last()
    } else {
        slug
    };
    if cut.len() > 0 && cut[0] == '/' {
        cut
    } else {
        seq!['/'] + cut
    }
}

/// `s` with every `/` replaced by `_`.
pub open spec fn flat(s: Seq<char>) -> Seq<char> {
    Seq::new(
        s.len(),
        |i: int|
            if s[i] == '/' {
                '_'
            } else {
                s[i]
            },
    )
}

/// The path under which the page of a slug is downloaded.
pub open spec fn download_path_of(slug: Seq<char>) -> Seq<char> {
    (if slug.len() == 1 {
        "_index"@
    } else {
        flat(slug.skip(1))
    }) + ".html"@
}

/// The entries of `entries` whose value is not empty, in order.
pub open spec fn filled(entries: Seq<(Seq<char>, Seq<char>)>) -> Seq<(Seq<char>, Seq<char>)>
    decreases entries.len(),
{
    if entries.len() == 0 {
        Seq::empty()
    } else if entries.last().1.len() > 0 {
        filled(entries.drop_last()).push(entries.last())
    } else {
        filled(entries.drop_last())
    }
}

/// The text of an optional string.
pub open spec fn text_of(s: Option<String>) -> Option<Seq<char>> {
    match s {
        Some(s) => Some(s@),
        None => None,
    }
}

/// `url` without its fragment.
pub fn strip_fragment(url: &str) -> (r: String)
    ensures
        r@ == without_fragment(url@),
{
    let v = to_chars(url);
    let mut hash: Vec<char> = Vec::new();
    hash.push('#');
    assert(hash@ == seq!['#']);
    assert(v@.subrange(0, v.len() as int) == v@);
    match find_from(&v, 0, v.len(), &hash) {
        Some(i) => {
            let mut r: Vec<char> = Vec::new();
            push_range(&mut r, &v, 0, i);
            assert(v@.subrange(0, i as int) == v@.take(i as int));
            to_text(&r)
        },
        None => to_text(&v),
    }
}

/// `slug` with a leading `/` and without a trailing one.
pub fn normalize_slug(slug: &str) -> (r: String)
    ensures
        r@ == normal_slug(slug@),
{
    let v = to_chars(slug);
    let mut end: usize = v.len();
    if end > 0 && v[end - 1] == '/' {
        end = end - 1;
    }
    let ghost cut = v@.take(end as int);
    assert(cut == if slug@.len() > 0 && slug@.last() == '/' {
        slug@.drop_last()
    } else {
        slug@
    });
    let mut r: Vec<char> = Vec::new();
    if !(end > 0 && v[0] == '/') {
        r.push('/');
    }
    push_range(&mut r, &v, 0, end);
    assert(v@.subrange(0, end as int) == cut);
    to_text(&r)
}

/// The path under which the page of `slug` is downloaded.
pub fn download_path(slug: &str) -> (r: String)
    requires
        slug@.len() > 0,
    ensures
        r@ == download_path_of(slug@),
{
    let v = to_chars(slug);
    let mut r: Vec<char> = Vec::new();
    if v.len() == 1 {
        push_str(&mut r, "_index");
    } else {
        let mut i: usize = 1;
        assert(r@ == flat(v@.subrange(1, 1)));
        while i < v.len()
            invariant
                1 <= i <= v.len(),
                r@ == flat(v@.subrange(1, i as int)),
            decreases v.len() - i,
        {
            if v[i] == '/' {
                r.push('_');
            } else {
                r.push(v[i]);
            }
            assert(r@ == flat(v@.subrange(1, i + 1)));
            i += 1;
        }
        assert(v@.subrange(1, v.len() as int) == v@.skip(1));
    }
    push_str(&mut r, ".html");
    to_text(&r)
}

/// The entries whose value is not empty, in order.
pub fn keep_filled(entries: &Vec<(String, String)>) -> (r: Vec<(String, String)>)
    ensures
        entry_texts(r@) == filled(entry_texts(entries@)),
{
    let ghost all = entry_texts(entries@);
    let mut r: Vec<(String, String)> = Vec::new();
    let mut i: usize = 0;
    assert(entry_texts(r@) == filled(all.take(0)));
    while i < entries.len()
        invariant
            i <= entries.len(),
            all == entry_texts(entries@),
            entry_texts(r@) == filled(all.take(i as int)),
        decreases entries.len() - i,
    {
        assert(all.take(i + 1).drop_last() == all.take(i as int));
        let ghost before = entry_texts(r@);
        if entries[i].1.as_str().unicode_len() > 0 {
            let key = entries[i].0.clone();
            let value = entries[i].1.clone();
            r.push((key, value));
            assert(entry_texts(r@) == before.push(all[i as int]));
        }
        i += 1;
    }
    assert(all.take(entries.len() as int) == all);
    r
}

impl DocData {
    /// The row as the site uses it: the address of the document without
    /// its fragment, the slug with a leading `/` and without a trailing
    /// one, the download path that goes with the slug, and no further
    /// column that is empty.
    pub fn normalized(self) -> (r: DocData)
        ensures
            r.slug@ == normal_slug(self.slug@),
            text_of(r.gdoc_url) == match self.gdoc_url {
                Some(url) => Some(without_fragment(url@)),
                None => None,
            },
            r.download_path@ == download_path_of(normal_slug(self.slug@)),
            entry_texts(r.other@) == filled(entry_texts(self.other@)),
            r.title == self.title,
            r.author == self.author,
            r.category == self.category,
            r.weight == self.weight,
            r.publish == self.publish,
            r.publish_date == self.publish_date,
            r.update_date == self.update_date,
            r.gdoc_pub_url == self.gdoc_pub_url,
    {
        let gdoc_url = match &self.gdoc_url {
            Some(url) => Some(strip_fragment(url.as_str())),
            None => None,
        };
        let slug = normalize_slug(self.slug.as_str());
        let path = download_path(slug.as_str());
        let other = keep_filled(&self.other);
        DocData {
            title: self.title,
            slug,
            author: self.author,
            category: self.category,
            weight: self.weight,
            publish: self.publish,
            publish_date: self.publish_date,
            update_date: self.update_date,
            gdoc_pub_url: self.gdoc_pub_url,
            gdoc_url,
            download_path: path,
            other,
        }
    }
}

} // verus!
