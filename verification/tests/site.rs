use gdocs2hugo::gdocs_site::{
    download_path, get_doc_id, normalize_slug, strip_fragment, DocData,
};
use gdocs2hugo::site::{lookup, strip_user, target_of, RewriteError, SiteData};

fn row(slug: &str, pub_url: Option<&str>, url: Option<&str>) -> DocData {
    DocData {
        title: "t".to_string(),
        slug: slug.to_string(),
        author: None,
        category: None,
        weight: None,
        publish: true,
        publish_date: None,
        update_date: None,
        gdoc_pub_url: pub_url.map(|s| s.to_string()),
        gdoc_url: url.map(|s| s.to_string()),
        download_path: String::new(),
        other: Vec::new(),
    }
}

fn site() -> SiteData {
    SiteData::new(&vec![
        row(
            "/a",
            Some("https://docs.google.com/document/d/e/PUB1/pub"),
            Some("https://docs.google.com/document/d/ID1/edit"),
        ),
        row("/b/c", Some("https://docs.google.com/document/pub/x"), None),
        row("/sheet", None, Some("https://docs.google.com/spreadsheets/d/SHEET/edit")),
    ])
    .unwrap()
}

#[test]
fn test_doc_id_extraction() {
    assert_eq!(
        Some("rUSGSdveGGDaGxuPmDyXus"),
        get_doc_id("https://docs.google.com/document/d/rUSGSdveGGDaGxuPmDyXus/edit")
    );

    assert_eq!(
        Some("rUSGSdveGGDaGxuPmDyXus"),
        get_doc_id("https://docs.google.com/document/u/0/d/rUSGSdveGGDaGxuPmDyXus/edit")
    );
}

#[test]
fn doc_id_of_other_addresses() {
    assert_eq!(get_doc_id("https://docs.google.com/spreadsheets/u/12/d/abc/"), Some("abc"));
    assert_eq!(get_doc_id("https://docs.google.com/spreadsheets/d/a\u{e9}b/x/y"), Some("a\u{e9}b"));
    assert_eq!(get_doc_id("https://docsXgoogleYcom/document/d/abc/"), Some("abc"));
    assert_eq!(get_doc_id("https://docs\ngoogle.com/document/d/abc/"), None);
    assert_eq!(get_doc_id("https://docs.google.com/document/d/abc"), None);
    assert_eq!(get_doc_id("https://docs.google.com/document/d//edit"), None);
    assert_eq!(get_doc_id("https://docs.google.com/document/u//d/abc/"), None);
    assert_eq!(get_doc_id("https://docs.google.com/document/u/x/d/abc/"), None);
    assert_eq!(get_doc_id("https://docs.google.com/forms/d/abc/"), None);
    assert_eq!(get_doc_id("http://docs.google.com/document/d/abc/"), None);
    assert_eq!(get_doc_id(" https://docs.google.com/document/d/abc/"), None);
    assert_eq!(get_doc_id(""), None);
}

#[test]
fn rows_are_normalized() {
    let mut doc = row("posts/first/", None, Some("https://docs.google.com/document/d/X/edit#h"));
    doc.other = vec![
        ("layout".to_string(), "wide".to_string()),
        ("type".to_string(), String::new()),
        ("color".to_string(), "red".to_string()),
    ];
    let doc = doc.normalized();
    assert_eq!(doc.slug, "/posts/first");
    assert_eq!(doc.gdoc_url.as_deref(), Some("https://docs.google.com/document/d/X/edit"));
    assert_eq!(doc.download_path, "posts_first.html");
    assert_eq!(
        doc.other,
        vec![
            ("layout".to_string(), "wide".to_string()),
            ("color".to_string(), "red".to_string())
        ]
    );
    assert_eq!(doc.title, "t");
    assert!(doc.publish);
}

#[test]
fn slugs_fragments_and_download_paths() {
    assert_eq!(normalize_slug("/"), "/");
    assert_eq!(normalize_slug(""), "/");
    assert_eq!(normalize_slug("a"), "/a");
    assert_eq!(normalize_slug("/a/b/"), "/a/b");
    assert_eq!(normalize_slug("a//"), "/a/");
    assert_eq!(strip_fragment("u#a#b"), "u");
    assert_eq!(strip_fragment("#"), "");
    assert_eq!(strip_fragment("plain"), "plain");
    assert_eq!(download_path("/"), "_index.html");
    assert_eq!(download_path("/a"), "a.html");
    assert_eq!(download_path("/a/b/c"), "a_b_c.html");
}

#[test]
fn links_to_documents_become_links_to_pages() {
    let site = site();
    assert_eq!(
        site.rewrite_href("https://docs.google.com/document/d/ID1/edit#heading=h.x"),
        Ok(Some("/a/#heading=h.x".to_string()))
    );
    assert_eq!(
        site.rewrite_href("https://docs.google.com/document/u/0/d/ID1/edit"),
        Ok(Some("/a/".to_string()))
    );
    assert_eq!(
        site.rewrite_href("https://docs.google.com/document/d/e/PUB1/pub"),
        Ok(Some("/a/".to_string()))
    );
    assert_eq!(
        site.rewrite_href("https://docs.google.com/document/u/3/pub/x#top"),
        Ok(Some("/b/c/#top".to_string()))
    );
    assert_eq!(site.rewrite_href("https://example.org/page#frag"), Ok(None));
    assert_eq!(site.rewrite_href("#only-a-fragment"), Ok(None));
    assert_eq!(site.rewrite_href(""), Ok(None));
}

#[test]
fn links_to_unknown_documents_are_errors() {
    let site = site();
    let r = site.rewrite_href("https://docs.google.com/document/d/NOPE/edit#x");
    assert_eq!(r, Err(RewriteError::UnknownDocument("NOPE".to_string())));
    assert_eq!(
        r.unwrap_err().message(),
        "Found a link to a GDoc that is not in the page list: id=NOPE"
    );
    let r = site.rewrite_href("https://docs.google.com/document/u/1/pub/y");
    assert_eq!(
        r,
        Err(RewriteError::NotInSite("https://docs.google.com/document/pub/y".to_string()))
    );
    assert_eq!(
        r.unwrap_err().message(),
        "Google doc url not found in site pages https://docs.google.com/document/pub/y"
    );
}

#[test]
fn redirects_are_followed() {
    let site = site();
    assert_eq!(
        site.rewrite_href(
            "https://www.google.com/url?q=https://docs.google.com/document/d/ID1/edit&sa=D"
        ),
        Ok(Some("/a/".to_string()))
    );
    assert_eq!(
        site.rewrite_href("https://www.google.com/url?sa=D&q=%20https%3A%2F%2Fexample.org%2Fx%20"),
        Ok(Some("https://example.org/x".to_string()))
    );
    assert_eq!(
        site.rewrite_href(
            "https://www.google.com/url?q=https://www.google.com/url?q%3Dhttps://docs.google.com/document/d/ID1/edit"
        ),
        Ok(Some("/a/".to_string()))
    );
    assert_eq!(site.rewrite_href("https://www.google.com/url?sa=D"), Ok(None));
    assert_eq!(
        site.rewrite_href("https://www.google.com/url?q=https://docs.google.com/document/d/NOPE/"),
        Err(RewriteError::UnknownDocument("NOPE".to_string()))
    );
}

#[test]
fn redirect_target_is_the_first_q_trimmed() {
    let pairs = vec![
        ("sa".to_string(), "D".to_string()),
        ("q".to_string(), " \t first\u{a0}".to_string()),
        ("q".to_string(), "second".to_string()),
    ];
    assert_eq!(target_of(&pairs), Some("first".to_string()));
    assert_eq!(target_of(&vec![("Q".to_string(), "x".to_string())]), None);
    assert_eq!(target_of(&Vec::new()), None);
}

#[test]
fn user_part_is_removed_once() {
    assert_eq!(strip_user("https://h/document/u/0/x/document/u/1/y"), "https://h/document/x/document/u/1/y");
    assert_eq!(strip_user("https://h/document/u/12/x"), "https://h/document/u/12/x");
    assert_eq!(strip_user("https://h/document/u/a/x/document/u/7/"), "https://h/document/u/a/x/document/");
    assert_eq!(strip_user("/document/u/5"), "/document/u/5");
    assert_eq!(strip_user(""), "");
}

#[test]
fn later_rows_replace_earlier_ones() {
    let site = SiteData::new(&vec![
        row("/old", Some("P"), Some("https://docs.google.com/document/d/ID/edit")),
        row("/new", Some("P"), Some("https://docs.google.com/document/d/ID/view")),
    ])
    .unwrap();
    assert_eq!(site.rewrite_href("P"), Ok(Some("/new/".to_string())));
    assert_eq!(
        site.rewrite_href("https://docs.google.com/document/d/ID/x"),
        Ok(Some("/new/".to_string()))
    );
    let key: Vec<char> = "ID".chars().collect();
    assert_eq!(lookup(&site.id_to_slug, &key), Some(&"/new".to_string()));
    let key: Vec<char> = "other".chars().collect();
    assert_eq!(lookup(&site.id_to_slug, &key), None);
}

#[test]
fn a_page_without_document_id_is_an_error() {
    let r = SiteData::new(&vec![row("/a", None, Some("https://example.org/doc"))]);
    assert_eq!(r.err(), Some(RewriteError::NoDocumentId("https://example.org/doc".to_string())));
    assert_eq!(
        RewriteError::NoDocumentId("u".to_string()).message(),
        "Cannot extract doc id from u"
    );
}
