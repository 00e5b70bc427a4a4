use gdocs2hugo::config::{default_download_dir, Commands, Config, Step, DEFAULT_CONCURRENCY};
use gdocs2hugo::gdocs_site::DocData;
use gdocs2hugo::hugo_site::FrontMatter;
use gdocs2hugo::publish::{
    data_path, file_extension, flatten, front_matter, has_children, image_url, is_data_document,
    page_text, parse_uppercase_bool, post_path, rel_path_or_index, should_compress,
    should_publish, with_default_author, CellError, COMPRESS_ABOVE,
};
use gdocs2hugo::site::SiteData;
use gdocs2hugo::tweaks::{
    is_external_link, is_local_asset, is_unresolved, split_button_classes, split_words,
    title_and_summary, Extracted, Sibling, TweakError,
};

fn row(slug: &str) -> DocData {
    DocData {
        title: "Title".to_string(),
        slug: slug.to_string(),
        author: None,
        category: None,
        weight: Some(3),
        publish: false,
        publish_date: Some(1_600_000_000),
        update_date: None,
        gdoc_pub_url: None,
        gdoc_url: Some(format!("https://docs.google.com/document/d/{}/edit", slug.len())),
        download_path: String::new(),
        other: vec![("layout".to_string(), "wide".to_string())],
    }
}

#[test]
fn publication_status() {
    let mut doc = row("/a");
    assert!(!should_publish(&doc, false));
    assert!(should_publish(&doc, true));
    doc.publish = true;
    assert!(should_publish(&doc, false));
}

#[test]
fn data_documents() {
    assert!(is_data_document("/#data/people"));
    assert!(!is_data_document("/data/people"));
    assert!(!is_data_document("/#data"));
    assert_eq!(data_path("/#data/people"), "data/people");
    assert_eq!(data_path("/#"), "");
}

#[test]
fn front_matter_of_a_row() {
    let mut doc = row("/posts/first");
    doc.author = Some("Ada".to_string());
    doc.category = Some("news".to_string());
    let fm = front_matter(doc);
    assert_eq!(fm.markup, "html");
    assert_eq!(fm.slug, "_posts_first");
    assert_eq!(fm.url.as_deref(), Some("/posts/first"));
    assert_eq!(fm.author.as_deref(), Some("Ada"));
    assert_eq!(fm.categories, vec!["news".to_string()]);
    assert_eq!(fm.weight, Some(3));
    assert_eq!(fm.date, Some(1_600_000_000));
    assert_eq!(fm.lastmod, None);
    assert_eq!(fm.gdoc_url.as_deref(), Some("https://docs.google.com/document/d/12/edit"));
    assert_eq!(fm.other, vec![("layout".to_string(), "wide".to_string())]);
    assert_eq!(fm.title, "");
    assert!(fm.banner.is_none() && fm.summary.is_none() && fm.description.is_none());

    let fm = front_matter(row("/"));
    assert!(fm.categories.is_empty());
    assert_eq!(fm.slug, "_");
}

#[test]
fn default_front_matter_is_empty() {
    let fm = FrontMatter::default();
    assert_eq!(fm.markup, "");
    assert_eq!(fm.title, "");
    assert!(fm.url.is_none() && fm.categories.is_empty() && fm.other.is_empty());
}

#[test]
fn default_author_fills_the_gaps() {
    let mut docs = vec![row("/a"), row("/b"), row("/c")];
    docs[1].author = Some("Ada".to_string());
    with_default_author(&mut docs, &Some("Team".to_string()));
    let authors: Vec<Option<&str>> = docs.iter().map(|d| d.author.as_deref()).collect();
    assert_eq!(authors, vec![Some("Team"), Some("Ada"), Some("Team")]);
    assert_eq!(docs[0].slug, "/a");
    assert_eq!(docs[2].other, vec![("layout".to_string(), "wide".to_string())]);

    let mut docs = vec![row("/a")];
    with_default_author(&mut docs, &None);
    assert_eq!(docs[0].author, None);
}

#[test]
fn pages_with_children_are_branch_bundles() {
    let site = SiteData::new(&vec![row("/a"), row("/a/bb"), row("/ccc")]).unwrap();
    assert!(has_children(&site, "/a"));
    assert!(!has_children(&site, "/a/bb"));
    assert!(!has_children(&site, "/ccc"));
    assert!(!has_children(&site, "/zz"));
    assert_eq!(post_path("/a", false, true), "content/a/_index.html");
    assert_eq!(post_path("/a/bb", false, false), "content/a/bb/index.html");
    assert_eq!(post_path("/news", true, false), "content/posts/news.html");
    assert_eq!(post_path("/news", true, true), "content/posts/news.html");
}

#[test]
fn page_text_wraps_the_front_matter() {
    assert_eq!(page_text("title: x\n", "<p>y</p>"), "---\ntitle: x\n\n---\n\n<p>y</p>\n");
    assert_eq!(page_text("", ""), "---\n\n---\n\n\n");
}

#[test]
fn small_path_and_name_decisions() {
    assert_eq!(flatten("/a/b/"), "_a_b_");
    assert_eq!(rel_path_or_index("/"), "index");
    assert_eq!(rel_path_or_index("/a/b"), "a/b");
    assert_eq!(image_url("/posts/x", "abc", "png"), "/posts/x/abc.png");
    assert_eq!(file_extension("jpe"), "jpg");
    assert_eq!(file_extension("jpeg"), "jpeg");
    assert_eq!(file_extension("png"), "png");
    assert_eq!(COMPRESS_ABOVE, 256 * 1024);
    assert!(should_compress("png", 256 * 1024 + 1));
    assert!(!should_compress("png", 256 * 1024));
    assert!(!should_compress("jpg", 10_000_000));
}

#[test]
fn uppercase_bools() {
    assert_eq!(parse_uppercase_bool("TRUE"), Ok(true));
    assert_eq!(parse_uppercase_bool("FALSE"), Ok(false));
    for bad in ["true", "False", "", " TRUE", "1"] {
        let r = parse_uppercase_bool(bad);
        assert_eq!(r, Err(CellError::NotABool(bad.to_string())));
        assert_eq!(r.unwrap_err().message(), format!("Expecting TRUE or FALSE, got {}", bad));
    }
}

#[test]
fn commands_and_configuration() {
    assert_eq!(Commands::Download { all: true }.step(), Step::Redirect);
    assert_eq!(Commands::Publish { download: true, all: false }.step(), Step::Redirect);
    assert_eq!(Commands::Gdoc.step(), Step::Trial);
    assert_eq!(
        Commands::Publish2 { store: true, all: false }.step(),
        Step::Publish { store: true, all: false }
    );
    assert_eq!(default_download_dir(), "gdoc_data");
    let mut config = Config {
        toc_spreadsheet_url: String::new(),
        download_dir: default_download_dir(),
        hugo_site_dir: "site".to_string(),
        credentials: None,
        concurrency: None,
        default_author: None,
    };
    assert_eq!(config.workers(), DEFAULT_CONCURRENCY);
    assert_eq!(DEFAULT_CONCURRENCY, 20);
    config.concurrency = Some(4);
    assert_eq!(config.workers(), 4);
}

#[test]
fn link_and_image_predicates() {
    assert!(is_local_asset("/img/a.png"));
    assert!(!is_local_asset("img/a.png"));
    assert!(!is_local_asset(""));
    assert!(is_external_link("https://x"));
    assert!(is_external_link("http://x"));
    assert!(!is_external_link("ftp://x"));
    assert!(!is_external_link("/a/"));
    assert!(is_unresolved("http://x"));
    assert!(is_unresolved("https://x"));
    assert!(!is_unresolved("/posts/x/abc.png"));
}

fn word_strings(text: &str) -> Vec<String> {
    split_words(text).into_iter().map(|w| w.into_iter().collect()).collect()
}

#[test]
fn words_are_runs_without_white_space() {
    for text in ["", "  ", "a", " a  bb\tc\u{a0}d\n", "btn btn-primary  wide "] {
        let want: Vec<String> = text.split_whitespace().map(|s| s.to_string()).collect();
        assert_eq!(word_strings(text), want, "{:?}", text);
    }
}

#[test]
fn button_classes_move_to_the_link() {
    assert_eq!(
        split_button_classes("row btn  btn-primary wide\tbtnx xbtn"),
        ("row wide xbtn".to_string(), " btn btn-primary btnx".to_string())
    );
    assert_eq!(split_button_classes("btn"), (String::new(), " btn".to_string()));
    assert_eq!(split_button_classes(""), (String::new(), String::new()));
    assert_eq!(split_button_classes("  plain "), ("plain".to_string(), String::new()));
}

fn element(texts: &[&str], image: Option<&str>) -> Sibling {
    Sibling {
        texts: Some(texts.iter().map(|s| s.to_string()).collect()),
        image: image.map(|s| s.to_string()),
    }
}

#[test]
fn title_summary_and_banner() {
    let heading = vec!["My".to_string(), "title".to_string()];
    let before = vec![
        element(&["A", "summary"], Some("/a/first.png")),
        Sibling { texts: None, image: Some("http://ignored".to_string()) },
        element(&[], None),
        element(&["of the page."], Some("/a/second.png")),
    ];
    assert_eq!(
        title_and_summary(&heading, &before),
        Ok(Extracted {
            title: "My title".to_string(),
            summary: Some("A summary  of the page. ".to_string()),
            banner: Some("/a/second.png".to_string()),
        })
    );
    assert_eq!(
        title_and_summary(&Vec::new(), &Vec::new()),
        Ok(Extracted { title: String::new(), summary: None, banner: None })
    );
    assert_eq!(
        title_and_summary(&heading, &vec![Sibling { texts: None, image: None }]),
        Ok(Extracted { title: "My title".to_string(), summary: None, banner: None })
    );
}

#[test]
fn unresolved_banner_is_an_error() {
    let before = vec![
        element(&["a"], Some("/ok.png")),
        element(&["b"], Some("https://first/x.png")),
        element(&["c"], Some("http://second/x.png")),
    ];
    let r = title_and_summary(&vec!["t".to_string()], &before);
    assert_eq!(r, Err(TweakError::UnresolvedBanner("https://first/x.png".to_string())));
    assert_eq!(
        r.unwrap_err().message(),
        "Banner image url hasn't been resolved: https://first/x.png"
    );
}
