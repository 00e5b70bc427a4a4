use gdocs2hugo::from_web_pub::css::trimmed;
use gdocs2hugo::gdocs_site::get_doc_id;
use gdocs2hugo::site::strip_user;
use gdocs2hugo::text::{chars_eq, is_whitespace, push_str, str_eq, to_chars, to_text};
use regex::Regex;

#[test]
fn white_space_is_that_of_unicode() {
    for code in 0..=0x10FFFFu32 {
        if let Some(c) = char::from_u32(code) {
            assert_eq!(is_whitespace(c), c.is_whitespace(), "U+{:04X}", code);
        }
    }
}

#[test]
fn trimming_agrees_with_the_standard_library() {
    for text in ["", " ", "a", "  a b  ", "\u{a0}x\u{2003}", "\t\n x \r\n", "\u{200b}x\u{200b}", "x\u{0b}"] {
        let got: String = trimmed(text).into_iter().collect();
        assert_eq!(got, text.trim(), "{:?}", text);
    }
}

#[test]
fn characters_and_strings_convert_both_ways() {
    for text in ["", "abc", "h\u{e9}llo \u{1F600}", "a\u{0}b"] {
        let v = to_chars(text);
        assert_eq!(v, text.chars().collect::<Vec<char>>());
        assert_eq!(to_text(&v), text);
        let mut buf = vec!['>'];
        push_str(&mut buf, text);
        assert_eq!(buf.into_iter().collect::<String>(), format!(">{}", text));
        assert!(chars_eq(&v, text));
        assert!(str_eq(text, text));
    }
    assert!(!str_eq("a", "b"));
    assert!(!str_eq("a", "ab"));
    assert!(!str_eq("ab", "a"));
    assert!(!chars_eq(&to_chars("abc"), "abd"));
}

fn urls() -> Vec<String> {
    let hosts = ["https://docs.google.com/", "https://docs-google.com/", "https://docs\ngoogle.com/", "http://docs.google.com/", "https://docs.google.com", "xhttps://docs.google.com/"];
    let kinds = ["document", "spreadsheets", "forms", "documentx", ""];
    let users = ["", "/u/0", "/u/123", "/u/", "/u/x", "/u/1/u/2"];
    let ids = ["/d/abc/edit", "/d/abc", "/d//", "/d/a\nb/", "/d/a/b/", "/e/abc/", "/d/\u{e9}\u{1F600}/x", "d/abc/", "/d/abc/?q=/d/x/"];
    let mut all = Vec::new();
    for h in hosts {
        for k in kinds {
            for u in users {
                for i in ids {
                    all.push(format!("{}{}{}{}", h, k, u, i));
                }
            }
        }
    }
    all.push(String::new());
    all.push("https://docs.google.com/document/u/0/d/rUSGSdveGGDaGxuPmDyXus/edit#heading=h.1".to_string());
    all
}

#[test]
fn document_ids_are_those_of_the_pattern() {
    let pattern =
        Regex::new("^https://docs.google.com/(document|spreadsheets)(/u/[0-9]+)?/d/([^/]+)/")
            .unwrap();
    for url in urls() {
        let want = pattern.captures(&url).and_then(|c| c.get(3)).map(|m| m.as_str());
        assert_eq!(get_doc_id(&url), want, "{:?}", url);
    }
}

#[test]
fn user_parts_are_those_of_the_pattern() {
    let pattern = Regex::new("/document/u/[0-9]/").unwrap();
    let mut samples = urls();
    for extra in [
        "https://docs.google.com/document/u/1/pub/x",
        "/document/u/1//document/u/2/",
        "/document/u/12/",
        "/document/u/\u{663}/",
        "a/document/u/9",
        "/document/u//document/u/7/z",
        "\u{e9}/document/u/0/\u{e9}",
    ] {
        samples.push(extra.to_string());
    }
    for url in samples {
        let want = pattern.replace(&url, "/document/").into_owned();
        assert_eq!(strip_user(&url), want, "{:?}", url);
    }
}
