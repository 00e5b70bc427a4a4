use gdocs2hugo::from_web_pub::css::{
    cleanup_css, is_removed_property, is_removed_selector, list_depth_of, parse_small_int,
    remove_property, CssError, Rule,
};

fn chars(s: &str) -> Vec<char> {
    s.chars().collect()
}

fn rule(selector: &str, declarations: &[(&str, &str)]) -> Rule {
    Rule {
        selector: selector.to_string(),
        declarations: declarations.iter().map(|(n, v)| (n.to_string(), v.to_string())).collect(),
    }
}

#[test]
fn small_integers_are_read_as_the_standard_library_reads_them() {
    let cases = [
        "", "-", "+", "0", "7", "-0", "+0", "007", "127", "128", "-128", "-129", "+127", "+128",
        "1000", "99999999999999999999", "1a", "a1", " 1", "1 ", "--1", "+-1", "-+1", "١",
    ];
    for text in cases {
        let want = text.parse::<i8>().ok().map(|n| n as i32);
        assert_eq!(parse_small_int(&chars(text), 0), want, "{:?}", text);
    }
    assert_eq!(parse_small_int(&chars("ab-12"), 3), Some(12));
    assert_eq!(parse_small_int(&chars("ab-12"), 2), Some(-12));
    assert_eq!(parse_small_int(&chars("ab"), 2), None);
}

#[test]
fn depth_of_a_list_selector() {
    assert_eq!(list_depth_of(&chars("ul.lst-kix_x48xhles5rch-1")), Some(1));
    assert_eq!(list_depth_of(&chars("ul.lst-kix_a-b-0")), Some(0));
    assert_eq!(list_depth_of(&chars("ul.lst-kix_a--3")), Some(3));
    assert_eq!(list_depth_of(&chars("ul.lst-kix_abc")), None);
    assert_eq!(list_depth_of(&chars("ul.lst-kix_abc-")), None);
    assert_eq!(list_depth_of(&chars("ul.lst-kix_abc-x")), None);
    assert_eq!(list_depth_of(&chars("")), None);
}

#[test]
fn dropped_selectors_and_properties() {
    for s in ["ol", "table td,table th", ".title", ".subtitle", "h1", "h6", "li", "p"] {
        assert!(is_removed_selector(&chars(s)), "{}", s);
    }
    for s in ["ul.c1", ".lst-kix_abc-0 > li:before", "ul."] {
        assert!(is_removed_selector(&chars(s)), "{}", s);
    }
    for s in [".c1", "ul", "h7", "P", "a", ""] {
        assert!(!is_removed_selector(&chars(s)), "{}", s);
    }
    for p in [
        "background-color", "counter-reset", "orphans", "widows", "vertical-align",
        "font-family", "font-size", "line-height", "page-break-after", "margin", "margin-left",
        "margin-right", "padding", "padding-bottom", "padding-left", "padding-right",
        "padding-top", "text-decoration-skip-ink", "-webkit-text-decoration-skip", "height",
        "color", "content", "list-style-type", "max-width",
    ] {
        assert!(is_removed_property(&chars(p)), "{}", p);
    }
    for p in ["font-weight", "text-align", "margin-top", "width", ""] {
        assert!(!is_removed_property(&chars(p)), "{}", p);
    }
    assert!(remove_property(&chars("text-align"), &chars("justify")));
    assert!(!remove_property(&chars("text-align"), &chars("center")));
    assert!(!remove_property(&chars("align"), &chars("justify")));
}

#[test]
fn style_sheet_is_cleaned_rule_by_rule() {
    let rules = vec![
        rule(" .c1 ", &[(" font-weight", "700 "), ("color", "#000"), ("text-align", "justify")]),
        rule("h1", &[("font-weight", "700")]),
        rule("ul.lst-kix_abc-2", &[("list-style-type", "none")]),
        rule("ul.c3", &[("width", "1px")]),
        rule(".c2", &[]),
        rule("ul.lst-kix_abc--1", &[]),
        rule(".c4", &[("text-align", " center "), ("font-style", "italic")]),
    ];
    assert_eq!(
        cleanup_css(&rules),
        Ok(".c1 {font-weight : 700; } \
            ul.lst-kix_abc-2 { padding-left: 6em; } \
            .c2 {} \
            ul.lst-kix_abc--1 { padding-left: 4em; } \
            .c4 {text-align : center; font-style : italic; } "
            .to_string())
    );
    assert_eq!(cleanup_css(&Vec::new()), Ok(String::new()));
}

#[test]
fn list_rule_without_depth_is_an_error() {
    let rules = vec![rule(".c1", &[]), rule("ul.lst-kix_abc", &[]), rule(".c2", &[])];
    assert_eq!(cleanup_css(&rules), Err(CssError::ListDepth));
    assert_eq!(CssError::ListDepth.message(), "List selector without a nesting depth");
}
