use gdocs2hugo::html::{
    is_block_tag, is_empty_tag, nl, write_escaped, DevNull, HtmlConsumer, HtmlError,
    HtmlSerializer,
};
use gdocs2hugo::image_rewriter::{image_reference, ImageReference, ImageResolver, ImageRewriter};

struct Prefixer {
    seen: Vec<(String, String)>,
}

impl ImageResolver for Prefixer {
    fn resolve(&mut self, image: &ImageReference) -> String {
        self.seen.push((image.id.to_string(), image.src.to_string()));
        format!("/img/{}.png", image.id)
    }
}

#[test]
fn block_and_empty_tags() {
    for name in ["body", "head", "div", "ul", "table", "td", "p", "li", "hr"] {
        assert!(is_block_tag(name), "{}", name);
    }
    for name in ["span", "a", "img", "br", "tr", "", "DIV"] {
        assert!(!is_block_tag(name), "{}", name);
    }
    for name in ["img", "br", "hr"] {
        assert!(is_empty_tag(name), "{}", name);
    }
    for name in ["p", "div", "", "IMG"] {
        assert!(!is_empty_tag(name), "{}", name);
    }
}

#[test]
fn newline_and_escaping() {
    let mut out: Vec<char> = "a".chars().collect();
    nl(&mut out);
    assert_eq!(out.iter().collect::<String>(), "a\n");

    let mut out: Vec<char> = Vec::new();
    write_escaped(&mut out, "a<b>&\"c\"\u{a0}", false);
    assert_eq!(out.iter().collect::<String>(), "a&lt;b&gt;&amp;\"c\"&nbsp;");

    let mut out: Vec<char> = Vec::new();
    write_escaped(&mut out, "a<b>&\"c\"\u{a0}", true);
    assert_eq!(out.iter().collect::<String>(), "a<b>&amp;&quot;c&quot;&nbsp;");

    let mut out: Vec<char> = "x".chars().collect();
    write_escaped(&mut out, "", true);
    write_escaped(&mut out, "", false);
    assert_eq!(out.iter().collect::<String>(), "x");
}

#[test]
fn serializer_writes_the_events() {
    let mut ser = HtmlSerializer::new();
    ser.start_document().unwrap();
    ser.start_element("div", vec!["a", "b"], vec![("color", "red")], vec![("id", "x")]).unwrap();
    ser.text("t<").unwrap();
    ser.start_element("br", Vec::new(), Vec::new(), Vec::new()).unwrap();
    ser.end_element("br").unwrap();
    ser.start_element("span", Vec::new(), Vec::new(), Vec::new()).unwrap();
    ser.end_element("span").unwrap();
    ser.end_element("div").unwrap();
    ser.end_document().unwrap();
    let mut one = HtmlSerializer::new();
    one.start_element("span", vec!["c"], Vec::new(), vec![("id", "a")]).unwrap();
    assert_eq!(one.output(), "<span class=\"c\" id=\"a\">");
    let mut quoted = HtmlSerializer::new();
    quoted.start_element("a", vec!["x\"y"], vec![("k", "a&b")], vec![("t", "<\">")]).unwrap();
    assert_eq!(quoted.output(), "<a class=\"x&quot;y\" style=\"k:a&amp;b;\" t=\"<&quot;>\">");
    assert_eq!(
        ser.output(),
        "\n<div class=\"a b\" style=\"color:red;\" id=\"x\">\n\
         t&lt;<br>\n<span></span>\n</div>\n"
    );
}

#[test]
fn dev_null_accepts_everything() {
    let mut sink = DevNull;
    assert!(sink.start_document().is_ok());
    assert!(sink.start_element("img", Vec::new(), Vec::new(), Vec::new()).is_ok());
    assert!(sink.text("x").is_ok());
    assert!(sink.end_element("img").is_ok());
    assert!(sink.end_document().is_ok());
}

#[test]
fn rewriter_replaces_the_source_of_images() {
    let mut rewriter = ImageRewriter::new(Prefixer { seen: Vec::new() }, HtmlSerializer::new());
    rewriter.start_document().unwrap();
    rewriter
        .start_element(
            "img",
            Vec::new(),
            Vec::new(),
            vec![("alt", "a"), ("src", "http://x/y"), ("id", "i1")],
        )
        .unwrap();
    rewriter.end_element("img").unwrap();
    rewriter
        .start_element("a", Vec::new(), Vec::new(), vec![("src", "kept"), ("id", "i2")])
        .unwrap();
    rewriter.text("t").unwrap();
    rewriter.end_element("a").unwrap();
    rewriter.end_document().unwrap();
    assert_eq!(
        rewriter.next.output(),
        "<img alt=\"a\" src=\"/img/i1.png\" id=\"i1\">\
         <a src=\"kept\" id=\"i2\">t</a>"
    );
    assert_eq!(rewriter.resolver.seen, vec![("i1".to_string(), "http://x/y".to_string())]);
}

#[test]
fn rewriter_refuses_images_without_source_or_id() {
    let mut rewriter = ImageRewriter::new(Prefixer { seen: Vec::new() }, DevNull);
    let r = rewriter.start_element("img", Vec::new(), Vec::new(), vec![("id", "i")]);
    assert_eq!(r, Err(HtmlError::MissingSrc));
    assert_eq!(HtmlError::MissingSrc.message(), "<img> tag with no 'src' attribute");
    let r = rewriter.start_element("img", Vec::new(), Vec::new(), vec![("src", "s")]);
    assert_eq!(r, Err(HtmlError::MissingId));
    assert_eq!(HtmlError::MissingId.message(), "<img> tag with no 'id' attribute");
    let r = rewriter.start_element("img", Vec::new(), Vec::new(), Vec::new());
    assert_eq!(r, Err(HtmlError::MissingSrc));
    assert!(rewriter.resolver.seen.is_empty());
}

#[test]
fn rewriter_hands_events_on() {
    let mut rewriter = ImageRewriter::new(Prefixer { seen: Vec::new() }, HtmlSerializer::new());
    assert_eq!(rewriter.start_document(), Ok(()));
    assert_eq!(rewriter.text("a<b"), Ok(()));
    assert_eq!(rewriter.end_element("p"), Ok(()));
    assert_eq!(rewriter.end_element("img"), Ok(()));
    assert_eq!(rewriter.end_document(), Ok(()));
    assert_eq!(rewriter.next.output(), "a&lt;b\n</p>\n");
    assert!(rewriter.resolver.seen.is_empty());

    let mut sink = ImageRewriter::new(Prefixer { seen: Vec::new() }, DevNull);
    assert_eq!(sink.start_document(), Ok(()));
    assert_eq!(sink.text("t"), Ok(()));
    assert_eq!(sink.end_element("p"), Ok(()));
    assert_eq!(sink.end_document(), Ok(()));
}

#[test]
fn reference_of_an_image() {
    let attrs = vec![("alt", "a"), ("src", "s1"), ("id", "i1"), ("src", "s2"), ("id", "i2")];
    let (image, at) = image_reference(&attrs).unwrap();
    assert_eq!((image.id, image.src, at), ("i1", "s1", 1));
    assert_eq!(image_reference(&vec![("id", "i")]).err(), Some(HtmlError::MissingSrc));
    assert_eq!(image_reference(&vec![("src", "s")]).err(), Some(HtmlError::MissingId));
    assert_eq!(image_reference(&Vec::new()).err(), Some(HtmlError::MissingSrc));
}

#[test]
fn image_is_handed_on_with_the_new_source() {
    let mut rewriter = ImageRewriter::new(Prefixer { seen: Vec::new() }, HtmlSerializer::new());
    let attrs = vec![("id", "i"), ("src", "old"), ("src", "second")];
    assert_eq!(rewriter.hand_on_image("img", vec!["c"], Vec::new(), attrs, "new&er"), Ok(()));
    assert_eq!(
        rewriter.next.output(),
        "<img class=\"c\" id=\"i\" src=\"new&amp;er\" src=\"second\">"
    );
    assert!(rewriter.resolver.seen.is_empty());
}

#[test]
fn refused_image_changes_nothing() {
    let mut rewriter = ImageRewriter::new(Prefixer { seen: Vec::new() }, HtmlSerializer::new());
    rewriter.text("t").unwrap();
    assert_eq!(
        rewriter.start_element("img", vec!["c"], Vec::new(), vec![("id", "i")]),
        Err(HtmlError::MissingSrc)
    );
    assert_eq!(rewriter.next.output(), "t");
    assert!(rewriter.resolver.seen.is_empty());
    rewriter.start_element("p", Vec::new(), Vec::new(), vec![("src", "s")]).unwrap();
    assert!(rewriter.resolver.seen.is_empty());
    assert_eq!(rewriter.next.output(), "t\n<p src=\"s\">\n");
}
