use gdocs2hugo::from_web_pub::serialize::{
    name_before, sort_attributes, stable_html, Attribute, SerializeEvent, StableHtmlSerializer,
};
use gdocs2hugo::gdoc_to_html::HtmlRenderer;

fn attr(name: &str, value: &str) -> Attribute {
    Attribute::new(name, value)
}

fn start(name: &str, attrs: Vec<Attribute>) -> SerializeEvent {
    SerializeEvent::StartElem { name: name.to_string(), attrs }
}

fn end(name: &str) -> SerializeEvent {
    SerializeEvent::EndElem { name: name.to_string() }
}

#[test]
fn attributes_are_written_in_name_order() {
    let mut ser = StableHtmlSerializer::new();
    ser.start_elem("a", &vec![attr("id", "z"), attr("href", "y"), attr("class", "x")]);
    assert_eq!(ser.writer, "<a class=\"x\" href=\"y\" id=\"z\">");
}

#[test]
fn serialization_does_not_depend_on_insertion_order() {
    let orders: Vec<Vec<&str>> = vec![
        vec!["src", "alt", "id"],
        vec!["id", "src", "alt"],
        vec!["alt", "id", "src"],
        vec!["id", "alt", "src"],
    ];
    let mut outputs = Vec::new();
    for order in orders {
        let attrs = order.iter().map(|n| attr(n, &format!("v-{}", n))).collect();
        let events = vec![start("div", Vec::new()), start("img", attrs), end("div")];
        outputs.push(stable_html(&events));
    }
    for out in &outputs {
        assert_eq!(out, "<div><img alt=\"v-alt\" id=\"v-id\" src=\"v-src\"></div>");
    }
    let again = stable_html(&vec![start("div", Vec::new()), end("div")]);
    assert_eq!(again, stable_html(&vec![start("div", Vec::new()), end("div")]));
}

#[test]
fn sort_is_by_code_point_and_keeps_equal_names_in_order() {
    let sorted = sort_attributes(&vec![
        attr("b", "1"),
        attr("a", "2"),
        attr("B", "3"),
        attr("b", "4"),
        attr("ab", "5"),
        attr("", "6"),
        attr("\u{e9}", "7"),
    ]);
    let got: Vec<(String, String)> =
        sorted.iter().map(|a| (a.name.clone(), a.value.clone())).collect();
    let want: Vec<(String, String)> = vec![
        ("", "6"),
        ("B", "3"),
        ("a", "2"),
        ("ab", "5"),
        ("b", "1"),
        ("b", "4"),
        ("\u{e9}", "7"),
    ]
    .into_iter()
    .map(|(n, v)| (n.to_string(), v.to_string()))
    .collect();
    assert_eq!(got, want);
}

#[test]
fn name_order_agrees_with_string_order() {
    let names = ["", "a", "ab", "b", "B", "class", "href", "\u{e9}", "z\u{10000}", "z\u{ffff}"];
    for a in names {
        for b in names {
            assert_eq!(name_before(a, b), a <= b, "{:?} {:?}", a, b);
        }
    }
}

#[test]
fn attribute_values_are_escaped_and_namespaces_prefixed() {
    let mut ser = StableHtmlSerializer::new();
    let xlink = Attribute {
        ns: "http://www.w3.org/1999/xlink".to_string(),
        name: "href".to_string(),
        value: "#a".to_string(),
    };
    let xml = Attribute {
        ns: "http://www.w3.org/XML/1998/namespace".to_string(),
        name: "lang".to_string(),
        value: "en".to_string(),
    };
    let xmlns = Attribute {
        ns: "http://www.w3.org/2000/xmlns/".to_string(),
        name: "xmlns".to_string(),
        value: "u".to_string(),
    };
    let xmlns_x = Attribute {
        ns: "http://www.w3.org/2000/xmlns/".to_string(),
        name: "xlink".to_string(),
        value: "v".to_string(),
    };
    let other = Attribute { ns: "urn:x".to_string(), name: "k".to_string(), value: "w".to_string() };
    ser.start_elem(
        "svg",
        &vec![xlink, xml, xmlns, xmlns_x, other, attr("title", "a \"b\" <c> & d\u{a0}e")],
    );
    assert_eq!(
        ser.writer,
        "<svg xlink:href=\"#a\" unknown_namespace:k=\"w\" xml:lang=\"en\" \
         title=\"a &quot;b&quot; <c> &amp; d&nbsp;e\" xmlns:xlink=\"v\" xmlns=\"u\">"
    );
}

#[test]
fn shortcode_comment_is_written_verbatim() {
    let mut out = String::new();
    HtmlRenderer::write_shortcode(r#"{{ youtube id="xyz" }}"#, &mut out).unwrap();
    assert_eq!(out, r#"<!--{{< youtube id="xyz" >}}-->"#);
    let comment = &out["<!--".len()..out.len() - "-->".len()];

    let mut ser = StableHtmlSerializer::new();
    ser.write_comment(comment);
    assert_eq!(ser.writer, "{{< youtube id=\"xyz\" >}}\n");
}

#[test]
fn other_comments_are_written_as_comments() {
    let mut ser = StableHtmlSerializer::new();
    ser.write_comment(" note {{< x >}} ");
    ser.write_comment("{{ x }}");
    assert_eq!(ser.writer, "<!-- note {{< x >}} --><!--{{ x }}-->");
}

#[test]
fn every_kind_of_event_is_written() {
    let events = vec![
        SerializeEvent::Doctype("html".to_string()),
        start("html", Vec::new()),
        start("body", vec![attr("class", "c")]),
        SerializeEvent::Text("1 < 2 & \"3\" > 0\u{a0}".to_string()),
        start("br", Vec::new()),
        end("br"),
        SerializeEvent::Comment("{{< toc >}}".to_string()),
        SerializeEvent::ProcessingInstruction { target: "php".to_string(), data: "x".to_string() },
        end("body"),
        end("html"),
    ];
    assert_eq!(
        stable_html(&events),
        "<!DOCTYPE html><html><body class=\"c\">1 &lt; 2 &amp; \"3\" &gt; 0&nbsp;<br></br>\
         {{< toc >}}\n<?php x></body></html>"
    );
}

#[test]
fn nothing_gives_nothing() {
    assert_eq!(stable_html(&Vec::new()), "");
}
