use gdocs2hugo::attr_list::{AttrTag, ParseError};
use gdocs2hugo::gdoc_to_html::{render, HtmlRenderer, Indent};
use gdocs2hugo::model::{
    BaselineOffset, Bullet, Color, CropProperties, Dimension, Document, ElementKind,
    EmbeddedObject, ImageProperties, InlineObject, Link, Paragraph, ParagraphElement,
    ParagraphStyle, RenderError, StructuralElement, Table, TableCell, TableRow, TextRun,
    TextStyle,
};

fn run(text: &str) -> ParagraphElement {
    ParagraphElement::TextRun(TextRun { content: Some(text.to_string()), style: None })
}

fn plain_style() -> TextStyle {
    TextStyle {
        bold: false,
        italic: false,
        strikethrough: false,
        underline: false,
        small_caps: false,
        baseline_offset: BaselineOffset::Baseline,
        foreground: None,
        background: None,
        link: None,
    }
}

fn styled(text: &str, style: TextStyle) -> ParagraphElement {
    ParagraphElement::TextRun(TextRun { content: Some(text.to_string()), style: Some(style) })
}

fn para(elements: Vec<ParagraphElement>) -> StructuralElement {
    StructuralElement::Paragraph(Paragraph { bullet: None, style: None, elements })
}

fn item(level: Option<u32>, text: &str) -> StructuralElement {
    StructuralElement::Paragraph(Paragraph {
        bullet: Some(Bullet { nesting_level: level }),
        style: None,
        elements: vec![run(text)],
    })
}

fn doc(body: Vec<StructuralElement>) -> Document {
    Document { title: None, body: Some(body), inline_objects: Vec::new() }
}

fn body_of(html: &str) -> String {
    let start = html.find("<body>").unwrap() + "<body>".len();
    let end = html.rfind("</body>").unwrap();
    html[start..end].to_string()
}

fn count(haystack: &str, needle: &str) -> usize {
    haystack.matches(needle).count()
}

#[test]
fn test_parse_attr() {
    let x = AttrTag::parse("{: x y z }blah").unwrap();
    match x {
        Some((AttrTag::Start(attrs), s)) => {
            assert_eq!(attrs.to_string(), " class='x y z'");
            assert_eq!(s, "blah");
        }
        _ => panic!("expecting a start tag"),
    }
}

#[test]
fn test_write_short_code() {
    let mut out = String::new();
    HtmlRenderer::write_shortcode("{{ html <div class='bar'> }}", &mut out).expect("write");
    assert_eq!("<div class='bar'>", out);

    let mut out = String::new();
    HtmlRenderer::write_shortcode("{{ html <div class=\u{201D}row\u{201D}> }}", &mut out)
        .expect("write");
    assert_eq!("<div class=\"row\">", out);

    let mut out = String::new();
    HtmlRenderer::write_shortcode(r#"{{ youtube id="xyz" }}"#, &mut out).expect("write");
    assert_eq!(r#"<!--{{< youtube id="xyz" >}}-->"#, out);

    let mut out = String::new();
    HtmlRenderer::write_shortcode(
        "{{ html <div class='bar'> }} \u{0B} {{ youtube id='xyz' }}",
        &mut out,
    )
    .expect("write");
    assert_eq!(r#"<div class='bar'><!--{{< youtube id='xyz' >}}-->"#, out);
}

#[test]
fn parse_attr_end_tag_and_plain_text() {
    match AttrTag::parse("{::}rest").unwrap() {
        Some((AttrTag::End, rest)) => assert_eq!(rest, "rest"),
        _ => panic!("expecting an end tag"),
    }
    assert!(AttrTag::parse("no list here").unwrap().is_none());
    assert!(AttrTag::parse("{:x}").unwrap().is_none());
}

#[test]
fn parse_attr_keeps_empty_classes() {
    match AttrTag::parse("{: a  b }").unwrap() {
        Some((AttrTag::Start(attrs), rest)) => {
            assert_eq!(attrs.classes, vec!["a".to_string(), "".to_string(), "b".to_string()]);
            assert_eq!(attrs.to_string(), " class='a  b'");
            assert_eq!(rest, "");
        }
        _ => panic!("expecting a start tag"),
    }
}

#[test]
fn parse_attr_without_closing_brace_is_an_error() {
    let r = AttrTag::parse("{: x y z");
    assert_eq!(r.err(), Some(ParseError::MissingClosingBrace));
    assert_eq!(ParseError::MissingClosingBrace.message(), "Missing closing '}'");
}

#[test]
fn shortcode_with_angle_spelling() {
    let mut out = String::new();
    HtmlRenderer::write_shortcode("{{< figure src=\u{2019}a.png\u{2019} >}}", &mut out).unwrap();
    assert_eq!("<!--{{< figure src='a.png' >}}-->", out);
}

#[test]
fn shortcode_appends_to_what_is_there() {
    let mut out = String::from("before:");
    HtmlRenderer::write_shortcode("dropped {{ html <b> }}", &mut out).unwrap();
    assert_eq!("before:<b>", out);
    HtmlRenderer::write_shortcode("no shortcode at all", &mut out).unwrap();
    assert_eq!("before:<b>", out);
    HtmlRenderer::write_shortcode(" {{{{ a }}{{ }}{{ b c }}", &mut out).unwrap();
    assert_eq!("before:<b><!--{{< a >}}--><!--{{<  >}}--><!--{{< b c >}}-->", out);
}

#[test]
fn renders_a_page_with_title_and_paragraph() {
    let d = Document {
        title: Some("T".to_string()),
        body: Some(vec![para(vec![run("Hello\n")])]),
        inline_objects: Vec::new(),
    };
    let html = render(&d).unwrap();
    assert_eq!(
        html,
        "<html>\n<head>\n<title>T</title>\n</head>\n<body>\n<p>Hello</p>\n</body>\n</html>\n"
    );
}

#[test]
fn renders_an_empty_document() {
    let d = Document { title: None, body: None, inline_objects: Vec::new() };
    assert_eq!(render(&d).unwrap(), "<html>\n<head>\n</head>\n<body></body>\n</html>\n");
}

#[test]
fn content_is_escaped_and_soft_breaks_become_br() {
    let d = doc(vec![para(vec![run("a<b & c\u{0B}d\u{00A0}\"e\"\n")])]);
    let html = render(&d).unwrap();
    assert_eq!(body_of(&html), "\n<p>a&lt;b &amp; c<br>\nd&nbsp;\"e\"</p>\n");
}

#[test]
fn list_nesting_one_wrapper_around_adjacent_items() {
    let d = doc(vec![para(vec![run("a\n")]), item(None, "b\n"), item(Some(0), "c\n"), para(vec![
        run("d\n"),
    ])]);
    let html = render(&d).unwrap();
    let body = body_of(&html);
    assert_eq!(body, "\n<p>a</p>\n<ul>\n<li>b</li>\n<li>c</li>\n</ul>\n<p>d</p>\n");
    assert_eq!(count(&body, "<ul>"), 1);
    assert_eq!(count(&body, "</ul>"), 1);
}

#[test]
fn list_nesting_levels_0_1_1_0() {
    let d = doc(vec![
        item(Some(0), "a\n"),
        item(Some(1), "b\n"),
        item(Some(1), "c\n"),
        item(Some(0), "d\n"),
    ]);
    let html = render(&d).unwrap();
    let body = body_of(&html);
    assert_eq!(
        body,
        "\n<ul>\n<li>a</li>\n<ul>\n<li>b</li>\n<li>c</li>\n</ul>\n<li>d</li>\n</ul>\n"
    );
    assert_eq!(count(&body, "<ul>"), 2);
    assert_eq!(count(&body, "</ul>"), 2);
}

#[test]
fn open_lists_are_closed_at_the_end() {
    let d = doc(vec![item(Some(2), "deep\n")]);
    let body = body_of(&render(&d).unwrap());
    assert_eq!(body, "\n<ul>\n<ul>\n<ul>\n<li>deep</li>\n</ul>\n</ul>\n</ul>\n");
}

#[test]
fn paragraph_with_the_indent_of_a_list_item_stays_in_the_list() {
    let indented = |bullet: Option<Bullet>, text: &str| {
        StructuralElement::Paragraph(Paragraph {
            bullet,
            style: Some(ParagraphStyle {
                named_style_type: None,
                alignment: None,
                indent_start: Some(36_000_000),
                heading_id: None,
            }),
            elements: vec![run(text)],
        })
    };
    let d = doc(vec![
        indented(Some(Bullet { nesting_level: None }), "a\n"),
        indented(None, "b\n"),
        para(vec![run("c\n")]),
    ]);
    let body = body_of(&render(&d).unwrap());
    assert_eq!(body, "\n<ul>\n<li>a</li>\n<p>b</p>\n</ul>\n<p>c</p>\n");
}

#[test]
fn heading_styles_classes_alignment_and_ids() {
    let styled_para = |name: &str, alignment: Option<&str>, id: Option<&str>| {
        StructuralElement::Paragraph(Paragraph {
            bullet: None,
            style: Some(ParagraphStyle {
                named_style_type: Some(name.to_string()),
                alignment: alignment.map(|a| a.to_string()),
                indent_start: None,
                heading_id: id.map(|a| a.to_string()),
            }),
            elements: vec![run("x\n")],
        })
    };
    let d = doc(vec![
        styled_para("HEADING_1", None, Some("h.abc")),
        styled_para("HEADING_4", Some("CENTER"), None),
        styled_para("TITLE", Some("END"), None),
        styled_para("NORMAL_TEXT", Some("JUSTIFIED"), None),
        styled_para("SUBTITLE", Some("START"), None),
    ]);
    let body = body_of(&render(&d).unwrap());
    assert_eq!(
        body,
        "\n<h1 id=\"h.abc\">x</h1>\n\
         <h4 style=\"text-align:center;\">x</h4>\n\
         <p class=\"TITLE\" style=\"text-align:end;\">x</p>\n\
         <p>x</p>\n\
         <p class=\"SUBTITLE\" style=\"text-align:start;\">x</p>\n"
    );
}

#[test]
fn bullet_forces_li_whatever_the_heading_style() {
    let d = doc(vec![StructuralElement::Paragraph(Paragraph {
        bullet: Some(Bullet { nesting_level: None }),
        style: Some(ParagraphStyle {
            named_style_type: Some("HEADING_2".to_string()),
            alignment: None,
            indent_start: None,
            heading_id: None,
        }),
        elements: vec![run("x\n")],
    })]);
    let body = body_of(&render(&d).unwrap());
    assert_eq!(body, "\n<ul>\n<li>x</li>\n</ul>\n");
}

#[test]
fn color_is_emitted_only_when_all_channels_are_given() {
    let mut red = plain_style();
    red.foreground =
        Some(Color { red: Some(1_000_000), green: Some(0), blue: Some(0) });
    let d = doc(vec![para(vec![styled("hot", red)])]);
    let body = body_of(&render(&d).unwrap());
    assert_eq!(body, "\n<p><span style=\"color:rgb(100%,0%,0%);\">hot</span></p>\n");

    let mut partial = plain_style();
    partial.foreground = Some(Color { red: Some(1_000_000), green: Some(0), blue: None });
    let d = doc(vec![para(vec![styled("plain", partial)])]);
    let body = body_of(&render(&d).unwrap());
    assert_eq!(body, "\n<p>plain</p>\n");
}

#[test]
fn color_channels_are_rounded_to_whole_percentages() {
    let mut style = plain_style();
    style.background =
        Some(Color { red: Some(501_961), green: Some(4_999), blue: Some(995_000) });
    let d = doc(vec![para(vec![styled("x", style)])]);
    let body = body_of(&render(&d).unwrap());
    assert_eq!(body, "\n<p><span style=\"background-color:rgb(50%,0%,100%);\">x</span></p>\n");
}

#[test]
fn text_run_wrappers_nest_in_fixed_order() {
    let mut style = plain_style();
    style.bold = true;
    style.italic = true;
    style.strikethrough = true;
    style.underline = true;
    style.small_caps = true;
    style.baseline_offset = BaselineOffset::Superscript;
    let d = doc(vec![para(vec![styled("x", style)])]);
    let body = body_of(&render(&d).unwrap());
    assert_eq!(
        body,
        "\n<p><strong><em><del><sup>\
         <span style=\"text-decoration: underline;font-variant: small-caps;\">x</span>\
         </sup></del></em></strong></p>\n"
    );
}

#[test]
fn link_wraps_everything_and_suppresses_underline_and_color() {
    let mut style = plain_style();
    style.bold = true;
    style.underline = true;
    style.foreground = Some(Color { red: Some(0), green: Some(0), blue: Some(1_000_000) });
    style.background = Some(Color { red: Some(1_000_000), green: Some(1_000_000), blue: Some(0) });
    style.link = Some(Link {
        url: Some("https://example.org/?a=1&b=2".to_string()),
        heading_id: None,
        bookmark_id: None,
    });
    let d = doc(vec![para(vec![styled("go", style)])]);
    let body = body_of(&render(&d).unwrap());
    assert_eq!(
        body,
        "\n<p><a href='https://example.org/?a=1&b=2'><strong>\
         <span style=\"background-color:rgb(100%,100%,0%);\">go</span>\
         </strong></a></p>\n"
    );
}

#[test]
fn link_to_heading_or_bookmark_is_an_internal_anchor() {
    let mut heading = plain_style();
    heading.link =
        Some(Link { url: None, heading_id: Some("h.1".to_string()), bookmark_id: None });
    let mut bookmark = plain_style();
    bookmark.link =
        Some(Link { url: None, heading_id: None, bookmark_id: Some("b.2".to_string()) });
    let mut empty = plain_style();
    empty.link = Some(Link { url: None, heading_id: None, bookmark_id: None });
    let d = doc(vec![para(vec![styled("a", heading), styled("b", bookmark), styled("c", empty)])]);
    let body = body_of(&render(&d).unwrap());
    assert_eq!(body, "\n<p><a href='#h.1'>a</a><a href='#b.2'>b</a>c</p>\n");
}

#[test]
fn link_url_takes_precedence_over_heading_and_bookmark() {
    let mut style = plain_style();
    style.link = Some(Link {
        url: Some("u".to_string()),
        heading_id: Some("h".to_string()),
        bookmark_id: Some("b".to_string()),
    });
    let d = doc(vec![para(vec![styled("x", style)])]);
    let body = body_of(&render(&d).unwrap());
    assert_eq!(body, "\n<p><a href='u'>x</a></p>\n");
}

#[test]
fn subscript_and_missing_content() {
    let mut style = plain_style();
    style.baseline_offset = BaselineOffset::Subscript;
    let d = doc(vec![para(vec![ParagraphElement::TextRun(TextRun {
        content: None,
        style: Some(style),
    })])]);
    let body = body_of(&render(&d).unwrap());
    assert_eq!(body, "\n<p><sub></sub></p>\n");
}

#[test]
fn shortcode_paragraphs_render_without_a_paragraph_tag() {
    let d = doc(vec![para(vec![run("{{ html <div class='bar'> }}\n")])]);
    assert_eq!(body_of(&render(&d).unwrap()), "\n<div class='bar'>\n");

    let d = doc(vec![para(vec![run("{{ youtube id=\"xyz\" }}\n")])]);
    assert_eq!(body_of(&render(&d).unwrap()), "\n<!--{{< youtube id=\"xyz\" >}}-->\n");
}

#[test]
fn white_space_before_a_shortcode_is_dropped() {
    let d = doc(vec![para(vec![run("  {{ html <hr> }}\n")])]);
    assert_eq!(body_of(&render(&d).unwrap()), "\n<hr>\n");
}

#[test]
fn shortcode_text_is_gathered_from_all_runs() {
    let d = doc(vec![para(vec![run("{{ html "), ParagraphElement::PageBreak, run("<hr> }}\n")])]);
    assert_eq!(body_of(&render(&d).unwrap()), "\n<hr>\n");
}

#[test]
fn attribute_list_paragraphs_open_and_close_a_container() {
    let d = doc(vec![
        para(vec![run("{: row wide :}\n")]),
        para(vec![run("inside\n")]),
        para(vec![run("{::} :}\n")]),
    ]);
    let body = body_of(&render(&d).unwrap());
    assert_eq!(body, "\n<div class='row wide :'>\n<p>inside</p>\n</div>\n");
}

#[test]
fn unterminated_attribute_list_is_an_error() {
    let d = doc(vec![para(vec![run("{: row "), run(" :}\n")])]);
    assert_eq!(render(&d), Err(RenderError::MalformedAttributeList));
    assert_eq!(RenderError::MalformedAttributeList.message(), "Missing closing '}'");
}

#[test]
fn horizontal_rule_person_and_ignored_elements() {
    let d = doc(vec![para(vec![
        ParagraphElement::PageBreak,
        ParagraphElement::Person(Some("Ada <L>".to_string())),
        ParagraphElement::Person(None),
        ParagraphElement::FootnoteReference,
        ParagraphElement::HorizontalRule,
    ])]);
    let body = body_of(&render(&d).unwrap());
    assert_eq!(body, "\n<p>Ada <L><hr>\n</p>\n");
}

#[test]
fn unsupported_elements_fail_loudly() {
    let cases = vec![
        (ParagraphElement::AutoText, ElementKind::AutoText),
        (ParagraphElement::ColumnBreak, ElementKind::ColumnBreak),
        (ParagraphElement::Equation, ElementKind::Equation),
        (ParagraphElement::RichLink, ElementKind::RichLink),
        (ParagraphElement::Unrecognized, ElementKind::ParagraphElement),
    ];
    for (element, kind) in cases {
        let d = doc(vec![para(vec![run("before"), element])]);
        assert_eq!(render(&d), Err(RenderError::Unsupported(kind)));
    }
    let d = doc(vec![StructuralElement::Unrecognized]);
    assert_eq!(render(&d), Err(RenderError::Unsupported(ElementKind::StructuralElement)));
}

#[test]
fn section_break_renders_nothing_and_toc_is_a_container() {
    let d = doc(vec![
        StructuralElement::SectionBreak,
        StructuralElement::TableOfContents(vec![item(None, "entry\n")]),
    ]);
    let body = body_of(&render(&d).unwrap());
    assert_eq!(
        body,
        "<div class=\"table-of-contents\">\n<ul>\n<li>entry</li>\n</ul>\n</div>\n"
    );
}

fn cell(colspan: Option<u32>, rowspan: Option<u32>, text: &str) -> TableCell {
    TableCell { column_span: colspan, row_span: rowspan, content: vec![para(vec![run(text)])] }
}

fn rows_of(body: &str) -> Vec<String> {
    body.split("<tr>").skip(1).map(|r| r.to_string()).collect()
}

#[test]
fn table_colspan_skips_the_covered_cell() {
    let table = Table {
        rows: vec![
            TableRow { cells: vec![cell(Some(2), None, "a\n"), cell(None, None, ""), cell(None, None, "c\n")] },
            TableRow { cells: vec![cell(None, None, "d\n"), cell(Some(1), Some(1), "e\n"), cell(None, None, "f\n")] },
        ],
    };
    let body = body_of(&render(&doc(vec![StructuralElement::Table(table)])).unwrap());
    let rows = rows_of(&body);
    assert_eq!(rows.len(), 2);
    assert_eq!(count(&rows[0], "<td"), 3 - 1);
    assert_eq!(count(&rows[1], "<td"), 3);
    assert_eq!(
        body,
        "<table>\n<tbody>\n\
         <tr>\n<td colspan='2'>\n<p>a</p>\n</td>\n<td>\n<p>c</p>\n</td>\n</tr>\n\
         <tr>\n<td>\n<p>d</p>\n</td>\n<td>\n<p>e</p>\n</td>\n<td>\n<p>f</p>\n</td>\n</tr>\n\
         </tbody>\n</table>\n"
    );
}

#[test]
fn table_rowspan_skips_the_cell_below() {
    let table = Table {
        rows: vec![
            TableRow { cells: vec![cell(None, Some(2), "a\n"), cell(None, None, "b\n")] },
            TableRow { cells: vec![cell(None, None, ""), cell(None, None, "d\n")] },
            TableRow { cells: vec![cell(None, None, "e\n"), cell(None, None, "f\n")] },
        ],
    };
    let body = body_of(&render(&doc(vec![StructuralElement::Table(table)])).unwrap());
    let rows = rows_of(&body);
    assert_eq!(count(&rows[0], "<td"), 2);
    assert_eq!(count(&rows[1], "<td"), 2 - 1);
    assert_eq!(count(&rows[2], "<td"), 2);
    assert!(rows[0].contains("<td rowspan='2'>"));
}

#[test]
fn table_with_both_spans_and_nested_list() {
    let table = Table {
        rows: vec![
            TableRow {
                cells: vec![
                    TableCell {
                        column_span: Some(2),
                        row_span: Some(2),
                        content: vec![item(None, "x\n")],
                    },
                    cell(None, None, ""),
                ],
            },
            TableRow { cells: vec![cell(None, None, ""), cell(None, None, "")] },
        ],
    };
    let body = body_of(&render(&doc(vec![StructuralElement::Table(table)])).unwrap());
    assert_eq!(
        body,
        "<table>\n<tbody>\n<tr>\n<td colspan='2' rowspan='2'>\n<ul>\n<li>x</li>\n</ul>\n</td>\n</tr>\n\
         <tr>\n<td>\n<p></p>\n</td>\n</tr>\n</tbody>\n</table>\n"
    );
}

#[test]
fn malformed_tables_are_refused() {
    let wide = Table {
        rows: vec![TableRow { cells: vec![cell(Some(3), None, "a\n"), cell(None, None, "")] }],
    };
    assert_eq!(
        render(&doc(vec![StructuralElement::Table(wide)])),
        Err(RenderError::MalformedTable)
    );
    let ragged = Table {
        rows: vec![
            TableRow { cells: vec![cell(None, None, "a\n")] },
            TableRow { cells: vec![cell(None, None, "b\n"), cell(None, None, "c\n")] },
        ],
    };
    assert_eq!(
        render(&doc(vec![StructuralElement::Table(ragged)])),
        Err(RenderError::MalformedTable)
    );
}

fn image_doc(object: EmbeddedObject) -> Document {
    Document {
        title: None,
        body: Some(vec![para(vec![ParagraphElement::InlineObject("kix.abc".to_string())])]),
        inline_objects: vec![InlineObject { id: "kix.abc".to_string(), object }],
    }
}

fn pt(micros: i64) -> Dimension {
    Dimension { magnitude: micros, unit: "PT".to_string() }
}

#[test]
fn image_geometry_without_crop() {
    let object = EmbeddedObject {
        width: pt(75_000_000),
        height: pt(37_500_000),
        image: Some(ImageProperties { content_uri: "http://img".to_string(), angle: None, crop: None }),
    };
    let body = body_of(&render(&image_doc(object)).unwrap());
    assert_eq!(
        body,
        "\n<p><span style=\"width:100.00px;height:50.00px;\">\
         <img id='abc' style='width:100.00px;height:50.00px;margin-left:0.00px;margin-top:0.00px;' \
         src='http://img'></span></p>\n"
    );
}

#[test]
fn image_geometry_with_crop_and_rotation() {
    let object = EmbeddedObject {
        width: pt(75_000_000),
        height: pt(37_500_000),
        image: Some(ImageProperties {
            content_uri: "u".to_string(),
            angle: Some(1_570_796),
            crop: Some(CropProperties {
                offset_top: 100_000,
                offset_bottom: 400_000,
                offset_left: 250_000,
                offset_right: 250_000,
                angle: Some(-500_500),
            }),
        }),
    };
    let body = body_of(&render(&image_doc(object)).unwrap());
    assert_eq!(
        body,
        "\n<p><span style=\"width:100.00px;height:50.00px;transform:rotate(1.571rad) translateZ(0px);\">\
         <img id='abc' style='transform:rotate(-0.501rad) translateZ(0px);\
         width:200.00px;height:100.00px;margin-left:-50.00px;margin-top:-10.00px;' \
         src='u'></span></p>\n"
    );
}

#[test]
fn image_sizes_are_rounded_to_hundredths() {
    let object = EmbeddedObject {
        width: pt(10_000_000),
        height: pt(1),
        image: Some(ImageProperties { content_uri: "u".to_string(), angle: None, crop: None }),
    };
    let body = body_of(&render(&image_doc(object)).unwrap());
    assert!(body.contains("<span style=\"width:13.33px;height:0.00px;\">"));
}

#[test]
fn drawing_renders_nothing() {
    let object = EmbeddedObject { width: pt(1), height: pt(1), image: None };
    assert_eq!(body_of(&render(&image_doc(object)).unwrap()), "\n<p></p>\n");
}

#[test]
fn image_errors() {
    let image = ImageProperties { content_uri: "u".to_string(), angle: None, crop: None };
    let inches = EmbeddedObject {
        width: Dimension { magnitude: 1, unit: "IN".to_string() },
        height: pt(1),
        image: Some(image.clone()),
    };
    assert_eq!(render(&image_doc(inches)), Err(RenderError::UnsupportedUnit("IN".to_string())));
    assert_eq!(RenderError::UnsupportedUnit("PX".to_string()).message(), "Unknown unit PX");
    let tall = EmbeddedObject {
        width: pt(1),
        height: Dimension { magnitude: 1, unit: "pt".to_string() },
        image: Some(ImageProperties { content_uri: "u".to_string(), angle: None, crop: None }),
    };
    assert_eq!(render(&image_doc(tall)), Err(RenderError::UnsupportedUnit("pt".to_string())));

    let hidden = EmbeddedObject {
        width: pt(1),
        height: pt(1),
        image: Some(ImageProperties {
            content_uri: "u".to_string(),
            angle: None,
            crop: Some(CropProperties {
                offset_top: 0,
                offset_bottom: 0,
                offset_left: 500_000,
                offset_right: 500_000,
                angle: None,
            }),
        }),
    };
    assert_eq!(render(&image_doc(hidden)), Err(RenderError::DegenerateCrop));

    let dangling = Document {
        title: None,
        body: Some(vec![para(vec![ParagraphElement::InlineObject("kix.zzz".to_string())])]),
        inline_objects: Vec::new(),
    };
    assert_eq!(render(&dangling), Err(RenderError::DanglingReference));
}

fn tag_depth_returns_to_zero(html: &str) -> bool {
    let mut stack: Vec<String> = Vec::new();
    let mut rest = html;
    while let Some(at) = rest.find('<') {
        rest = &rest[at + 1..];
        let end = rest.find('>').unwrap();
        let inside = &rest[..end];
        rest = &rest[end + 1..];
        if let Some(name) = inside.strip_prefix('/') {
            if stack.pop().as_deref() != Some(name) {
                return false;
            }
        } else {
            let name = inside.split(' ').next().unwrap();
            if name != "hr" && name != "br" && name != "img" {
                stack.push(name.to_string());
            }
        }
    }
    stack.is_empty()
}

#[test]
fn rendered_tags_are_balanced() {
    let mut style = plain_style();
    style.bold = true;
    style.link = Some(Link { url: Some("u".to_string()), heading_id: None, bookmark_id: None });
    let table = Table {
        rows: vec![TableRow {
            cells: vec![TableCell {
                column_span: None,
                row_span: None,
                content: vec![item(Some(1), "in a cell\n"), para(vec![styled("s", style)])],
            }],
        }],
    };
    let d = Document {
        title: Some("t".to_string()),
        body: Some(vec![
            item(Some(0), "a\n"),
            StructuralElement::Table(table),
            item(Some(2), "b\u{0B}c\n"),
            StructuralElement::TableOfContents(vec![para(vec![ParagraphElement::HorizontalRule])]),
        ]),
        inline_objects: Vec::new(),
    };
    let html = render(&d).unwrap();
    assert!(tag_depth_returns_to_zero(&html));
}

#[test]
fn raw_markup_is_written_as_it_stands() {
    let d = doc(vec![para(vec![run("{{ html <div class='open'> }}\n")]), para(vec![run("x\n")])]);
    let html = render(&d).unwrap();
    assert_eq!(body_of(&html), "\n<div class='open'>\n<p>x</p>\n");
    assert!(!tag_depth_returns_to_zero(&html));
}

fn page(renderer: &HtmlRenderer) -> String {
    renderer.html.iter().collect()
}

fn paragraph_of(element: StructuralElement) -> Paragraph {
    match element {
        StructuralElement::Paragraph(p) => p,
        _ => panic!("not a paragraph"),
    }
}

#[test]
fn failed_element_leaves_the_page_as_it_was() {
    let d = doc(Vec::new());
    let mut renderer = HtmlRenderer::new(&d);
    renderer.add_str("kept");
    let dangling = ParagraphElement::InlineObject("kix.zzz".to_string());
    assert_eq!(renderer.format_paragraph_element(&dangling), Err(RenderError::DanglingReference));
    assert_eq!(page(&renderer), "kept");
    assert_eq!(
        renderer.format_paragraph_element(&ParagraphElement::Equation),
        Err(RenderError::Unsupported(ElementKind::Equation))
    );
    assert_eq!(page(&renderer), "kept");
    assert!(renderer.tags.is_empty());
}

#[test]
fn unreadable_directive_writes_no_tag() {
    let d = doc(Vec::new());
    let mut renderer = HtmlRenderer::new(&d);
    renderer.add_str("kept");
    let para = paragraph_of(para(vec![run("{: x "), run(":}")]));
    let mut indent = Indent { depth: 0, magnitude: 0 };
    assert_eq!(
        renderer.format_paragraph(&para, &mut indent),
        Err(RenderError::MalformedAttributeList)
    );
    assert_eq!(page(&renderer), "kept");

    let bulleted = Paragraph {
        bullet: Some(Bullet { nesting_level: None }),
        style: None,
        elements: vec![run("{: x "), run(":}")],
    };
    assert_eq!(
        renderer.format_paragraph(&bulleted, &mut indent),
        Err(RenderError::MalformedAttributeList)
    );
    assert_eq!(page(&renderer), "kept\n<ul>\n");
    assert_eq!(indent, Indent { depth: 1, magnitude: 0 });
}

#[test]
fn failed_paragraph_holds_what_was_written_before() {
    let d = doc(Vec::new());
    let mut renderer = HtmlRenderer::new(&d);
    let para = paragraph_of(para(vec![run("before"), ParagraphElement::AutoText, run("after")]));
    let mut indent = Indent { depth: 0, magnitude: 0 };
    assert_eq!(
        renderer.format_paragraph(&para, &mut indent),
        Err(RenderError::Unsupported(ElementKind::AutoText))
    );
    assert_eq!(page(&renderer), "\n<p>before");
}

#[test]
fn document_without_bullets_writes_no_list() {
    let table = Table {
        rows: vec![TableRow { cells: vec![cell(None, None, "a\n"), cell(None, None, "b\n")] }],
    };
    let mut indented = paragraph_of(para(vec![run("indented\n")]));
    indented.style = Some(ParagraphStyle {
        named_style_type: Some("NORMAL_TEXT".to_string()),
        alignment: None,
        heading_id: None,
        indent_start: Some(36_000_000),
    });
    let body = vec![
        para(vec![run("first\n")]),
        StructuralElement::Paragraph(indented.clone()),
        StructuralElement::Paragraph(indented),
        StructuralElement::Table(table),
        StructuralElement::TableOfContents(vec![para(vec![run("entry\n")])]),
        para(vec![run("last\n")]),
    ];
    let html = render(&doc(body)).unwrap();
    assert_eq!(count(&html, "<ul"), 0);
    assert_eq!(count(&html, "</ul"), 0);
    assert_eq!(count(&html, "<li"), 0);
    assert_eq!(count(&html, "<p"), 7);
}

#[test]
fn spans_of_written_cells_fill_the_grid() {
    let table = Table {
        rows: vec![
            TableRow {
                cells: vec![cell(Some(2), None, "a\n"), cell(None, None, ""), cell(None, None, "c\n")],
            },
            TableRow {
                cells: vec![cell(None, None, "d\n"), cell(None, None, "e\n"), cell(None, Some(2), "f\n")],
            },
            TableRow {
                cells: vec![cell(None, None, "g\n"), cell(Some(1), Some(0), "h\n"), cell(None, None, "")],
            },
        ],
    };
    let body = body_of(&render(&doc(vec![StructuralElement::Table(table)])).unwrap());
    let rows = rows_of(&body);
    assert_eq!(rows.len(), 3);
    assert_eq!(count(&rows[0], "<td"), 2);
    assert_eq!(count(&rows[1], "<td"), 3);
    assert_eq!(count(&rows[2], "<td"), 2);
    let single = count(&body, "<td>");
    let wide = count(&body, "<td colspan='2'>");
    let tall = count(&body, "<td rowspan='2'>");
    assert_eq!(single + wide + tall, count(&body, "<td"));
    assert_eq!(single + 2 * wide + 2 * tall, 3 * 3);
}
