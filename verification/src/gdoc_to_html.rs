//! The renderer: from a document to one HTML page.
//!
//! What a document renders to is stated as a sequence of markup tokens (the
//! `*_tokens` functions); the page is the text of that sequence. The
//! renderer walks the document, writes the text, and keeps the stack of the
//! elements it has opened.

use vstd::prelude::*;
use crate::attr_list::{attributes_markup, paragraph_attr_tag, AttrTag, AttrTagView};
use crate::balance::{lemma_balanced, pieces_plain, tag_balanced};
use crate::decimal::{digits, fixed_text, push_digits, push_fixed, round_div, rounded_quotient};
use crate::escape::{escaped, escaped_char, push_escaped, push_escaped_char};
use crate::geometry::{image_style, image_styles, layout_error, wrapper_style};
use crate::markup::{emit, stack_after, well_nested, Tag, Token};
use crate::lists::{lemma_no_bullet_no_list, list_free, unlisted_document};
use crate::model::{
    BaselineOffset, Color, Document, ElementKind, EmbeddedObject, ImageProperties, InlineObject,
    Link, Paragraph, ParagraphElement, RenderError, StructuralElement, Table, TableCell, TableRow,
    TextRun, TextStyle,
};
use crate::plain::{lemma_document_pieces, plain_document};
use crate::shortcode::{push_shortcodes, shortcodes_markup};
use crate::text::{
    chars_eq, drop_spaces, ends_with, has_prefix, has_suffix, matches_at, push_chars, push_range,
    push_str, skip_spaces, starts_with, str_eq, to_chars, to_text, trim,
};

verus! {

//-------------------------------------------------------------------------
// What a document renders to

/// One attribute in an opening tag: nothing where the value is empty, else
/// a space, the name, and the escaped value in double quotes.
pub open spec fn quoted_attr(name: Seq<char>, value: Seq<char>) -> Seq<char> {
    if value.len() == 0 {
        Seq::empty()
    } else {
        seq![' '] + name + seq!['=', '"'] + escaped(value, true) + seq!['"']
    }
}

/// The attributes of an opening tag, in order.
pub open spec fn quoted_attrs(attrs: Seq<(Seq<char>, Seq<char>)>) -> Seq<char>
    decreases attrs.len(),
{
    if attrs.len() == 0 {
        Seq::empty()
    } else {
        quoted_attrs(attrs.drop_last()) + quoted_attr(attrs.last().0, attrs.last().1)
    }
}

/// The names and values of a list of attributes.
pub open spec fn attr_texts(attrs: Seq<(&'static str, Vec<char>)>) -> Seq<(Seq<char>, Seq<char>)> {
    Seq::new(attrs.len(), |i: int| (attrs[i].0@, attrs[i].1@))
}

/// What stands for a character of content: a vertical tab, the soft line
/// break of the source, becomes `<br>` and a newline; any other character is
/// escaped.
pub open spec fn content_char(c: char) -> Seq<char> {
    if c == '\u{000B}' {
        "<br>\n"@
    } else {
        escaped_char(c, false)
    }
}

/// The characters of `s` as content.
pub open spec fn content_chars(s: Seq<char>) -> Seq<char>
    decreases s.len(),
{
    if s.len() == 0 {
        Seq::empty()
    } else {
        content_chars(s.drop_last()) + content_char(s.last())
    }
}

/// The content of a text run as markup; one final newline is dropped.
pub open spec fn content_markup(s: Seq<char>) -> Seq<char> {
    if s.len() > 0 && s.last() == '\n' {
        content_chars(s.drop_last())
    } else {
        content_chars(s)
    }
}

/// The text of an optional string; nothing where it is absent.
pub open spec fn text_or_empty(s: Option<String>) -> Seq<char> {
    match s {
        Some(s) => s@,
        None => Seq::empty(),
    }
}

/// The target of a link: the URL, else the heading, else the bookmark, the
/// last two as internal anchors.
pub open spec fn link_target(link: Option<Link>) -> Option<Seq<char>> {
    match link {
        Some(l) => match l.url {
            Some(url) => Some(url@),
            None => match l.heading_id {
                Some(id) => Some(seq!['#'] + id@),
                None => match l.bookmark_id {
                    Some(id) => Some(seq!['#'] + id@),
                    None => None,
                },
            },
        },
        None => None,
    }
}

/// The elements that wrap a styled run, outermost first.
pub open spec fn wrapper_tags(style: TextStyle) -> Seq<Tag> {
    (if style.bold {
        seq![Tag::Strong]
    } else {
        Seq::empty()
    }) + (if style.italic {
        seq![Tag::Em]
    } else {
        Seq::empty()
    }) + (if style.strikethrough {
        seq![Tag::Del]
    } else {
        Seq::empty()
    }) + (match style.baseline_offset {
        BaselineOffset::Superscript => seq![Tag::Sup],
        BaselineOffset::Subscript => seq![Tag::Sub],
        BaselineOffset::Baseline => Seq::empty(),
    })
}

/// A colour channel, a fraction in millionths, as a whole percentage.
pub open spec fn percent(channel: i32) -> Seq<char> {
    fixed_text(round_div(channel as int, 10_000), 0)
}

/// The declaration of a colour; nothing unless all three channels are given.
pub open spec fn color_style(name: Seq<char>, color: Option<Color>) -> Seq<char> {
    match color {
        Some(c) => match (c.red, c.green, c.blue) {
            (Some(r), Some(g), Some(b)) => name + ":rgb("@ + percent(r) + "%,"@ + percent(g)
                + "%,"@ + percent(b) + "%);"@,
            _ => Seq::empty(),
        },
        None => Seq::empty(),
    }
}

/// The inline style of a run. A link keeps its own underline and colour.
pub open spec fn run_style(style: TextStyle) -> Seq<char> {
    let linked = link_target(style.link) is Some;
    (if !linked && style.underline {
        "text-decoration: underline;"@
    } else {
        Seq::empty()
    }) + (if style.small_caps {
        "font-variant: small-caps;"@
    } else {
        Seq::empty()
    }) + (if !linked {
        color_style("color"@, style.foreground)
    } else {
        Seq::empty()
    }) + color_style("background-color"@, style.background)
}

/// The opening tags of `tags`, in order, without attributes.
pub open spec fn opens(tags: Seq<Tag>) -> Seq<Token> {
    Seq::new(tags.len(), |i: int| Token::Open { tag: tags[i], attrs: Seq::empty() })
}

/// The closing tags of `tags`, last first.
pub open spec fn closes(tags: Seq<Tag>) -> Seq<Token> {
    Seq::new(tags.len(), |i: int| Token::Close { tag: tags[tags.len() - 1 - i] })
}

/// The attribute of an anchor that links to `url`.
pub open spec fn href(url: Seq<char>) -> Seq<char> {
    " href='"@ + url + seq!['\'']
}

/// The content of a run as tokens.
pub open spec fn run_content(run: TextRun) -> Seq<Token> {
    match run.content {
        Some(c) => seq![Token::Text { chars: content_markup(c@) }],
        None => Seq::empty(),
    }
}

/// The opening tag of the `span` that carries the style `css`, if any.
pub open spec fn span_open(css: Seq<char>) -> Seq<Token> {
    if css.len() > 0 {
        seq![Token::Open { tag: Tag::Span, attrs: quoted_attrs(seq![("style"@, css)]) }]
    } else {
        Seq::empty()
    }
}

/// The closing tag of the `span` that carries the style `css`, if any.
pub open spec fn span_close(css: Seq<char>) -> Seq<Token> {
    if css.len() > 0 {
        seq![Token::Close { tag: Tag::Span }]
    } else {
        Seq::empty()
    }
}

/// The content of a run inside the wrapper elements `tags` and inside the
/// `span` that carries `css`.
pub open spec fn wrapped_tokens(tags: Seq<Tag>, css: Seq<char>, run: TextRun) -> Seq<Token> {
    opens(tags) + span_open(css) + run_content(run) + span_close(css) + closes(tags)
}

/// A text run: the anchor outermost, then `strong`, `em`, `del`, `sup` or
/// `sub`, then a `span` that carries what is left of the style, then the
/// content.
pub open spec fn text_run_tokens(run: TextRun) -> Seq<Token> {
    match run.style {
        None => run_content(run),
        Some(style) => {
            let inner = wrapped_tokens(wrapper_tags(style), run_style(style), run);
            match link_target(style.link) {
                Some(url) => seq![Token::Open { tag: Tag::A, attrs: href(url) }] + inner
                    + seq![Token::Close { tag: Tag::A }],
                None => inner,
            }
        },
    }
}

/// The id of an image: the object id without the prefix `kix.`.
pub open spec fn image_id(id: Seq<char>) -> Seq<char> {
    if starts_with(id, "kix."@) {
        id.skip("kix."@.len() as int)
    } else {
        id
    }
}

/// The image element of an embedded image.
pub open spec fn image_markup(id: Seq<char>, object: EmbeddedObject, image: ImageProperties) -> Seq<
    char,
> {
    "<img id='"@ + image_id(id) + "' style='"@ + image_style(object, image) + "' src='"@
        + image.content_uri@ + "'>"@
}

/// An embedded object: an image in its wrapper; a drawing gives nothing.
pub open spec fn embedded_object_tokens(id: Seq<char>, object: EmbeddedObject) -> Result<
    Seq<Token>,
    RenderError,
> {
    match object.image {
        None => Ok(Seq::empty()),
        Some(image) => match layout_error(object, image) {
            Some(e) => Err(e),
            None => Ok(
                seq![
                    Token::Open {
                        tag: Tag::Span,
                        attrs: quoted_attrs(seq![("style"@, wrapper_style(object, image))]),
                    },
                    Token::Text { chars: image_markup(id, object, image) },
                    Token::Close { tag: Tag::Span },
                ],
            ),
        },
    }
}

/// The first object of `objects`, from position `from` on, whose id is `id`.
pub open spec fn find_object(objects: Seq<InlineObject>, id: Seq<char>, from: int) -> Option<
    EmbeddedObject,
>
    decreases objects.len() - from,
{
    if from < 0 || from >= objects.len() {
        None
    } else if objects[from].id@ == id {
        Some(objects[from].object)
    } else {
        find_object(objects, id, from + 1)
    }
}

/// One element of a paragraph.
pub open spec fn paragraph_element_tokens(doc: Document, element: ParagraphElement) -> Result<
    Seq<Token>,
    RenderError,
> {
    match element {
        ParagraphElement::TextRun(run) => Ok(text_run_tokens(run)),
        ParagraphElement::AutoText => Err(RenderError::Unsupported(ElementKind::AutoText)),
        ParagraphElement::PageBreak => Ok(Seq::empty()),
        ParagraphElement::ColumnBreak => Err(RenderError::Unsupported(ElementKind::ColumnBreak)),
        ParagraphElement::FootnoteReference => Ok(Seq::empty()),
        ParagraphElement::HorizontalRule => Ok(seq![Token::Text { chars: "<hr>\n"@ }]),
        ParagraphElement::Equation => Err(RenderError::Unsupported(ElementKind::Equation)),
        ParagraphElement::InlineObject(id) => match find_object(doc.inline_objects@, id@, 0) {
            Some(object) => embedded_object_tokens(id@, object),
            None => Err(RenderError::DanglingReference),
        },
        ParagraphElement::Person(name) => match name {
            Some(name) => Ok(seq![Token::Text { chars: name@ }]),
            None => Ok(Seq::empty()),
        },
        ParagraphElement::RichLink => Err(RenderError::Unsupported(ElementKind::RichLink)),
        ParagraphElement::Unrecognized => Err(
            RenderError::Unsupported(ElementKind::ParagraphElement),
        ),
    }
}

/// `tokens` followed by a later result, or the error of either.
pub open spec fn then(tokens: Seq<Token>, later: Result<Seq<Token>, RenderError>) -> Result<
    Seq<Token>,
    RenderError,
> {
    match later {
        Ok(rest) => Ok(tokens + rest),
        Err(e) => Err(e),
    }
}

/// The elements of a paragraph from position `from` on; the first element
/// that cannot be rendered gives the error.
pub open spec fn elements_tokens(doc: Document, elements: Seq<ParagraphElement>, from: int) -> Result<
    Seq<Token>,
    RenderError,
>
    decreases elements.len() - from,
{
    if from < 0 || from >= elements.len() {
        Ok(Seq::empty())
    } else {
        match paragraph_element_tokens(doc, elements[from]) {
            Ok(tokens) => then(tokens, elements_tokens(doc, elements, from + 1)),
            Err(e) => Err(e),
        }
    }
}

/// The tokens of the leading elements that can be rendered: those of all
/// elements from position `from` on, or of those before the first one that
/// cannot be rendered.
pub open spec fn elements_written(doc: Document, elements: Seq<ParagraphElement>, from: int) -> Seq<
    Token,
>
    decreases elements.len() - from,
{
    if from < 0 || from >= elements.len() {
        Seq::empty()
    } else {
        match paragraph_element_tokens(doc, elements[from]) {
            Ok(tokens) => tokens + elements_written(doc, elements, from + 1),
            Err(_) => Seq::empty(),
        }
    }
}

/// The list state that is carried from one paragraph to the next.
#[derive(Clone, Copy, Debug, PartialEq, Eq, Structural)]
pub struct Indent {
    /// The number of lists that are open.
    pub depth: u64,
    /// The start indent of the last paragraph, in millionths of a point.
    pub magnitude: i64,
}

/// The text of a paragraph: the contents of its text runs, in order.
pub open spec fn paragraph_text(elements: Seq<ParagraphElement>) -> Seq<char>
    decreases elements.len(),
{
    if elements.len() == 0 {
        Seq::empty()
    } else {
        paragraph_text(elements.drop_last()) + match elements.last() {
            ParagraphElement::TextRun(run) => text_or_empty(run.content),
            _ => Seq::empty(),
        }
    }
}

/// Whether `text`, once trimmed, is wrapped in `{{ }}` or in `{: :}`.
pub open spec fn is_directive(text: Seq<char>) -> bool {
    let t = trim(text);
    (starts_with(t, "{{"@) && ends_with(t, "}}"@)) || (starts_with(t, "{:"@) && ends_with(
        t,
        ":}"@,
    ))
}

/// The text of a paragraph that is a directive, if it is one.
pub open spec fn shortcode_of(para: Paragraph) -> Option<Seq<char>> {
    let text = paragraph_text(para.elements@);
    if is_directive(text) {
        Some(text)
    } else {
        None
    }
}

/// The depth that the bullet of a paragraph asks for: one more than its
/// nesting level, and zero without a bullet.
pub open spec fn bullet_depth(para: Paragraph) -> u64 {
    match para.bullet {
        Some(bullet) => match bullet.nesting_level {
            Some(level) => (level + 1) as u64,
            None => 1,
        },
        None => 0,
    }
}

/// The start indent of a paragraph, where its style gives one.
pub open spec fn indent_start(para: Paragraph) -> Option<i64> {
    match para.style {
        Some(style) => style.indent_start,
        None => None,
    }
}

/// The list state after a paragraph. A paragraph without a bullet whose
/// start indent equals that of the paragraph before it stays at the depth
/// of that paragraph.
pub open spec fn next_indent(para: Paragraph, indent: Indent) -> Indent {
    match indent_start(para) {
        Some(magnitude) => Indent {
            depth: if bullet_depth(para) == 0 && magnitude == indent.magnitude {
                indent.depth
            } else {
                bullet_depth(para)
            },
            magnitude,
        },
        None => Indent { depth: bullet_depth(para), magnitude: 0 },
    }
}

/// `unit`, `n` times.
pub open spec fn repeated(unit: Seq<Token>, n: nat) -> Seq<Token>
    decreases n,
{
    if n == 0 {
        Seq::empty()
    } else {
        repeated(unit, (n - 1) as nat) + unit
    }
}

/// What opens one list.
pub open spec fn list_open() -> Seq<Token> {
    seq![Token::Break, Token::Open { tag: Tag::Ul, attrs: Seq::empty() }, Token::Break]
}

/// What closes one list.
pub open spec fn list_close() -> Seq<Token> {
    seq![Token::Close { tag: Tag::Ul }, Token::Break]
}

/// What brings the number of open lists from `from` to `to`.
pub open spec fn list_tokens(from: nat, to: nat) -> Seq<Token> {
    if to >= from {
        repeated(list_open(), (to - from) as nat)
    } else {
        repeated(list_close(), (from - to) as nat)
    }
}

/// The name of the style of a paragraph; nothing where it has none.
pub open spec fn style_name(para: Paragraph) -> Seq<char> {
    match para.style {
        Some(style) => text_or_empty(style.named_style_type),
        None => Seq::empty(),
    }
}

/// The element of a paragraph: `li` for a list item, `h1` to `h4` for the
/// four heading styles, `p` otherwise.
pub open spec fn paragraph_tag(para: Paragraph) -> Tag {
    let name = style_name(para);
    if para.bullet is Some {
        Tag::Li
    } else if name == "HEADING_1"@ {
        Tag::H1
    } else if name == "HEADING_2"@ {
        Tag::H2
    } else if name == "HEADING_3"@ {
        Tag::H3
    } else if name == "HEADING_4"@ {
        Tag::H4
    } else {
        Tag::P
    }
}

/// The class of a paragraph: the name of its style, unless that is the
/// normal text or one of the four heading styles.
pub open spec fn paragraph_class(para: Paragraph) -> Seq<char> {
    let name = style_name(para);
    if name == "NORMAL_TEXT"@ || name == "HEADING_1"@ || name == "HEADING_2"@ || name
        == "HEADING_3"@ || name == "HEADING_4"@ {
        Seq::empty()
    } else {
        name
    }
}

/// The inline style of a paragraph: its alignment, where that is the
/// start, the end or the centre.
pub open spec fn paragraph_css(para: Paragraph) -> Seq<char> {
    let alignment = match para.style {
        Some(style) => text_or_empty(style.alignment),
        None => Seq::empty(),
    };
    if alignment == "START"@ {
        "text-align:start;"@
    } else if alignment == "END"@ {
        "text-align:end;"@
    } else if alignment == "CENTER"@ {
        "text-align:center;"@
    } else {
        Seq::empty()
    }
}

/// The id of a paragraph: the anchor of its heading, where it has one.
pub open spec fn paragraph_id(para: Paragraph) -> Seq<char> {
    match para.style {
        Some(style) => text_or_empty(style.heading_id),
        None => Seq::empty(),
    }
}

/// The attributes of the element of a paragraph.
pub open spec fn paragraph_attrs(para: Paragraph) -> Seq<char> {
    quoted_attrs(
        seq![
            ("id"@, paragraph_id(para)),
            ("class"@, paragraph_class(para)),
            ("style"@, paragraph_css(para)),
        ],
    )
}

/// A paragraph that is a directive with the text `text`: an attribute list
/// opens or closes a container, anything else is a run of shortcodes.
pub open spec fn directive_tokens(para: Paragraph, text: Seq<char>) -> Result<
    Seq<Token>,
    RenderError,
> {
    match paragraph_attr_tag(para) {
        Err(_) => Err(RenderError::MalformedAttributeList),
        Ok(Some((AttrTagView::Start(attrs), _))) => Ok(
            seq![
                Token::Break,
                Token::Text { chars: "<div"@ + attributes_markup(attrs) + seq!['>'] },
                Token::Break,
            ],
        ),
        Ok(Some((AttrTagView::End, _))) => Ok(
            seq![Token::Break, Token::Break, Token::Text { chars: "</div>"@ }, Token::Break],
        ),
        Ok(None) => Ok(
            seq![Token::Break, Token::Text { chars: shortcodes_markup(text) }, Token::Break],
        ),
    }
}

/// A paragraph of content: its element around its elements.
pub open spec fn plain_tokens(doc: Document, para: Paragraph) -> Result<Seq<Token>, RenderError> {
    match elements_tokens(doc, para.elements@, 0) {
        Ok(inner) => Ok(
            seq![
                Token::Break,
                Token::Open { tag: paragraph_tag(para), attrs: paragraph_attrs(para) },
            ] + inner + seq![Token::Close { tag: paragraph_tag(para) }, Token::Break],
        ),
        Err(e) => Err(e),
    }
}

/// What a paragraph of content writes, whether or not all its elements
/// can be rendered: its opening tag, the leading elements that can be
/// rendered, and, where all of them can, its closing tag.
pub open spec fn plain_written(doc: Document, para: Paragraph) -> Seq<Token> {
    match plain_tokens(doc, para) {
        Ok(tokens) => tokens,
        Err(_) => seq![
            Token::Break,
            Token::Open { tag: paragraph_tag(para), attrs: paragraph_attrs(para) },
        ] + elements_written(doc, para.elements@, 0),
    }
}

/// What a paragraph writes once the lists are brought to its depth,
/// whether or not it can be rendered: a directive that cannot be read
/// writes nothing.
pub open spec fn paragraph_body_written(doc: Document, para: Paragraph) -> Seq<Token> {
    match shortcode_of(para) {
        Some(text) => match directive_tokens(para, text) {
            Ok(tokens) => tokens,
            Err(_) => Seq::empty(),
        },
        None => plain_written(doc, para),
    }
}

/// What a paragraph that follows the list state `indent` writes, whether
/// or not it can be rendered: the tokens that bring the lists to its
/// depth, then what its body writes.
pub open spec fn paragraph_written(doc: Document, para: Paragraph, indent: Indent) -> Seq<Token> {
    list_tokens(indent.depth as nat, next_indent(para, indent).depth as nat)
        + paragraph_body_written(doc, para)
}

/// A paragraph, once the lists are brought to its depth.
pub open spec fn paragraph_body_tokens(doc: Document, para: Paragraph) -> Result<
    Seq<Token>,
    RenderError,
> {
    match shortcode_of(para) {
        Some(text) => directive_tokens(para, text),
        None => plain_tokens(doc, para),
    }
}

/// A paragraph that follows the list state `indent`.
pub open spec fn paragraph_tokens(doc: Document, para: Paragraph, indent: Indent) -> Result<
    Seq<Token>,
    RenderError,
> {
    then(
        list_tokens(indent.depth as nat, next_indent(para, indent).depth as nat),
        paragraph_body_tokens(doc, para),
    )
}

/// The list state at the start of a sequence of structural elements.
pub open spec fn no_indent() -> Indent {
    Indent { depth: 0, magnitude: 0 }
}

/// `x + y`, or the largest counter where the sum is beyond it.
pub open spec fn capped_sum(x: u64, y: u64) -> u64 {
    if x + y > u64::MAX {
        u64::MAX
    } else {
        (x + y) as u64
    }
}

/// `skips` with one more skip for each column from `lo` up to `hi`.
pub open spec fn bumped(skips: Seq<u64>, lo: int, hi: int) -> Seq<u64> {
    Seq::new(
        skips.len(),
        |i: int|
            if lo <= i < hi {
                capped_sum(skips[i], 1)
            } else {
                skips[i]
            },
    )
}

/// A span of a cell; an absent span is zero, which counts as one.
pub open spec fn span_of(span: Option<u32>) -> u32 {
    match span {
        Some(n) => n,
        None => 0,
    }
}

/// The attributes of a cell: its spans, where they are more than one.
pub open spec fn cell_attrs(cell: TableCell) -> Seq<char> {
    let colspan = span_of(cell.column_span);
    let rowspan = span_of(cell.row_span);
    (if colspan > 1 {
        " colspan='"@ + digits(colspan as nat) + seq!['\'']
    } else {
        Seq::empty()
    }) + (if rowspan > 1 {
        " rowspan='"@ + digits(rowspan as nat) + seq!['\'']
    } else {
        Seq::empty()
    })
}

/// The skip counters after a cell in column `col` that is not skipped:
/// one more skip for each further column that the cell spans, and for its
/// own column as many as it spans further rows.
pub open spec fn skips_after(cell: TableCell, col: int, skips: Seq<u64>) -> Seq<u64> {
    let colspan = span_of(cell.column_span);
    let rowspan = span_of(cell.row_span);
    let across = if colspan > 1 {
        bumped(skips, col + 1, col + colspan)
    } else {
        skips
    };
    if rowspan > 1 {
        across.update(col, capped_sum(across[col], (rowspan - 1) as u64))
    } else {
        across
    }
}

/// A structural element that follows the list state `indent`, with the
/// list state after it.
pub open spec fn structural_element_tokens(
    doc: Document,
    element: StructuralElement,
    indent: Indent,
) -> Result<(Seq<Token>, Indent), RenderError>
    decreases element, 0nat,
{
    match element {
        StructuralElement::Paragraph(para) => match paragraph_tokens(doc, para, indent) {
            Ok(tokens) => Ok((tokens, next_indent(para, indent))),
            Err(e) => Err(e),
        },
        StructuralElement::Table(table) => match table_tokens(doc, table) {
            Ok(tokens) => Ok((tokens, indent)),
            Err(e) => Err(e),
        },
        StructuralElement::SectionBreak => Ok((Seq::empty(), indent)),
        StructuralElement::TableOfContents(content) => match structural_from(
            doc,
            content@,
            0,
            no_indent(),
        ) {
            Ok(tokens) => Ok(
                (
                    seq![
                        Token::Open {
                            tag: Tag::Div,
                            attrs: quoted_attrs(seq![("class"@, "table-of-contents"@)]),
                        },
                    ] + tokens + seq![Token::Close { tag: Tag::Div }, Token::Break],
                    indent,
                ),
            ),
            Err(e) => Err(e),
        },
        StructuralElement::Unrecognized => Err(
            RenderError::Unsupported(ElementKind::StructuralElement),
        ),
    }
}

/// The structural elements from position `from` on, after the list state
/// `indent`; at the end, the lists that are still open are closed.
pub open spec fn structural_from(
    doc: Document,
    elements: Seq<StructuralElement>,
    from: int,
    indent: Indent,
) -> Result<Seq<Token>, RenderError>
    decreases elements, elements.len() - from,
{
    if from < 0 || from >= elements.len() {
        Ok(repeated(list_close(), indent.depth as nat))
    } else {
        match structural_element_tokens(doc, elements[from], indent) {
            Ok((tokens, next)) => then(tokens, structural_from(doc, elements, from + 1, next)),
            Err(e) => Err(e),
        }
    }
}

/// A newline written as it stands.
pub open spec fn newline_token() -> Token {
    Token::Text { chars: seq!['\n'] }
}

/// An opening tag and a newline.
pub open spec fn line_open(tag: Tag, attrs: Seq<char>) -> Seq<Token> {
    seq![Token::Open { tag, attrs }, newline_token()]
}

/// A closing tag and a newline.
pub open spec fn line_close(tag: Tag) -> Seq<Token> {
    seq![Token::Close { tag }, newline_token()]
}

/// A cell in column `col` that is not skipped, with the skip counters
/// after it.
pub open spec fn cell_tokens(doc: Document, cell: TableCell, col: int, skips: Seq<u64>) -> Result<
    (Seq<Token>, Seq<u64>),
    RenderError,
>
    decreases cell, 0nat,
{
    if span_of(cell.column_span) > 1 && col + span_of(cell.column_span) > skips.len() {
        Err(RenderError::MalformedTable)
    } else {
        match structural_from(doc, cell.content@, 0, no_indent()) {
            Ok(inner) => Ok(
                (
                    line_open(Tag::Td, cell_attrs(cell)) + inner + line_close(Tag::Td),
                    skips_after(cell, col, skips),
                ),
            ),
            Err(e) => Err(e),
        }
    }
}

/// The cells of a row from column `col` on. A cell whose column has a skip
/// pending uses up one skip and is left out.
pub open spec fn cells_from(doc: Document, cells: Seq<TableCell>, col: int, skips: Seq<u64>) -> Result<
    (Seq<Token>, Seq<u64>),
    RenderError,
>
    decreases cells, cells.len() - col,
{
    if col < 0 || col >= cells.len() {
        Ok((Seq::empty(), skips))
    } else if col >= skips.len() {
        Err(RenderError::MalformedTable)
    } else if skips[col] > 0 {
        cells_from(doc, cells, col + 1, skips.update(col, (skips[col] - 1) as u64))
    } else {
        match cell_tokens(doc, cells[col], col, skips) {
            Ok((tokens, after)) => match cells_from(doc, cells, col + 1, after) {
                Ok((rest, last)) => Ok((tokens + rest, last)),
                Err(e) => Err(e),
            },
            Err(e) => Err(e),
        }
    }
}

/// The skip counters at the start of a row of `width` cells: as they are,
/// or one zero for each cell where there are none yet.
pub open spec fn row_skips(skips: Seq<u64>, width: nat) -> Seq<u64> {
    if skips.len() == 0 {
        Seq::new(width, |i: int| 0u64)
    } else {
        skips
    }
}

/// A row around the tokens of its cells.
pub open spec fn row_tokens(cells: Seq<Token>) -> Seq<Token> {
    line_open(Tag::Tr, Seq::empty()) + cells + seq![Token::Break] + line_close(Tag::Tr)
}

/// The rows of a table from position `from` on.
pub open spec fn rows_from(doc: Document, rows: Seq<TableRow>, from: int, skips: Seq<u64>) -> Result<
    Seq<Token>,
    RenderError,
>
    decreases rows, rows.len() - from,
{
    if from < 0 || from >= rows.len() {
        Ok(Seq::empty())
    } else {
        let cells = rows[from].cells@;
        match cells_from(doc, cells, 0, row_skips(skips, cells.len())) {
            Ok((tokens, after)) => then(
                row_tokens(tokens),
                rows_from(doc, rows, from + 1, after),
            ),
            Err(e) => Err(e),
        }
    }
}

/// A table.
pub open spec fn table_tokens(doc: Document, table: Table) -> Result<Seq<Token>, RenderError>
    decreases table, 0nat,
{
    match rows_from(doc, table.rows@, 0, Seq::empty()) {
        Ok(rows) => Ok(
            line_open(Tag::Table, Seq::empty()) + line_open(Tag::Tbody, Seq::empty()) + rows
                + line_close(Tag::Tbody) + line_close(Tag::Table),
        ),
        Err(e) => Err(e),
    }
}

/// A sequence of structural elements, with its own list state.
pub open spec fn structural_elements_tokens(doc: Document, elements: Seq<StructuralElement>) -> Result<
    Seq<Token>,
    RenderError,
> {
    structural_from(doc, elements, 0, no_indent())
}

/// The head of the page.
pub open spec fn head_tokens(doc: Document) -> Seq<Token> {
    seq![
        Token::Open { tag: Tag::Html, attrs: Seq::empty() },
        Token::Break,
        Token::Open { tag: Tag::Head, attrs: Seq::empty() },
        Token::Break,
    ] + (match doc.title {
        Some(title) => seq![
            Token::Open { tag: Tag::Title, attrs: Seq::empty() },
            Token::Text { chars: title@ },
            Token::Close { tag: Tag::Title },
            Token::Break,
        ],
        None => Seq::empty(),
    }) + seq![
        Token::Close { tag: Tag::Head },
        Token::Break,
        Token::Open { tag: Tag::Body, attrs: Seq::empty() },
    ]
}

/// The body of the document.
pub open spec fn body_tokens(doc: Document) -> Result<Seq<Token>, RenderError> {
    match doc.body {
        Some(content) => structural_elements_tokens(doc, content@),
        None => Ok(Seq::empty()),
    }
}

/// A document: the head with the title, then the body.
pub open spec fn document_tokens(doc: Document) -> Result<Seq<Token>, RenderError> {
    match body_tokens(doc) {
        Ok(body) => Ok(
            head_tokens(doc) + body + seq![
                Token::Close { tag: Tag::Body },
                Token::Break,
                Token::Close { tag: Tag::Html },
                Token::Break,
            ],
        ),
        Err(e) => Err(e),
    }
}

/// The page that a document renders to.
pub open spec fn rendered(doc: Document) -> Result<Seq<char>, RenderError> {
    match document_tokens(doc) {
        Ok(tokens) => Ok(emit(Seq::empty(), tokens)),
        Err(e) => Err(e),
    }
}

/// The target of a link, if it has one.
pub fn link_of(link: &Option<Link>) -> (r: Option<Vec<char>>)
    ensures
        match r {
            Some(v) => link_target(*link) == Some(v@),
            None => link_target(*link) is None,
        },
{
    match link {
        Some(l) => match &l.url {
            Some(url) => Some(to_chars(url.as_str())),
            None => match &l.heading_id {
                Some(id) => {
                    let mut v: Vec<char> = Vec::new();
                    v.push('#');
                    push_str(&mut v, id.as_str());
                    Some(v)
                },
                None => match &l.bookmark_id {
                    Some(id) => {
                        let mut v: Vec<char> = Vec::new();
                        v.push('#');
                        push_str(&mut v, id.as_str());
                        Some(v)
                    },
                    None => None,
                },
            },
        },
        None => None,
    }
}

/// The elements that wrap a styled run, outermost first.
pub fn wrappers_of(style: &TextStyle) -> (r: Vec<Tag>)
    ensures
        r@ == wrapper_tags(*style),
{
    let mut r: Vec<Tag> = Vec::new();
    if style.bold {
        r.push(Tag::Strong);
    }
    if style.italic {
        r.push(Tag::Em);
    }
    if style.strikethrough {
        r.push(Tag::Del);
    }
    match style.baseline_offset {
        BaselineOffset::Superscript => {
            r.push(Tag::Sup);
        },
        BaselineOffset::Subscript => {
            r.push(Tag::Sub);
        },
        BaselineOffset::Baseline => {},
    }
    r
}

/// Appends the declaration of `color` under the property `name` to
/// `style_attr`; a colour that lacks a channel adds nothing.
pub fn add_color(name: &str, style_attr: &mut Vec<char>, color: &Option<Color>)
    ensures
        final(style_attr)@ == old(style_attr)@ + color_style(name@, *color),
{
    if let Some(c) = color {
        if let (Some(r), Some(g), Some(b)) = (c.red, c.green, c.blue) {
            push_str(style_attr, name);
            push_str(style_attr, ":rgb(");
            push_fixed(style_attr, rounded_quotient(r as i128, 10_000), 0);
            push_str(style_attr, "%,");
            push_fixed(style_attr, rounded_quotient(g as i128, 10_000), 0);
            push_str(style_attr, "%,");
            push_fixed(style_attr, rounded_quotient(b as i128, 10_000), 0);
            push_str(style_attr, "%);");
            return ;
        }
    }
    assert(old(style_attr)@ + Seq::<char>::empty() == old(style_attr)@);
}

/// The inline style of a run.
pub fn css_of(style: &TextStyle, linked: bool) -> (r: Vec<char>)
    requires
        linked == (link_target(style.link) is Some),
    ensures
        r@ == run_style(*style),
{
    let mut r: Vec<char> = Vec::new();
    if !linked && style.underline {
        push_str(&mut r, "text-decoration: underline;");
    }
    if style.small_caps {
        push_str(&mut r, "font-variant: small-caps;");
    }
    if !linked {
        add_color("color", &mut r, &style.foreground);
    }
    add_color("background-color", &mut r, &style.background);
    r
}

/// The `depth` innermost open elements are lists.
pub open spec fn lists_open(tags: Seq<Tag>, depth: nat) -> bool {
    tags.len() >= depth && forall|i: int| tags.len() - depth <= i < tags.len() ==> tags[i] == Tag::Ul
}

/// `n` open lists.
pub open spec fn lists(n: nat) -> Seq<Tag> {
    Seq::new(n, |i: int| Tag::Ul)
}

/// The open elements once the innermost `from` lists are replaced by `to` lists.
pub open spec fn relisted(tags: Seq<Tag>, from: nat, to: nat) -> Seq<Tag> {
    tags.take(tags.len() - from) + lists(to)
}

/// The element of a paragraph.
pub fn paragraph_tag_of(para: &Paragraph) -> (r: Tag)
    ensures
        r == paragraph_tag(*para),
{
    let mut name: Vec<char> = Vec::new();
    if let Some(style) = &para.style {
        if let Some(n) = &style.named_style_type {
            push_str(&mut name, n.as_str());
        }
    }
    assert(name@ == style_name(*para));
    if para.bullet.is_some() {
        Tag::Li
    } else if chars_eq(&name, "HEADING_1") {
        Tag::H1
    } else if chars_eq(&name, "HEADING_2") {
        Tag::H2
    } else if chars_eq(&name, "HEADING_3") {
        Tag::H3
    } else if chars_eq(&name, "HEADING_4") {
        Tag::H4
    } else {
        Tag::P
    }
}

/// The id, the class and the inline style of a paragraph.
pub fn paragraph_attrs_of(para: &Paragraph) -> (r: Vec<(&'static str, Vec<char>)>)
    ensures
        quoted_attrs(attr_texts(r@)) == paragraph_attrs(*para),
{
    let mut id: Vec<char> = Vec::new();
    let mut class: Vec<char> = Vec::new();
    let mut css: Vec<char> = Vec::new();
    let mut align: Vec<char> = Vec::new();
    if let Some(style) = &para.style {
        if let Some(name) = &style.named_style_type {
            let n = to_chars(name.as_str());
            if !(chars_eq(&n, "NORMAL_TEXT") || chars_eq(&n, "HEADING_1") || chars_eq(
                &n,
                "HEADING_2",
            ) || chars_eq(&n, "HEADING_3") || chars_eq(&n, "HEADING_4")) {
                class = n;
            }
        }
        if let Some(alignment) = &style.alignment {
            push_str(&mut align, alignment.as_str());
        }
        if let Some(heading) = &style.heading_id {
            push_str(&mut id, heading.as_str());
        }
    }
    if chars_eq(&align, "START") {
        push_str(&mut css, "text-align:start;");
    } else if chars_eq(&align, "END") {
        push_str(&mut css, "text-align:end;");
    } else if chars_eq(&align, "CENTER") {
        push_str(&mut css, "text-align:center;");
    }
    assert(id@ == paragraph_id(*para));
    assert(class@ == paragraph_class(*para));
    assert(css@ == paragraph_css(*para));
    let mut r: Vec<(&'static str, Vec<char>)> = Vec::new();
    r.push(("id", id));
    r.push(("class", class));
    r.push(("style", css));
    assert(attr_texts(r@) == seq![
        ("id"@, paragraph_id(*para)),
        ("class"@, paragraph_class(*para)),
        ("style"@, paragraph_css(*para)),
    ]);
    r
}

/// The list state after a paragraph.
pub fn indent_after(para: &Paragraph, indent: Indent) -> (r: Indent)
    ensures
        r == next_indent(*para, indent),
{
    let mut depth: u64 = match &para.bullet {
        Some(bullet) => match bullet.nesting_level {
            Some(level) => level as u64 + 1,
            None => 1,
        },
        None => 0,
    };
    let mut magnitude: i64 = 0;
    if let Some(style) = &para.style {
        if let Some(m) = style.indent_start {
            magnitude = m;
            if depth == 0 && m == indent.magnitude {
                depth = indent.depth;
            }
        }
    }
    Indent { depth, magnitude }
}

/// What starts with `a + b` starts with `a`.
pub proof fn lemma_prefix(a: Seq<Token>, b: Seq<Token>, c: Seq<Token>)
    requires
        (a + b).is_prefix_of(c),
    ensures
        a.is_prefix_of(c),
{
    assert forall|i: int| 0 <= i < a.len() implies a[i] == c[i] by {
        assert((a + b)[i] == a[i]);
    }
}

/// Concatenation of token sequences is associative.
pub proof fn lemma_join(a: Seq<Token>, b: Seq<Token>, c: Seq<Token>)
    ensures
        a + b + c == a + (b + c),
{
}

/// Tokens written before a result that itself starts with tokens.
pub proof fn lemma_then_step(
    acc: Seq<Token>,
    tokens: Seq<Token>,
    later: Result<Seq<Token>, RenderError>,
)
    ensures
        then(acc, then(tokens, later)) == then(acc + tokens, later),
{
    match later {
        Ok(rest) => {
            assert(acc + (tokens + rest) == (acc + tokens) + rest);
        },
        Err(_) => {},
    }
}

/// `tokens` followed by the tokens of a later result that also carries
/// skip counters, or the error of that result.
pub open spec fn then_cells(
    tokens: Seq<Token>,
    later: Result<(Seq<Token>, Seq<u64>), RenderError>,
) -> Result<(Seq<Token>, Seq<u64>), RenderError> {
    match later {
        Ok((rest, skips)) => Ok((tokens + rest, skips)),
        Err(e) => Err(e),
    }
}

/// Tokens written before a row result that itself starts with tokens.
pub proof fn lemma_then_cells_step(
    acc: Seq<Token>,
    tokens: Seq<Token>,
    later: Result<(Seq<Token>, Seq<u64>), RenderError>,
)
    ensures
        then_cells(acc, then_cells(tokens, later)) == then_cells(acc + tokens, later),
{
    match later {
        Ok((rest, skips)) => {
            assert(acc + (tokens + rest) == (acc + tokens) + rest);
        },
        Err(_) => {},
    }
}

/// The cells of a row from a column on, one step unfolded.
pub proof fn lemma_cells_step(doc: Document, cells: Seq<TableCell>, col: int, skips: Seq<u64>)
    requires
        0 <= col < cells.len(),
        col < skips.len(),
    ensures
        cells_from(doc, cells, col, skips) == if skips[col] > 0 {
            cells_from(doc, cells, col + 1, skips.update(col, (skips[col] - 1) as u64))
        } else {
            match cell_tokens(doc, cells[col], col, skips) {
                Ok((tokens, after)) => then_cells(tokens, cells_from(doc, cells, col + 1, after)),
                Err(e) => Err(e),
            }
        },
{
}

/// One more skip for each column from `lo` up to `hi`.
pub fn bump_skips(skips: &mut Vec<u64>, lo: usize, hi: usize)
    requires
        lo <= hi <= old(skips)@.len(),
    ensures
        final(skips)@ == bumped(old(skips)@, lo as int, hi as int),
{
    let ghost k0 = skips@;
    let mut i: usize = lo;
    assert(skips@ == bumped(k0, lo as int, lo as int));
    while i < hi
        invariant
            lo <= i <= hi <= k0.len(),
            skips@.len() == k0.len(),
            skips@ == bumped(k0, lo as int, i as int),
        decreases hi - i,
    {
        let more: u64 = skips[i].saturating_add(1);
        skips.set(i, more);
        assert(skips@ == bumped(k0, lo as int, i + 1));
        i += 1;
    }
}

/// Counts the skips that the spans of a cell in column `col` ask for, and
/// gives the attributes of the cell. A column span that reaches past the
/// last column is refused, and the counters are left as they are.
pub fn account_spans(cell: &TableCell, col: usize, skips: &mut Vec<u64>) -> (r: Result<
    Vec<char>,
    RenderError,
>)
    requires
        col < old(skips)@.len(),
    ensures
        match r {
            Ok(attrs) => !(span_of(cell.column_span) > 1 && col + span_of(cell.column_span) > old(
                skips)@.len()) && attrs@ == cell_attrs(*cell) && final(skips)@ == skips_after(
                *cell,
                col as int,
                old(skips)@,
            ),
            Err(e) => e == RenderError::MalformedTable && span_of(cell.column_span) > 1 && col
                + span_of(cell.column_span) > old(skips)@.len(),
        },
{
    let colspan: u32 = match cell.column_span {
        Some(n) => n,
        None => 0,
    };
    let rowspan: u32 = match cell.row_span {
        Some(n) => n,
        None => 0,
    };
    let mut attrs: Vec<char> = Vec::new();
    let width: usize = skips.len();
    if colspan > 1 {
        if colspan as usize > width - col {
            return Err(RenderError::MalformedTable);
        }
        bump_skips(skips, col + 1, col + colspan as usize);
        push_str(&mut attrs, " colspan='");
        push_digits(&mut attrs, colspan as u128);
        attrs.push('\'');
    }
    if rowspan > 1 {
        let more: u64 = skips[col].saturating_add((rowspan - 1) as u64);
        skips.set(col, more);
        push_str(&mut attrs, " rowspan='");
        push_digits(&mut attrs, rowspan as u128);
        attrs.push('\'');
    }
    Ok(attrs)
}

/// Gives `skips` one zero counter for each of `width` cells, where it has
/// no counters yet.
pub fn fill_skips(skips: &mut Vec<u64>, width: usize)
    ensures
        final(skips)@ == row_skips(old(skips)@, width as nat),
{
    if skips.len() == 0 {
        let mut k: usize = 0;
        while k < width
            invariant
                k <= width,
                skips@ == Seq::new(k as nat, |i: int| 0u64),
            decreases width - k,
        {
            skips.push(0);
            assert(skips@ == Seq::new((k + 1) as nat, |i: int| 0u64));
            k += 1;
        }
    }
}

//-------------------------------------------------------------------------
// The renderer

/// The state of one rendering pass.
pub struct HtmlRenderer<'a> {
    /// The document that is rendered.
    pub doc: &'a Document,
    /// The elements that are open, innermost last.
    pub tags: Vec<Tag>,
    /// The page so far.
    pub html: Vec<char>,
    /// The tokens written so far.
    pub trace: Ghost<Seq<Token>>,
}

impl<'a> HtmlRenderer<'a> {
    /// The page is the text of the tokens written so far, and the stack
    /// holds the elements that they leave open.
    #[verifier::opaque]
    pub open spec fn wf(&self) -> bool {
        &&& self.html@ == emit(Seq::empty(), self.trace@)
        &&& stack_after(Seq::empty(), self.trace@) == Some(self.tags@)
    }

    /// This state is reached from `before` by writing `tokens`.
    pub open spec fn extends(&self, before: Self, tokens: Seq<Token>) -> bool {
        &&& self.wf()
        &&& self.doc == before.doc
        &&& self.trace@ =~= before.trace@ + tokens
    }

    /// This state is `before`: nothing was written, nothing was opened or
    /// closed.
    pub open spec fn unchanged(&self, before: Self) -> bool {
        &&& self.wf()
        &&& self.doc == before.doc
        &&& self.html@ == before.html@
        &&& self.tags@ == before.tags@
        &&& self.trace@ == before.trace@
    }

    /// This state is reached from `before` by writing some tokens: the
    /// page still is the text of its tokens, and these start with the
    /// tokens of `before`.
    pub open spec fn continues(&self, before: Self) -> bool {
        &&& self.wf()
        &&& self.doc == before.doc
        &&& before.trace@.is_prefix_of(self.trace@)
    }

    /// A renderer for `doc` that has written nothing.
    pub fn new(doc: &'a Document) -> (r: Self)
        ensures
            r.wf(),
            r.doc == doc,
            r.trace@ == Seq::<Token>::empty(),
            r.tags@ == Seq::<Tag>::empty(),
    {
        reveal(HtmlRenderer::wf);
        HtmlRenderer { doc, tags: Vec::new(), html: Vec::new(), trace: Ghost(Seq::empty()) }
    }

    /// Opens `tag`; `attrs` is written between the name and `>`.
    pub fn open_tag(&mut self, tag: Tag, attrs: &Vec<char>)
        requires
            old(self).wf(),
        ensures
            final(self).extends(*old(self), seq![Token::Open { tag, attrs: attrs@ }]),
            final(self).tags@ == old(self).tags@.push(tag),
    {
        let ghost before = self.trace@;
        self.html.push('<');
        push_str(&mut self.html, tag.as_str());
        push_chars(&mut self.html, attrs);
        self.html.push('>');
        self.tags.push(tag);
        self.trace = Ghost(before.push(Token::Open { tag, attrs: attrs@ }));
        proof {
            reveal(HtmlRenderer::wf);
            assert(before.push(Token::Open { tag, attrs: attrs@ }).drop_last() == before);
            assert(self.html@ == old(self).html@ + (seq!['<'] + tag.name() + attrs@ + seq!['>']));
        }
    }

    /// Opens `tag` with the given attributes; those with an empty value are
    /// left out, the others are escaped and quoted.
    pub fn start_tag(&mut self, tag: Tag, attrs: &Vec<(&'static str, Vec<char>)>)
        requires
            old(self).wf(),
        ensures
            final(self).extends(
                *old(self),
                seq![Token::Open { tag, attrs: quoted_attrs(attr_texts(attrs@)) }],
            ),
            final(self).tags@ == old(self).tags@.push(tag),
    {
        let mut markup: Vec<char> = Vec::new();
        let mut i: usize = 0;
        while i < attrs.len()
            invariant
                i <= attrs.len(),
                markup@ == quoted_attrs(attr_texts(attrs@).take(i as int)),
            decreases attrs.len() - i,
        {
            let ghost all = attr_texts(attrs@);
            assert(all.take(i + 1).drop_last() == all.take(i as int));
            if attrs[i].1.len() > 0 {
                markup.push(' ');
                push_str(&mut markup, attrs[i].0);
                markup.push('=');
                markup.push('"');
                push_escaped(&mut markup, &attrs[i].1, true);
                markup.push('"');
            }
            assert(markup@ == quoted_attrs(all.take(i as int)) + quoted_attr(
                attrs@[i as int].0@,
                attrs@[i as int].1@,
            ));
            i += 1;
        }
        assert(attr_texts(attrs@).take(attrs.len() as int) == attr_texts(attrs@));
        self.open_tag(tag, &markup);
    }

    /// Closes the innermost open element.
    pub fn end_tag(&mut self)
        requires
            old(self).wf(),
            old(self).tags@.len() > 0,
        ensures
            final(self).extends(*old(self), seq![Token::Close { tag: old(self).tags@.last() }]),
            final(self).tags@ == old(self).tags@.drop_last(),
    {
        let tag = self.tags.pop().unwrap();
        self.html.push('<');
        self.html.push('/');
        push_str(&mut self.html, tag.as_str());
        self.html.push('>');
        let ghost before = self.trace@;
        self.trace = Ghost(before.push(Token::Close { tag }));
        proof {
            reveal(HtmlRenderer::wf);
            assert(before.push(Token::Close { tag }).drop_last() == before);
            assert(self.html@ == old(self).html@ + (seq!['<', '/'] + tag.name() + seq!['>']));
        }
    }

    /// Writes `text` as it stands.
    pub fn add_html_text(&mut self, text: &Vec<char>)
        requires
            old(self).wf(),
        ensures
            final(self).extends(*old(self), seq![Token::Text { chars: text@ }]),
            final(self).tags@ == old(self).tags@,
    {
        push_chars(&mut self.html, text);
        let ghost before = self.trace@;
        self.trace = Ghost(before.push(Token::Text { chars: text@ }));
        proof {
            reveal(HtmlRenderer::wf);
            assert(before.push(Token::Text { chars: text@ }).drop_last() == before);
        }
    }

    /// Writes the string `text` as it stands.
    pub fn add_str(&mut self, text: &str)
        requires
            old(self).wf(),
        ensures
            final(self).extends(*old(self), seq![Token::Text { chars: text@ }]),
            final(self).tags@ == old(self).tags@,
    {
        let v = to_chars(text);
        self.add_html_text(&v);
    }

    /// Ends the line, unless the page already ends with a newline.
    pub fn nl(&mut self)
        requires
            old(self).wf(),
        ensures
            final(self).extends(*old(self), seq![Token::Break]),
            final(self).tags@ == old(self).tags@,
    {
        let n: usize = self.html.len();
        if !(n > 0 && self.html[n - 1] == '\n') {
            self.html.push('\n');
        }
        let ghost before = self.trace@;
        self.trace = Ghost(before.push(Token::Break));
        proof {
            reveal(HtmlRenderer::wf);
            assert(before.push(Token::Break).drop_last() == before);
        }
    }

    /// Closes the innermost open element and ends the line.
    pub fn end_tag_nl(&mut self)
        requires
            old(self).wf(),
            old(self).tags@.len() > 0,
        ensures
            final(self).extends(
                *old(self),
                seq![Token::Close { tag: old(self).tags@.last() }, Token::Break],
            ),
            final(self).tags@ == old(self).tags@.drop_last(),
    {
        self.end_tag();
        self.nl();
    }

    /// Writes the content of a text run.
    pub fn content(&mut self, text: &str)
        requires
            old(self).wf(),
        ensures
            final(self).extends(*old(self), seq![Token::Text { chars: content_markup(text@) }]),
            final(self).tags@ == old(self).tags@,
    {
        let v = to_chars(text);
        let mut end: usize = v.len();
        if end > 0 && v[end - 1] == '\n' {
            end = end - 1;
        }
        let ghost body = v@.take(end as int);
        assert(content_markup(text@) == content_chars(body)) by {
            if v@.len() > 0 && v@.last() == '\n' {
                assert(v@.drop_last() == body);
            } else {
                assert(v@ == body);
            }
        }
        let mut markup: Vec<char> = Vec::new();
        let mut i: usize = 0;
        while i < end
            invariant
                i <= end <= v.len(),
                markup@ == content_chars(v@.take(i as int)),
            decreases end - i,
        {
            assert(v@.take(i + 1).drop_last() == v@.take(i as int));
            if v[i] == '\u{000B}' {
                push_str(&mut markup, "<br>\n");
            } else {
                push_escaped_char(&mut markup, v[i], false);
            }
            i += 1;
        }
        self.add_html_text(&markup);
    }

    /// Opens the elements `tags`, in order, without attributes.
    pub fn open_all(&mut self, tags: &Vec<Tag>)
        requires
            old(self).wf(),
        ensures
            final(self).extends(*old(self), opens(tags@)),
            final(self).tags@ == old(self).tags@ + tags@,
    {
        let ghost t0 = self.trace@;
        let ghost s0 = self.tags@;
        let ghost d0 = self.doc;
        let n: usize = tags.len();
        let mut i: usize = 0;
        while i < n
            invariant
                i <= n == tags.len(),
                self.wf(),
                self.doc == d0,
                self.trace@ == t0 + opens(tags@).take(i as int),
                self.tags@ == s0 + tags@.take(i as int),
            decreases n - i,
        {
            let none: Vec<char> = Vec::new();
            let ghost done = opens(tags@).take(i as int);
            let ghost token = Token::Open { tag: tags@[i as int], attrs: Seq::empty() };
            self.open_tag(tags[i], &none);
            assert(self.trace@ == (t0 + done) + seq![token]);
            assert(opens(tags@).take(i + 1) == done.push(token));
            assert((t0 + done) + seq![token] == t0 + done.push(token));
            assert(tags@.take(i + 1) == tags@.take(i as int).push(tags@[i as int]));
            i += 1;
        }
        assert(tags@.take(n as int) == tags@);
        assert(opens(tags@).take(n as int) == opens(tags@));
    }

    /// Closes the elements `tags`, last first; they are the innermost open ones.
    pub fn close_all(&mut self, tags: &Vec<Tag>)
        requires
            old(self).wf(),
            old(self).tags@.len() >= tags@.len(),
            old(self).tags@.skip(old(self).tags@.len() - tags@.len()) == tags@,
        ensures
            final(self).extends(*old(self), closes(tags@)),
            final(self).tags@ == old(self).tags@.take(old(self).tags@.len() - tags@.len()),
    {
        let ghost t0 = self.trace@;
        let ghost s0 = self.tags@;
        let ghost d0 = self.doc;
        let n: usize = tags.len();
        let ghost base = s0.take(s0.len() - n);
        let mut k: usize = 0;
        assert(s0 == s0.take(s0.len() - 0));
        while k < n
            invariant
                k <= n == tags.len(),
                n <= s0.len(),
                s0.skip(s0.len() - n) == tags@,
                self.wf(),
                self.doc == d0,
                self.trace@ == t0 + closes(tags@).take(k as int),
                self.tags@ == s0.take(s0.len() - k),
            decreases n - k,
        {
            assert(s0.take(s0.len() - k).last() == s0.skip(s0.len() - n)[n - 1 - k]);
            assert(s0.take(s0.len() - k).drop_last() == s0.take(s0.len() - k - 1));
            let ghost done = closes(tags@).take(k as int);
            let ghost token = Token::Close { tag: tags@[n - 1 - k] };
            self.end_tag();
            assert(self.trace@ == (t0 + done) + seq![token]);
            assert(closes(tags@).take(k + 1) == done.push(token));
            assert((t0 + done) + seq![token] == t0 + done.push(token));
            k += 1;
        }
        assert(closes(tags@).take(n as int) == closes(tags@));
    }

    /// Opens the anchor of a link to `url`. An internal anchor is written
    /// as it stands, any other address as `convert_url` gives it.
    pub fn open_link(&mut self, url: &Vec<char>)
        requires
            old(self).wf(),
        ensures
            final(self).extends(*old(self), seq![Token::Open { tag: Tag::A, attrs: href(url@) }]),
            final(self).tags@ == old(self).tags@.push(Tag::A),
    {
        let mut attrs = to_chars(" href='");
        if url.len() > 0 && url[0] == '#' {
            push_chars(&mut attrs, url);
        } else {
            let converted = self.convert_url(url);
            push_chars(&mut attrs, &converted);
        }
        attrs.push('\'');
        assert(attrs@ == href(url@));
        self.open_tag(Tag::A, &attrs);
    }

    /// Writes `content` inside the wrapper elements `tags` and, where `css`
    /// is not empty, inside a `span` that carries it.
    #[verifier::rlimit(40)]
    pub fn format_wrapped(&mut self, tags: &Vec<Tag>, css: Vec<char>, run: &TextRun)
        requires
            old(self).wf(),
        ensures
            final(self).extends(*old(self), wrapped_tokens(tags@, css@, *run)),
            final(self).tags@ == old(self).tags@,
    {
        let ghost s0 = self.tags@;
        let has_css: bool = css.len() > 0;
        self.open_all(tags);
        let ghost s1 = self.tags@;
        if has_css {
            let ghost css_text = css@;
            let mut attrs: Vec<(&'static str, Vec<char>)> = Vec::new();
            attrs.push(("style", css));
            assert(attr_texts(attrs@) == seq![("style"@, css_text)]);
            self.start_tag(Tag::Span, &attrs);
        }
        if let Some(content) = &run.content {
            self.content(content.as_str());
        }
        if has_css {
            self.end_tag();
        }
        assert(self.tags@ == s1);
        assert(s1.skip(s1.len() - tags@.len()) == tags@);
        assert(s1.take(s1.len() - tags@.len()) == s0);
        self.close_all(tags);
    }

    /// Writes a text run.
    #[verifier::rlimit(40)]
    pub fn format_text_run(&mut self, run: &TextRun)
        requires
            old(self).wf(),
        ensures
            final(self).extends(*old(self), text_run_tokens(*run)),
            final(self).tags@ == old(self).tags@,
    {
        let ghost s0 = self.tags@;
        match &run.style {
            Some(style) => {
                let link = link_of(&style.link);
                let tags = wrappers_of(style);
                let css = css_of(style, link.is_some());
                match &link {
                    Some(url) => {
                        self.open_link(url);
                        self.format_wrapped(&tags, css, run);
                        assert(self.tags@.drop_last() == s0);
                        self.end_tag();
                    },
                    None => {
                        self.format_wrapped(&tags, css, run);
                    },
                }
            },
            None => {
                if let Some(content) = &run.content {
                    self.content(content.as_str());
                }
            },
        }
    }

    /// Writes an embedded object: an image in its wrapper.
    pub fn format_embedded_object(&mut self, id: &str, object: &EmbeddedObject) -> (r: Result<
        (),
        RenderError,
    >)
        requires
            old(self).wf(),
        ensures
            match r {
                Ok(()) => embedded_object_tokens(id@, *object) matches Ok(tokens) && final(self).extends(*old(self), tokens) && final(self).tags@ == old(self).tags@,
                Err(e) => embedded_object_tokens(id@, *object) == Err::<Seq<Token>, RenderError>(e)
                    && final(self).unchanged(*old(self)),
            },
    {
        if let Some(image) = &object.image {
            let (wrapper, inner) = match image_styles(object, image) {
                Ok(styles) => styles,
                Err(e) => {
                    return Err(e);
                },
            };
            let ghost wrapper_text = wrapper@;
            let mut attrs: Vec<(&'static str, Vec<char>)> = Vec::new();
            attrs.push(("style", wrapper));
            assert(attr_texts(attrs@) == seq![("style"@, wrapper_text)]);
            self.start_tag(Tag::Span, &attrs);
            let name = to_chars(id);
            let prefix = to_chars("kix.");
            assert(name@.take(name.len() as int) == name@);
            let from: usize = if matches_at(&name, 0, name.len(), &prefix) {
                prefix.len()
            } else {
                0
            };
            assert(name@.subrange(from as int, name.len() as int) == image_id(id@));
            let mut markup = to_chars("<img id='");
            push_range(&mut markup, &name, from, name.len());
            push_str(&mut markup, "' style='");
            push_chars(&mut markup, &inner);
            push_str(&mut markup, "' src='");
            push_str(&mut markup, image.content_uri.as_str());
            push_str(&mut markup, "'>");
            self.add_html_text(&markup);
            self.end_tag();
            Ok(())
        } else {
            Ok(())
        }
    }

    /// The embedded object that the document holds under `id`.
    pub fn find_inline_object(&self, id: &str) -> (r: Option<&'a EmbeddedObject>)
        ensures
            match r {
                Some(object) => find_object(self.doc.inline_objects@, id@, 0) == Some(*object),
                None => find_object(self.doc.inline_objects@, id@, 0) is None,
            },
    {
        let doc: &'a Document = self.doc;
        let mut i: usize = 0;
        while i < doc.inline_objects.len()
            invariant
                i <= doc.inline_objects.len(),
                doc == self.doc,
                find_object(doc.inline_objects@, id@, 0) == find_object(
                    doc.inline_objects@,
                    id@,
                    i as int,
                ),
            decreases doc.inline_objects.len() - i,
        {
            if str_eq(doc.inline_objects[i].id.as_str(), id) {
                return Some(&doc.inline_objects[i].object);
            }
            i += 1;
        }
        None
    }

    /// Writes one element of a paragraph.
    pub fn format_paragraph_element(&mut self, element: &ParagraphElement) -> (r: Result<
        (),
        RenderError,
    >)
        requires
            old(self).wf(),
        ensures
            match r {
                Ok(()) => paragraph_element_tokens(*old(self).doc, *element) matches Ok(tokens)
                    && final(self).extends(*old(self), tokens) && final(self).tags@ == old(self).tags@,
                Err(e) => paragraph_element_tokens(*old(self).doc, *element) == Err::<
                    Seq<Token>,
                    RenderError,
                >(e) && final(self).unchanged(*old(self)),
            },
    {
        match element {
            ParagraphElement::TextRun(run) => {
                self.format_text_run(run);
                Ok(())
            },
            ParagraphElement::AutoText => Err(RenderError::Unsupported(ElementKind::AutoText)),
            ParagraphElement::PageBreak => Ok(()),
            ParagraphElement::ColumnBreak => Err(
                RenderError::Unsupported(ElementKind::ColumnBreak),
            ),
            ParagraphElement::FootnoteReference => Ok(()),
            ParagraphElement::HorizontalRule => {
                self.add_str("<hr>\n");
                Ok(())
            },
            ParagraphElement::Equation => Err(RenderError::Unsupported(ElementKind::Equation)),
            ParagraphElement::InlineObject(id) => {
                match self.find_inline_object(id.as_str()) {
                    Some(object) => self.format_embedded_object(id.as_str(), object),
                    None => Err(RenderError::DanglingReference),
                }
            },
            ParagraphElement::Person(name) => {
                if let Some(name) = name {
                    self.add_str(name.as_str());
                }
                Ok(())
            },
            ParagraphElement::RichLink => Err(RenderError::Unsupported(ElementKind::RichLink)),
            ParagraphElement::Unrecognized => Err(
                RenderError::Unsupported(ElementKind::ParagraphElement),
            ),
        }
    }

    /// Writes a newline.
    pub fn newline(&mut self)
        requires
            old(self).wf(),
        ensures
            final(self).extends(*old(self), seq![newline_token()]),
            final(self).tags@ == old(self).tags@,
    {
        let mut v: Vec<char> = Vec::new();
        v.push('\n');
        self.add_html_text(&v);
    }

    /// Opens `tag` and writes a newline.
    pub fn open_tag_line(&mut self, tag: Tag, attrs: &Vec<char>)
        requires
            old(self).wf(),
        ensures
            final(self).extends(*old(self), line_open(tag, attrs@)),
            final(self).tags@ == old(self).tags@.push(tag),
    {
        self.open_tag(tag, attrs);
        self.newline();
    }

    /// Closes the innermost open element and writes a newline.
    pub fn end_tag_line(&mut self)
        requires
            old(self).wf(),
            old(self).tags@.len() > 0,
        ensures
            final(self).extends(*old(self), line_close(old(self).tags@.last())),
            final(self).tags@ == old(self).tags@.drop_last(),
    {
        self.end_tag();
        self.newline();
    }

    /// Opens `count` lists.
    #[verifier::rlimit(40)]
    pub fn open_lists(&mut self, count: u64)
        requires
            old(self).wf(),
        ensures
            final(self).extends(*old(self), repeated(list_open(), count as nat)),
            final(self).tags@ == old(self).tags@ + lists(count as nat),
    {
        let ghost t0 = self.trace@;
        let ghost s0 = self.tags@;
        let ghost d0 = self.doc;
        let mut d: u64 = 0;
        assert(s0 + lists(0) == s0);
        while d < count
            invariant
                d <= count,
                self.wf(),
                self.doc == d0,
                self.trace@ == t0 + repeated(list_open(), d as nat),
                self.tags@ == s0 + lists(d as nat),
            decreases count - d,
        {
            let ghost done = repeated(list_open(), d as nat);
            let none: Vec<char> = Vec::new();
            self.nl();
            self.open_tag(Tag::Ul, &none);
            self.nl();
            assert(self.trace@ == t0 + done + seq![Token::Break] + seq![
                Token::Open { tag: Tag::Ul, attrs: Seq::empty() },
            ] + seq![Token::Break]);
            assert(t0 + done + seq![Token::Break] + seq![
                Token::Open { tag: Tag::Ul, attrs: Seq::empty() },
            ] + seq![Token::Break] == t0 + (done + list_open()));
            assert((s0 + lists(d as nat)).push(Tag::Ul) == s0 + lists((d + 1) as nat));
            d += 1;
        }
    }

    /// Closes `count` lists; they are the innermost open elements.
    #[verifier::rlimit(40)]
    pub fn close_lists(&mut self, count: u64)
        requires
            old(self).wf(),
            lists_open(old(self).tags@, count as nat),
        ensures
            final(self).extends(*old(self), repeated(list_close(), count as nat)),
            final(self).tags@ == old(self).tags@.take(old(self).tags@.len() - count),
    {
        let ghost t0 = self.trace@;
        let ghost s0 = self.tags@;
        let ghost d0 = self.doc;
        let mut d: u64 = 0;
        assert(s0.take(s0.len() - 0) == s0);
        while d < count
            invariant
                d <= count,
                lists_open(s0, count as nat),
                self.wf(),
                self.doc == d0,
                self.trace@ == t0 + repeated(list_close(), d as nat),
                self.tags@ == s0.take(s0.len() - d),
            decreases count - d,
        {
            let ghost done = repeated(list_close(), d as nat);
            assert(s0.take(s0.len() - d).last() == s0[s0.len() - d - 1]);
            assert(s0.take(s0.len() - d).drop_last() == s0.take(s0.len() - d - 1));
            self.end_tag();
            self.nl();
            assert(self.trace@ == t0 + done + seq![Token::Close { tag: Tag::Ul }] + seq![
                Token::Break,
            ]);
            assert(t0 + done + seq![Token::Close { tag: Tag::Ul }] + seq![Token::Break] == t0 + (
            done + list_close()));
            d += 1;
        }
    }

    /// Opens or closes lists until `to` are open instead of `from`.
    #[verifier::rlimit(40)]
    pub fn set_list_depth(&mut self, from: u64, to: u64)
        requires
            old(self).wf(),
            lists_open(old(self).tags@, from as nat),
        ensures
            final(self).extends(*old(self), list_tokens(from as nat, to as nat)),
            final(self).tags@ == relisted(old(self).tags@, from as nat, to as nat),
            lists_open(final(self).tags@, to as nat),
    {
        let ghost s0 = self.tags@;
        let ghost base = s0.take(s0.len() - from);
        assert(s0 == base + lists(from as nat));
        if to >= from {
            self.open_lists(to - from);
            assert(base + lists(from as nat) + lists((to - from) as nat) == base + lists(
                to as nat,
            ));
        } else {
            assert(lists_open(s0, (from - to) as nat));
            self.close_lists(from - to);
            assert(s0.take(s0.len() - (from - to)) == base + lists(to as nat));
        }
    }

    /// The text of a paragraph that is a directive, if it is one.
    pub fn get_shortcode(&self, para: &Paragraph) -> (r: Option<String>)
        ensures
            match r {
                Some(text) => shortcode_of(*para) == Some(text@),
                None => shortcode_of(*para) is None,
            },
    {
        let mut text: Vec<char> = Vec::new();
        let mut i: usize = 0;
        while i < para.elements.len()
            invariant
                i <= para.elements.len(),
                text@ == paragraph_text(para.elements@.take(i as int)),
            decreases para.elements.len() - i,
        {
            assert(para.elements@.take(i + 1).drop_last() == para.elements@.take(i as int));
            let ghost before = text@;
            if let ParagraphElement::TextRun(run) = &para.elements[i] {
                if let Some(content) = &run.content {
                    push_str(&mut text, content.as_str());
                }
            }
            assert(text@ == before + match para.elements@[i as int] {
                ParagraphElement::TextRun(run) => text_or_empty(run.content),
                _ => Seq::empty(),
            });
            i += 1;
        }
        assert(para.elements@.take(para.elements.len() as int) == para.elements@);
        let n: usize = text.len();
        assert(text@.subrange(0, n as int) == text@);
        let a: usize = skip_spaces(&text, 0, n);
        let b: usize = drop_spaces(&text, a, n);
        let mut trimmed: Vec<char> = Vec::new();
        push_range(&mut trimmed, &text, a, b);
        assert(trimmed@ == trim(text@));
        if (has_prefix(&trimmed, "{{") && has_suffix(&trimmed, "}}")) || (has_prefix(
            &trimmed,
            "{:",
        ) && has_suffix(&trimmed, ":}")) {
            Some(to_text(&text))
        } else {
            None
        }
    }

    /// Writes the markup of the shortcodes of `text` to `out`.
    pub fn write_shortcode(text: &str, out: &mut String) -> (r: Result<(), RenderError>)
        ensures
            r is Ok,
            final(out)@ == old(out)@ + shortcodes_markup(text@),
    {
        crate::shortcode::write_shortcode(text, out)
    }

    /// Writes a paragraph that is a directive with the text `text`.
    #[verifier::rlimit(40)]
    pub fn format_directive(&mut self, para: &Paragraph, text: &str) -> (r: Result<
        (),
        RenderError,
    >)
        requires
            old(self).wf(),
        ensures
            match r {
                Ok(()) => directive_tokens(*para, text@) matches Ok(tokens) && final(self).extends(
                    *old(self),
                    tokens,
                ) && final(self).tags@ == old(self).tags@,
                Err(e) => directive_tokens(*para, text@) == Err::<Seq<Token>, RenderError>(e)
                    && final(self).unchanged(*old(self)),
            },
    {
        let ghost t0 = self.trace@;
        let parse = match AttrTag::parse_para(para) {
            Ok(parse) => parse,
            Err(_) => {
                return Err(RenderError::MalformedAttributeList);
            },
        };
        self.nl();
        let ghost t1 = self.trace@;
        match parse {
            Some((AttrTag::Start(attrs), _)) => {
                let mut markup = to_chars("<div");
                let list = attrs.to_string();
                push_str(&mut markup, list.as_str());
                markup.push('>');
                assert(markup@ == "<div"@ + attributes_markup(attrs@) + seq!['>']);
                self.add_html_text(&markup);
                let ghost t2 = self.trace@;
                self.nl();
                proof {
                    let text_token = Token::Text {
                        chars: "<div"@ + attributes_markup(attrs@) + seq!['>'],
                    };
                    assert(t2 == t1 + seq![text_token]);
                    assert(seq![Token::Break] + seq![text_token] == seq![Token::Break, text_token]);
                    lemma_join(t0, seq![Token::Break], seq![text_token]);
                    assert(seq![Token::Break, text_token] + seq![Token::Break] == seq![
                        Token::Break,
                        text_token,
                        Token::Break,
                    ]);
                    lemma_join(t0, seq![Token::Break, text_token], seq![Token::Break]);
                }
                Ok(())
            },
            Some((AttrTag::End, _)) => {
                self.nl();
                let ghost t2 = self.trace@;
                self.add_str("</div>");
                let ghost t3 = self.trace@;
                self.nl();
                proof {
                    let text_token = Token::Text { chars: "</div>"@ };
                    let two = seq![Token::Break, Token::Break];
                    let three = seq![Token::Break, Token::Break, text_token];
                    assert(seq![Token::Break] + seq![Token::Break] == two);
                    lemma_join(t0, seq![Token::Break], seq![Token::Break]);
                    assert(t2 == t0 + two);
                    assert(two + seq![text_token] == three);
                    lemma_join(t0, two, seq![text_token]);
                    assert(t3 == t0 + three);
                    assert(three + seq![Token::Break] == seq![
                        Token::Break,
                        Token::Break,
                        text_token,
                        Token::Break,
                    ]);
                    lemma_join(t0, three, seq![Token::Break]);
                }
                Ok(())
            },
            None => {
                let mut markup: Vec<char> = Vec::new();
                push_shortcodes(text, &mut markup);
                self.add_html_text(&markup);
                let ghost t2 = self.trace@;
                self.nl();
                proof {
                    let text_token = Token::Text { chars: shortcodes_markup(text@) };
                    assert(t2 == t1 + seq![text_token]);
                    assert(seq![Token::Break] + seq![text_token] == seq![Token::Break, text_token]);
                    lemma_join(t0, seq![Token::Break], seq![text_token]);
                    assert(seq![Token::Break, text_token] + seq![Token::Break] == seq![
                        Token::Break,
                        text_token,
                        Token::Break,
                    ]);
                    lemma_join(t0, seq![Token::Break, text_token], seq![Token::Break]);
                }
                Ok(())
            },
        }
    }

    /// Writes the elements of a paragraph.
    #[verifier::rlimit(40)]
    pub fn format_elements(&mut self, elements: &Vec<ParagraphElement>) -> (r: Result<
        (),
        RenderError,
    >)
        requires
            old(self).wf(),
        ensures
            match r {
                Ok(()) => elements_tokens(*old(self).doc, elements@, 0) matches Ok(tokens)
                    && final(self).extends(*old(self), tokens) && final(self).tags@ == old(
                    self).tags@,
                Err(e) => elements_tokens(*old(self).doc, elements@, 0) == Err::<
                    Seq<Token>,
                    RenderError,
                >(e) && final(self).extends(
                    *old(self),
                    elements_written(*old(self).doc, elements@, 0),
                ) && final(self).tags@ == old(self).tags@,
            },
    {
        let ghost t0 = self.trace@;
        let ghost s0 = self.tags@;
        let ghost d0 = self.doc;
        let ghost acc: Seq<Token> = Seq::empty();
        let mut i: usize = 0;
        while i < elements.len()
            invariant
                i <= elements.len(),
                self.wf(),
                self.doc == d0,
                d0 == old(self).doc,
                self.trace@ == t0 + acc,
                self.tags@ == s0,
                elements_tokens(*d0, elements@, 0) == then(
                    acc,
                    elements_tokens(*d0, elements@, i as int),
                ),
                elements_written(*d0, elements@, 0) == acc + elements_written(
                    *d0,
                    elements@,
                    i as int,
                ),
                t0 == old(self).trace@,
                s0 == old(self).tags@,
            decreases elements.len() - i,
        {
            let ghost before = self.trace@;
            match self.format_paragraph_element(&elements[i]) {
                Ok(()) => {},
                Err(e) => {
                    assert(elements_tokens(*d0, elements@, i as int) == Err::<
                        Seq<Token>,
                        RenderError,
                    >(e));
                    assert(elements_written(*d0, elements@, i as int) == Seq::<Token>::empty());
                    assert(acc + Seq::<Token>::empty() == acc);
                    return Err(e);
                },
            }
            proof {
                let tokens = paragraph_element_tokens(*d0, elements@[i as int])->Ok_0;
                lemma_join(t0, acc, tokens);
                lemma_then_step(acc, tokens, elements_tokens(*d0, elements@, i + 1));
                lemma_join(acc, tokens, elements_written(*d0, elements@, i + 1));
                acc = acc + tokens;
            }
            i += 1;
        }
        assert(acc + Seq::<Token>::empty() == acc);
        Ok(())
    }

    /// Writes a paragraph of content: its element around its elements.
    #[verifier::rlimit(40)]
    pub fn format_plain(&mut self, para: &Paragraph) -> (r: Result<(), RenderError>)
        requires
            old(self).wf(),
        ensures
            match r {
                Ok(()) => plain_tokens(*old(self).doc, *para) matches Ok(tokens) && final(
                    self).extends(*old(self), tokens) && final(self).tags@ == old(self).tags@,
                Err(e) => plain_tokens(*old(self).doc, *para) == Err::<Seq<Token>, RenderError>(e)
                    && final(self).extends(*old(self), plain_written(*old(self).doc, *para))
                    && final(self).tags@ == old(self).tags@.push(paragraph_tag(*para)),
            },
    {
        let ghost t0 = self.trace@;
        let tag = paragraph_tag_of(para);
        let attrs = paragraph_attrs_of(para);
        self.nl();
        self.start_tag(tag, &attrs);
        let ghost t1 = self.trace@;
        match self.format_elements(&para.elements) {
            Ok(()) => {},
            Err(e) => {
                proof {
                    let head = seq![
                        Token::Break,
                        Token::Open { tag: paragraph_tag(*para), attrs: paragraph_attrs(*para) },
                    ];
                    assert(t1 == t0 + head);
                    lemma_join(t0, head, elements_written(*old(self).doc, para.elements@, 0));
                }
                return Err(e);
            },
        }
        let ghost t2 = self.trace@;
        assert(self.tags@.last() == tag);
        assert(self.tags@.drop_last() == old(self).tags@);
        self.end_tag_nl();
        proof {
            let inner = elements_tokens(*old(self).doc, para.elements@, 0)->Ok_0;
            let head = seq![
                Token::Break,
                Token::Open { tag: paragraph_tag(*para), attrs: paragraph_attrs(*para) },
            ];
            let tail = seq![Token::Close { tag: paragraph_tag(*para) }, Token::Break];
            assert(t1 == t0 + head);
            assert(t2 == t1 + inner);
            assert(self.trace@ == t2 + tail);
            lemma_join(t0, head, inner);
            lemma_join(t0, head + inner, tail);
        }
        Ok(())
    }

    /// Writes a paragraph: brings the lists to its depth, then writes the
    /// directive or the content that it holds.
    #[verifier::rlimit(40)]
    pub fn format_paragraph(&mut self, para: &Paragraph, indent: &mut Indent) -> (r: Result<
        (),
        RenderError,
    >)
        requires
            old(self).wf(),
            lists_open(old(self).tags@, old(indent).depth as nat),
        ensures
            match r {
                Ok(()) => paragraph_tokens(*old(self).doc, *para, *old(indent)) matches Ok(tokens)
                    && final(self).extends(*old(self), tokens) && *final(indent) == next_indent(
                    *para,
                    *old(indent),
                ) && final(self).tags@ == relisted(
                    old(self).tags@,
                    old(indent).depth as nat,
                    final(indent).depth as nat,
                ),
                Err(e) => paragraph_tokens(*old(self).doc, *para, *old(indent)) == Err::<
                    Seq<Token>,
                    RenderError,
                >(e) && final(self).extends(
                    *old(self),
                    paragraph_written(*old(self).doc, *para, *old(indent)),
                ) && *final(indent) == next_indent(*para, *old(indent)),
            },
    {
        let ghost t0 = self.trace@;
        let next = indent_after(para, *indent);
        self.set_list_depth(indent.depth, next.depth);
        *indent = next;
        let ghost t1 = self.trace@;
        let result = match self.get_shortcode(para) {
            Some(text) => self.format_directive(para, text.as_str()),
            None => self.format_plain(para),
        };
        proof {
            let lists = list_tokens(old(indent).depth as nat, next.depth as nat);
            let body = paragraph_body_written(*old(self).doc, *para);
            assert(t1 == t0 + lists);
            if result is Err && shortcode_of(*para) is Some {
                assert(t1 + body == t1);
            }
            assert(self.trace@ == t1 + body);
            lemma_join(t0, lists, body);
        }
        result
    }

    /// Writes a cell in column `col` that is not skipped, and counts the
    /// skips that its spans ask for.
    #[verifier::rlimit(40)]
    pub fn format_cell(&mut self, cell: &'a TableCell, col: usize, skips: &mut Vec<u64>) -> (r:
        Result<(), RenderError>)
        requires
            old(self).wf(),
            col < old(skips)@.len(),
        ensures
            match r {
                Ok(()) => cell_tokens(*old(self).doc, *cell, col as int, old(skips)@) matches Ok(
                    (tokens, after),
                ) && final(self).extends(*old(self), tokens) && final(skips)@ == after && final(
                    self).tags@ == old(self).tags@,
                Err(e) => cell_tokens(*old(self).doc, *cell, col as int, old(skips)@) == Err::<
                    (Seq<Token>, Seq<u64>),
                    RenderError,
                >(e) && final(self).continues(*old(self)),
            },
        decreases cell, 0nat,
    {
        let ghost t0 = self.trace@;
        let attrs = match account_spans(cell, col, skips) {
            Ok(attrs) => attrs,
            Err(e) => {
                assert(t0.is_prefix_of(self.trace@));
                return Err(e);
            },
        };
        self.open_tag_line(Tag::Td, &attrs);
        let ghost t1 = self.trace@;
        match self.format_structural_elements(&cell.content) {
            Ok(()) => {},
            Err(e) => {
                proof {
                    lemma_prefix(t0, line_open(Tag::Td, cell_attrs(*cell)), self.trace@);
                }
                return Err(e);
            },
        }
        let ghost t2 = self.trace@;
        assert(self.tags@.last() == Tag::Td);
        assert(self.tags@.drop_last() == old(self).tags@);
        self.end_tag_line();
        proof {
            let inner = structural_from(*old(self).doc, cell.content@, 0, no_indent())->Ok_0;
            let head = line_open(Tag::Td, cell_attrs(*cell));
            let tail = line_close(Tag::Td);
            assert(t1 == t0 + head);
            assert(t2 == t1 + inner);
            assert(self.trace@ == t2 + tail);
            lemma_join(t0, head, inner);
            lemma_join(t0, head + inner, tail);
        }
        Ok(())
    }

    /// Writes the cells of a row; those whose column has a skip pending
    /// use up one skip and are left out.
    #[verifier::rlimit(40)]
    pub fn format_cells(&mut self, row: &'a TableRow, skips: &mut Vec<u64>) -> (r: Result<
        (),
        RenderError,
    >)
        requires
            old(self).wf(),
        ensures
            match r {
                Ok(()) => cells_from(*old(self).doc, row.cells@, 0, old(skips)@) matches Ok(
                    (tokens, after),
                ) && final(self).extends(*old(self), tokens) && final(skips)@ == after && final(
                    self).tags@ == old(self).tags@,
                Err(e) => cells_from(*old(self).doc, row.cells@, 0, old(skips)@) == Err::<
                    (Seq<Token>, Seq<u64>),
                    RenderError,
                >(e) && final(self).continues(*old(self)),
            },
        decreases row, 1nat,
    {
        let ghost t0 = self.trace@;
        let ghost s0 = self.tags@;
        let ghost d0 = self.doc;
        let ghost k0 = skips@;
        let n: usize = row.cells.len();
        let ghost acc: Seq<Token> = Seq::empty();
        let mut col: usize = 0;
        assert(t0 + acc == t0);
        while col < n
            invariant
                col <= n == row.cells.len(),
                self.wf(),
                self.doc == d0,
                d0 == old(self).doc,
                k0 == old(skips)@,
                t0 == old(self).trace@,
                self.trace@ == t0 + acc,
                self.tags@ == s0,
                cells_from(*d0, row.cells@, 0, k0) == then_cells(
                    acc,
                    cells_from(*d0, row.cells@, col as int, skips@),
                ),
            decreases n - col,
        {
            if col >= skips.len() {
                proof {
                    lemma_prefix(t0, acc, self.trace@);
                }
                return Err(RenderError::MalformedTable);
            }
            proof {
                lemma_cells_step(*d0, row.cells@, col as int, skips@);
            }
            if skips[col] > 0 {
                let fewer: u64 = skips[col] - 1;
                skips.set(col, fewer);
            } else {
                let ghost before = skips@;
                match self.format_cell(&row.cells[col], col, skips) {
                    Ok(()) => {},
                    Err(e) => {
                        proof {
                            lemma_prefix(t0, acc, self.trace@);
                        }
                        return Err(e);
                    },
                }
                proof {
                    let tokens = cell_tokens(*d0, row.cells@[col as int], col as int, before)->Ok_0.0;
                    lemma_join(t0, acc, tokens);
                    lemma_then_cells_step(
                        acc,
                        tokens,
                        cells_from(*d0, row.cells@, col + 1, skips@),
                    );
                    acc = acc + tokens;
                }
            }
            col += 1;
        }
        assert(acc + Seq::<Token>::empty() == acc);
        Ok(())
    }

    /// Writes a row of a table.
    #[verifier::rlimit(40)]
    pub fn format_row(&mut self, row: &'a TableRow, skips: &mut Vec<u64>) -> (r: Result<
        (),
        RenderError,
    >)
        requires
            old(self).wf(),
        ensures
            match r {
                Ok(()) => cells_from(
                    *old(self).doc,
                    row.cells@,
                    0,
                    row_skips(old(skips)@, row.cells@.len()),
                ) matches Ok((tokens, after)) && final(self).extends(
                    *old(self),
                    row_tokens(tokens),
                ) && final(skips)@ == after && final(self).tags@ == old(self).tags@,
                Err(e) => cells_from(
                    *old(self).doc,
                    row.cells@,
                    0,
                    row_skips(old(skips)@, row.cells@.len()),
                ) == Err::<(Seq<Token>, Seq<u64>), RenderError>(e) && final(self).continues(
                    *old(self),
                ),
            },
        decreases row, 2nat,
    {
        let ghost t0 = self.trace@;
        let ghost s0 = self.tags@;
        let none: Vec<char> = Vec::new();
        self.open_tag_line(Tag::Tr, &none);
        let ghost t1 = self.trace@;
        fill_skips(skips, row.cells.len());
        let ghost k0 = skips@;
        match self.format_cells(row, skips) {
            Ok(()) => {},
            Err(e) => {
                proof {
                    lemma_prefix(t0, line_open(Tag::Tr, Seq::empty()), self.trace@);
                }
                return Err(e);
            },
        }
        let ghost t2 = self.trace@;
        self.nl();
        let ghost t3 = self.trace@;
        assert(self.tags@.last() == Tag::Tr);
        assert(self.tags@.drop_last() == s0);
        self.end_tag_line();
        proof {
            let inner = cells_from(*old(self).doc, row.cells@, 0, k0)->Ok_0.0;
            let head = line_open(Tag::Tr, Seq::empty());
            let closing = line_close(Tag::Tr);
            assert(t1 == t0 + head);
            assert(t2 == t1 + inner);
            assert(t3 == t2 + seq![Token::Break]);
            assert(self.trace@ == t3 + closing);
            lemma_join(t0, head, inner);
            lemma_join(t0, head + inner, seq![Token::Break]);
            lemma_join(t0, head + inner + seq![Token::Break], closing);
        }
        Ok(())
    }

    /// Writes the rows of a table.
    #[verifier::rlimit(40)]
    pub fn format_rows(&mut self, table: &'a Table) -> (r: Result<(), RenderError>)
        requires
            old(self).wf(),
        ensures
            match r {
                Ok(()) => rows_from(*old(self).doc, table.rows@, 0, Seq::empty()) matches Ok(
                    tokens,
                ) && final(self).extends(*old(self), tokens) && final(self).tags@ == old(
                    self).tags@,
                Err(e) => rows_from(*old(self).doc, table.rows@, 0, Seq::empty()) == Err::<
                    Seq<Token>,
                    RenderError,
                >(e) && final(self).continues(*old(self)),
            },
        decreases table, 1nat,
    {
        let ghost t0 = self.trace@;
        let ghost s0 = self.tags@;
        let ghost d0 = self.doc;
        let mut skips: Vec<u64> = Vec::new();
        let ghost acc: Seq<Token> = Seq::empty();
        let mut i: usize = 0;
        assert(t0 + acc == t0);
        while i < table.rows.len()
            invariant
                i <= table.rows.len(),
                self.wf(),
                self.doc == d0,
                d0 == old(self).doc,
                t0 == old(self).trace@,
                self.trace@ == t0 + acc,
                self.tags@ == s0,
                rows_from(*d0, table.rows@, 0, Seq::empty()) == then(
                    acc,
                    rows_from(*d0, table.rows@, i as int, skips@),
                ),
            decreases table.rows.len() - i,
        {
            let ghost before = skips@;
            match self.format_row(&table.rows[i], &mut skips) {
                Ok(()) => {},
                Err(e) => {
                    proof {
                        lemma_prefix(t0, acc, self.trace@);
                    }
                    return Err(e);
                },
            }
            proof {
                let cells = table.rows@[i as int].cells@;
                let inner = cells_from(*d0, cells, 0, row_skips(before, cells.len()))->Ok_0.0;
                let tokens = row_tokens(inner);
                lemma_join(t0, acc, tokens);
                lemma_then_step(acc, tokens, rows_from(*d0, table.rows@, i + 1, skips@));
                acc = acc + tokens;
            }
            i += 1;
        }
        assert(acc + Seq::<Token>::empty() == acc);
        Ok(())
    }

    /// Writes a table. Cells that a merged neighbour covers are present in
    /// the source and left out of the page.
    #[verifier::rlimit(40)]
    pub fn format_table(&mut self, table: &'a Table) -> (r: Result<(), RenderError>)
        requires
            old(self).wf(),
        ensures
            match r {
                Ok(()) => table_tokens(*old(self).doc, *table) matches Ok(tokens) && final(
                    self).extends(*old(self), tokens) && final(self).tags@ == old(self).tags@,
                Err(e) => table_tokens(*old(self).doc, *table) == Err::<Seq<Token>, RenderError>(e)
                    && final(self).continues(*old(self)),
            },
        decreases table, 2nat,
    {
        let ghost t0 = self.trace@;
        let ghost s0 = self.tags@;
        let none: Vec<char> = Vec::new();
        self.open_tag_line(Tag::Table, &none);
        let ghost ta = self.trace@;
        self.open_tag_line(Tag::Tbody, &none);
        let ghost t1 = self.trace@;
        match self.format_rows(table) {
            Ok(()) => {},
            Err(e) => {
                proof {
                    lemma_join(
                        t0,
                        line_open(Tag::Table, Seq::empty()),
                        line_open(Tag::Tbody, Seq::empty()),
                    );
                    lemma_prefix(
                        t0,
                        line_open(Tag::Table, Seq::empty()) + line_open(Tag::Tbody, Seq::empty()),
                        self.trace@,
                    );
                }
                return Err(e);
            },
        }
        let ghost t2 = self.trace@;
        assert(self.tags@.last() == Tag::Tbody);
        assert(self.tags@.drop_last() == s0.push(Tag::Table));
        self.end_tag_line();
        let ghost t3 = self.trace@;
        assert(self.tags@.last() == Tag::Table);
        assert(self.tags@.drop_last() == s0);
        self.end_tag_line();
        proof {
            let rows = rows_from(*old(self).doc, table.rows@, 0, Seq::empty())->Ok_0;
            let h1 = line_open(Tag::Table, Seq::empty());
            let h2 = line_open(Tag::Tbody, Seq::empty());
            let c1 = line_close(Tag::Tbody);
            let c2 = line_close(Tag::Table);
            assert(ta == t0 + h1);
            assert(t1 == ta + h2);
            assert(t2 == t1 + rows);
            assert(t3 == t2 + c1);
            assert(self.trace@ == t3 + c2);
            lemma_join(t0, h1, h2);
            lemma_join(t0, h1 + h2, rows);
            lemma_join(t0, h1 + h2 + rows, c1);
            lemma_join(t0, h1 + h2 + rows + c1, c2);
        }
        Ok(())
    }

    /// Writes a table of contents: its elements in a container.
    #[verifier::rlimit(40)]
    pub fn format_table_of_contents(&mut self, content: &'a Vec<StructuralElement>) -> (r:
        Result<(), RenderError>)
        requires
            old(self).wf(),
        ensures
            match r {
                Ok(()) => structural_from(*old(self).doc, content@, 0, no_indent()) matches Ok(
                    tokens,
                ) && final(self).extends(
                    *old(self),
                    seq![
                        Token::Open {
                            tag: Tag::Div,
                            attrs: quoted_attrs(seq![("class"@, "table-of-contents"@)]),
                        },
                    ] + tokens + seq![Token::Close { tag: Tag::Div }, Token::Break],
                ) && final(self).tags@ == old(self).tags@,
                Err(e) => structural_from(*old(self).doc, content@, 0, no_indent()) == Err::<
                    Seq<Token>,
                    RenderError,
                >(e) && final(self).continues(*old(self)),
            },
        decreases content, 2nat,
    {
        let ghost t0 = self.trace@;
        let mut attrs: Vec<(&'static str, Vec<char>)> = Vec::new();
        attrs.push(("class", to_chars("table-of-contents")));
        assert(attr_texts(attrs@) == seq![("class"@, "table-of-contents"@)]);
        self.start_tag(Tag::Div, &attrs);
        let ghost t1 = self.trace@;
        match self.format_structural_elements(content) {
            Ok(()) => {},
            Err(e) => {
                proof {
                    lemma_prefix(t0, self.trace@.subrange(t0.len() as int, t1.len() as int), self.trace@);
                }
                return Err(e);
            },
        }
        let ghost t2 = self.trace@;
        assert(self.tags@.last() == Tag::Div);
        assert(self.tags@.drop_last() == old(self).tags@);
        self.end_tag_nl();
        proof {
            let inner = structural_from(*old(self).doc, content@, 0, no_indent())->Ok_0;
            let head = seq![
                Token::Open {
                    tag: Tag::Div,
                    attrs: quoted_attrs(seq![("class"@, "table-of-contents"@)]),
                },
            ];
            let tail = seq![Token::Close { tag: Tag::Div }, Token::Break];
            assert(t1 == t0 + head);
            assert(t2 == t1 + inner);
            assert(self.trace@ == t2 + tail);
            lemma_join(t0, head, inner);
            lemma_join(t0, head + inner, tail);
        }
        Ok(())
    }

    /// Writes one structural element.
    #[verifier::rlimit(40)]
    pub fn format_structural_element(
        &mut self,
        element: &'a StructuralElement,
        indent: &mut Indent,
    ) -> (r: Result<(), RenderError>)
        requires
            old(self).wf(),
            lists_open(old(self).tags@, old(indent).depth as nat),
        ensures
            match r {
                Ok(()) => structural_element_tokens(
                    *old(self).doc,
                    *element,
                    *old(indent),
                ) matches Ok((tokens, next)) && final(self).extends(*old(self), tokens) && *final(
                    indent) == next && final(self).tags@ == relisted(
                    old(self).tags@,
                    old(indent).depth as nat,
                    next.depth as nat,
                ),
                Err(e) => structural_element_tokens(*old(self).doc, *element, *old(indent))
                    == Err::<(Seq<Token>, Indent), RenderError>(e) && final(self).continues(
                    *old(self),
                ),
            },
        decreases element, 0nat,
    {
        let ghost s0 = self.tags@;
        assert(s0 == relisted(s0, indent.depth as nat, indent.depth as nat));
        match element {
            StructuralElement::Paragraph(para) => self.format_paragraph(para, indent),
            StructuralElement::Table(table) => self.format_table(table),
            StructuralElement::SectionBreak => Ok(()),
            StructuralElement::TableOfContents(content) => self.format_table_of_contents(content),
            StructuralElement::Unrecognized => Err(
                RenderError::Unsupported(ElementKind::StructuralElement),
            ),
        }
    }

    /// Writes a sequence of structural elements, and closes the lists that
    /// are open at its end.
    #[verifier::rlimit(40)]
    pub fn format_structural_elements(&mut self, elements: &'a Vec<StructuralElement>) -> (r:
        Result<(), RenderError>)
        requires
            old(self).wf(),
        ensures
            match r {
                Ok(()) => structural_elements_tokens(*old(self).doc, elements@) matches Ok(tokens)
                    && final(self).extends(*old(self), tokens) && final(self).tags@ == old(
                    self).tags@,
                Err(e) => structural_elements_tokens(*old(self).doc, elements@) == Err::<
                    Seq<Token>,
                    RenderError,
                >(e) && final(self).continues(*old(self)),
            },
        decreases elements, 1nat,
    {
        let ghost t0 = self.trace@;
        let ghost s0 = self.tags@;
        let ghost d0 = self.doc;
        let mut indent = Indent { depth: 0, magnitude: 0 };
        let ghost acc: Seq<Token> = Seq::empty();
        let mut i: usize = 0;
        assert(s0 + lists(0) == s0);
        while i < elements.len()
            invariant
                i <= elements.len(),
                self.wf(),
                self.doc == d0,
                d0 == old(self).doc,
                t0 == old(self).trace@,
                self.trace@ == t0 + acc,
                self.tags@ == s0 + lists(indent.depth as nat),
                structural_from(*d0, elements@, 0, no_indent()) == then(
                    acc,
                    structural_from(*d0, elements@, i as int, indent),
                ),
            decreases elements.len() - i,
        {
            let ghost before = indent;
            match self.format_structural_element(&elements[i], &mut indent) {
                Ok(()) => {},
                Err(e) => {
                    assert(structural_from(*d0, elements@, i as int, before) == Err::<
                        Seq<Token>,
                        RenderError,
                    >(e));
                    proof {
                        lemma_prefix(t0, acc, self.trace@);
                    }
                    return Err(e);
                },
            }
            proof {
                let tokens = structural_element_tokens(*d0, elements@[i as int], before)->Ok_0.0;
                lemma_join(t0, acc, tokens);
                lemma_then_step(acc, tokens, structural_from(*d0, elements@, i + 1, indent));
                assert((s0 + lists(before.depth as nat)).take(s0.len() as int) == s0);
                acc = acc + tokens;
            }
            i += 1;
        }
        let ghost t1 = self.trace@;
        self.set_list_depth(indent.depth, 0);
        proof {
            let tail = repeated(list_close(), indent.depth as nat);
            assert(self.trace@ == t1 + tail);
            lemma_join(t0, acc, tail);
            assert((s0 + lists(indent.depth as nat)).take(s0.len() as int) == s0);
            assert(s0 + lists(0) == s0);
        }
        Ok(())
    }

    /// Writes the body of the document.
    pub fn format_body(&mut self) -> (r: Result<(), RenderError>)
        requires
            old(self).wf(),
        ensures
            match r {
                Ok(()) => body_tokens(*old(self).doc) matches Ok(tokens) && final(self).extends(
                    *old(self),
                    tokens,
                ) && final(self).tags@ == old(self).tags@,
                Err(e) => body_tokens(*old(self).doc) == Err::<Seq<Token>, RenderError>(e)
                    && final(self).continues(*old(self)),
            },
    {
        let doc: &'a Document = self.doc;
        match &doc.body {
            Some(content) => self.format_structural_elements(content),
            None => Ok(()),
        }
    }

    /// Writes the page: the head with the title, then the body.
    #[verifier::rlimit(40)]
    pub fn format_doc(&mut self) -> (r: Result<(), RenderError>)
        requires
            old(self).wf(),
        ensures
            match r {
                Ok(()) => document_tokens(*old(self).doc) matches Ok(tokens) && final(
                    self).extends(*old(self), tokens) && final(self).tags@ == old(self).tags@,
                Err(e) => document_tokens(*old(self).doc) == Err::<Seq<Token>, RenderError>(e)
                    && final(self).continues(*old(self)),
            },
    {
        let ghost t0 = self.trace@;
        let ghost s0 = self.tags@;
        let doc: &'a Document = self.doc;
        let none: Vec<char> = Vec::new();
        self.open_tag(Tag::Html, &none);
        self.nl();
        self.open_tag(Tag::Head, &none);
        self.nl();
        let ghost ta = self.trace@;
        if let Some(title) = &doc.title {
            self.open_tag(Tag::Title, &none);
            self.add_str(title.as_str());
            assert(self.tags@.drop_last() == s0.push(Tag::Html).push(Tag::Head));
            self.end_tag_nl();
        }
        let ghost tb = self.trace@;
        assert(self.tags@ == s0.push(Tag::Html).push(Tag::Head));
        assert(self.tags@.drop_last() == s0.push(Tag::Html));
        self.end_tag_nl();
        self.open_tag(Tag::Body, &none);
        let ghost t1 = self.trace@;
        assert(t1 == t0 + head_tokens(*doc)) by {
            let first = seq![
                Token::Open { tag: Tag::Html, attrs: Seq::empty() },
                Token::Break,
                Token::Open { tag: Tag::Head, attrs: Seq::empty() },
                Token::Break,
            ];
            let middle = match doc.title {
                Some(title) => seq![
                    Token::Open { tag: Tag::Title, attrs: Seq::empty() },
                    Token::Text { chars: title@ },
                    Token::Close { tag: Tag::Title },
                    Token::Break,
                ],
                None => Seq::empty(),
            };
            let last = seq![
                Token::Close { tag: Tag::Head },
                Token::Break,
                Token::Open { tag: Tag::Body, attrs: Seq::empty() },
            ];
            assert(ta == t0 + first);
            assert(tb == ta + middle);
            assert(t1 == tb + last);
            assert(t0 + first + middle + last == t0 + (first + middle + last));
        }
        match self.format_body() {
            Ok(()) => {},
            Err(e) => {
                proof {
                    lemma_prefix(t0, head_tokens(*doc), self.trace@);
                }
                return Err(e);
            },
        }
        let ghost t2 = self.trace@;
        assert(self.tags@.last() == Tag::Body);
        assert(self.tags@.drop_last() == s0.push(Tag::Html));
        self.end_tag_nl();
        let ghost t3 = self.trace@;
        assert(t3 == t2 + seq![Token::Close { tag: Tag::Body }, Token::Break]);
        assert(self.tags@.last() == Tag::Html);
        assert(self.tags@.drop_last() == s0);
        self.end_tag_nl();
        assert(self.trace@ == t3 + seq![Token::Close { tag: Tag::Html }, Token::Break]);
        assert(seq![Token::Close { tag: Tag::Body }, Token::Break] + seq![
            Token::Close { tag: Tag::Html },
            Token::Break,
        ] == seq![
            Token::Close { tag: Tag::Body },
            Token::Break,
            Token::Close { tag: Tag::Html },
            Token::Break,
        ]);
        proof {
            let body = body_tokens(*doc)->Ok_0;
            let tail = seq![
                Token::Close { tag: Tag::Body },
                Token::Break,
                Token::Close { tag: Tag::Html },
                Token::Break,
            ];
            assert(t2 == t1 + body);
            lemma_join(
                t2,
                seq![Token::Close { tag: Tag::Body }, Token::Break],
                seq![Token::Close { tag: Tag::Html }, Token::Break],
            );
            assert(self.trace@ == t2 + tail);
            lemma_join(t0, head_tokens(*doc), body);
            lemma_join(t0, head_tokens(*doc) + body, tail);
        }
        Ok(())
    }

    /// The address that a link to `url` is given in the page: `url` itself.
    pub fn convert_url(&self, url: &Vec<char>) -> (r: Vec<char>)
        ensures
            r@ == url@,
    {
        let mut r: Vec<char> = Vec::new();
        push_chars(&mut r, url);
        r
    }
}

/// Renders a document as one HTML page.
///
/// The page is the text of the tokens of the document, and these are well
/// nested: every element that the page opens is closed, innermost first.
/// Where the pieces that are written as they stand are plain, as they are
/// for every plain document, the text of the page is balanced. A document
/// in which no paragraph has a bullet opens no list and no list item. The
/// first construct that cannot be rendered gives the error.
pub fn render(doc: &Document) -> (r: Result<String, RenderError>)
    ensures
        match r {
            Ok(html) => {
                &&& rendered(*doc) == Ok::<Seq<char>, RenderError>(html@)
                &&& well_nested(document_tokens(*doc)->Ok_0)
                &&& pieces_plain(document_tokens(*doc)->Ok_0) ==> tag_balanced(html@)
                &&& plain_document(*doc) ==> tag_balanced(html@)
                &&& unlisted_document(*doc) ==> list_free(document_tokens(*doc)->Ok_0)
            },
            Err(e) => rendered(*doc) == Err::<Seq<char>, RenderError>(e),
        },
{
    let mut renderer = HtmlRenderer::new(doc);
    match renderer.format_doc() {
        Ok(()) => {
            proof {
                reveal(HtmlRenderer::wf);
                let tokens = document_tokens(*doc)->Ok_0;
                assert(renderer.trace@ == Seq::<Token>::empty() + tokens);
                assert(renderer.trace@ == tokens);
                if plain_document(*doc) {
                    lemma_document_pieces(*doc);
                }
                if unlisted_document(*doc) {
                    lemma_no_bullet_no_list(*doc);
                }
                if pieces_plain(tokens) {
                    lemma_balanced(tokens);
                }
            }
            Ok(to_text(&renderer.html))
        },
        Err(e) => Err(e),
    }
}

} // verus!
