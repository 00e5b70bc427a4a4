//! Which documents render to balanced text.
//!
//! A document is plain when it holds no directive and none of the texts
//! that reach the page unescaped holds an angle bracket. The pieces that
//! the renderer writes for a plain document are plain, so its page is
//! balanced.

use vstd::prelude::*;
use crate::balance::{
    lemma_attrs_concat, lemma_balanced, lemma_neutral_concat, lemma_pieces_concat,
    lemma_plain_concat, lemma_plain_neutral, lemma_void_tag, neutral, pieces_plain, plain_attrs,
    plain_text, tag_balanced,
};
use crate::decimal::{digit, digits, fixed_text, padded_digits};
use crate::escape::{escaped, escaped_char};
use crate::gdoc_to_html::{
    body_tokens, cell_attrs, cell_tokens, cells_from, closes, color_style, content_char,
    content_chars, content_markup, document_tokens, elements_tokens, embedded_object_tokens,
    find_object, head_tokens, href, image_id, image_markup, line_close, line_open, link_target,
    list_close, list_open, list_tokens, newline_token, no_indent, opens, paragraph_attrs,
    paragraph_class, paragraph_css, paragraph_element_tokens, paragraph_id, paragraph_tag,
    paragraph_tokens, percent, plain_tokens, quoted_attr, quoted_attrs, rendered, repeated,
    row_skips, row_tokens, rows_from, run_content, run_style, shortcode_of, span_close, span_of,
    span_open, structural_element_tokens, structural_from, style_name, table_tokens,
    text_run_tokens, wrapped_tokens, wrapper_tags, Indent,
};
use crate::geometry::{
    image_style, inner_hundredths, layout_error, margin_hundredths, px_hundredths, rotation_style,
    size_style, wrapper_style,
};
use crate::markup::{well_nested, Tag, Token};
use crate::model::{
    Color, Document, EmbeddedObject, ImageProperties, Link, Paragraph, ParagraphElement,
    RenderError, StructuralElement, Table, TableCell, TableRow, TextRun, TextStyle,
};
use crate::text::starts_with;

verus! {

/// Decimal digits hold no angle bracket.
pub proof fn lemma_digits_plain(n: nat)
    ensures
        plain_text(digits(n)),
    decreases n,
{
    if n >= 10 {
        lemma_digits_plain(n / 10);
        lemma_plain_concat(digits(n / 10), seq![digit((n % 10) as int)]);
        assert(digits(n / 10).push(digit((n % 10) as int)) == digits(n / 10) + seq![
            digit((n % 10) as int),
        ]);
    }
}

/// Zero-padded decimal digits hold no angle bracket.
pub proof fn lemma_padded_plain(n: nat, width: nat)
    ensures
        plain_text(padded_digits(n, width)),
    decreases width,
{
    if width > 0 {
        lemma_padded_plain(n / 10, (width - 1) as nat);
        let before = padded_digits(n / 10, (width - 1) as nat);
        lemma_plain_concat(before, seq![digit((n % 10) as int)]);
        assert(before.push(digit((n % 10) as int)) == before + seq![digit((n % 10) as int)]);
    }
}

/// A number in decimal notation holds no angle bracket.
pub proof fn lemma_fixed_plain(n: int, places: nat)
    ensures
        plain_text(fixed_text(n, places)),
{
    let m = crate::decimal::magnitude(n);
    let scale = crate::decimal::pow10(places);
    lemma_digits_plain(m / scale);
    lemma_padded_plain(m % scale, places);
    let sign = if n < 0 {
        seq!['-']
    } else {
        Seq::<char>::empty()
    };
    lemma_plain_concat(sign, digits(m / scale));
    lemma_plain_concat(sign + digits(m / scale), seq!['.']);
    lemma_plain_concat(sign + digits(m / scale) + seq!['.'], padded_digits(m % scale, places));
}

/// What stands for a character in an attribute value holds no angle
/// bracket, unless the character is one.
pub proof fn lemma_escaped_char_attr(c: char)
    requires
        c != '<',
        c != '>',
    ensures
        plain_text(escaped_char(c, true)),
{
    reveal_strlit("&amp;");
    reveal_strlit("&nbsp;");
    reveal_strlit("&quot;");
}

/// What stands for a character in content holds no angle bracket.
pub proof fn lemma_escaped_char_content(c: char)
    ensures
        plain_text(escaped_char(c, false)),
{
    reveal_strlit("&amp;");
    reveal_strlit("&nbsp;");
    reveal_strlit("&lt;");
    reveal_strlit("&gt;");
}

/// An escaped attribute value holds no angle bracket, unless the value
/// holds one.
pub proof fn lemma_escaped_attr_plain(value: Seq<char>)
    requires
        plain_text(value),
    ensures
        plain_text(escaped(value, true)),
    decreases value.len(),
{
    if value.len() > 0 {
        assert(plain_text(value.drop_last())) by {
            assert forall|i: int| 0 <= i < value.drop_last().len() implies value.drop_last()[i]
                != '<' && value.drop_last()[i] != '>' by {
                assert(value.drop_last()[i] == value[i]);
            }
        }
        lemma_escaped_attr_plain(value.drop_last());
        lemma_escaped_char_attr(value.last());
        lemma_plain_concat(escaped(value.drop_last(), true), escaped_char(value.last(), true));
    }
}

/// What stands for a character of content is neutral.
pub proof fn lemma_content_char_neutral(c: char)
    ensures
        neutral(content_char(c)),
{
    if c == '\u{000B}' {
        reveal_strlit("<br>\n");
        let name = seq!['b', 'r'];
        lemma_void_tag(name, Seq::empty());
        lemma_plain_neutral(seq!['\n']);
        lemma_neutral_concat(seq!['<'] + name + Seq::<char>::empty() + seq!['>'], seq!['\n']);
        assert("<br>\n"@ == seq!['<'] + name + Seq::<char>::empty() + seq!['>'] + seq!['\n']);
    } else {
        lemma_escaped_char_content(c);
        lemma_plain_neutral(escaped_char(c, false));
    }
}

/// The content of a text run is neutral, whatever it holds.
pub proof fn lemma_content_neutral(s: Seq<char>)
    ensures
        neutral(content_chars(s)),
        neutral(content_markup(s)),
    decreases s.len(),
{
    if s.len() == 0 {
        lemma_plain_neutral(Seq::empty());
    } else {
        lemma_content_neutral(s.drop_last());
        lemma_content_char_neutral(s.last());
        lemma_neutral_concat(content_chars(s.drop_last()), content_char(s.last()));
    }
}

/// An attribute with a plain name and a plain value is plain.
pub proof fn lemma_quoted_attr_plain(name: Seq<char>, value: Seq<char>)
    requires
        plain_text(name),
        plain_text(value),
    ensures
        plain_attrs(quoted_attr(name, value)),
{
    if value.len() > 0 {
        lemma_escaped_attr_plain(value);
        lemma_plain_concat(seq![' '], name);
        lemma_plain_concat(seq![' '] + name, seq!['=', '"']);
        lemma_plain_concat(seq![' '] + name + seq!['=', '"'], escaped(value, true));
        lemma_plain_concat(
            seq![' '] + name + seq!['=', '"'] + escaped(value, true),
            seq!['"'],
        );
        assert(quoted_attr(name, value)[0] == ' ');
    }
}

/// Attributes with plain names and plain values are plain.
pub proof fn lemma_quoted_attrs_plain(attrs: Seq<(Seq<char>, Seq<char>)>)
    requires
        forall|i: int| 0 <= i < attrs.len() ==> plain_text(attrs[i].0) && plain_text(attrs[i].1),
    ensures
        plain_attrs(quoted_attrs(attrs)),
    decreases attrs.len(),
{
    if attrs.len() > 0 {
        assert forall|i: int| 0 <= i < attrs.drop_last().len() implies plain_text(
            attrs.drop_last()[i].0,
        ) && plain_text(attrs.drop_last()[i].1) by {
            assert(attrs.drop_last()[i] == attrs[i]);
        }
        lemma_quoted_attrs_plain(attrs.drop_last());
        lemma_quoted_attr_plain(attrs.last().0, attrs.last().1);
        lemma_attrs_concat(
            quoted_attrs(attrs.drop_last()),
            quoted_attr(attrs.last().0, attrs.last().1),
        );
    }
}

//-------------------------------------------------------------------------
// Single tokens

/// The piece that a token writes as it stands is plain.
pub open spec fn token_plain(t: Token) -> bool {
    match t {
        Token::Open { tag, attrs } => plain_attrs(attrs),
        Token::Text { chars } => neutral(chars),
        _ => true,
    }
}

/// One token with a plain piece.
pub proof fn lemma_pieces_one(t: Token)
    requires
        token_plain(t),
    ensures
        pieces_plain(seq![t]),
{
    assert forall|i: int| 0 <= i < seq![t].len() implies match #[trigger] seq![t][i] {
        Token::Open { tag, attrs } => plain_attrs(attrs),
        Token::Text { chars } => neutral(chars),
        _ => true,
    } by {
        assert(seq![t][i] == t);
    }
}

/// Two tokens with plain pieces.
pub proof fn lemma_pieces_two(a: Token, b: Token)
    requires
        token_plain(a),
        token_plain(b),
    ensures
        pieces_plain(seq![a, b]),
{
    lemma_pieces_one(a);
    lemma_pieces_one(b);
    lemma_pieces_concat(seq![a], seq![b]);
    assert(seq![a] + seq![b] == seq![a, b]);
}

/// Opening tags without attributes, and closing tags, are plain.
pub proof fn lemma_opens_closes(tags: Seq<Tag>)
    ensures
        pieces_plain(opens(tags)),
        pieces_plain(closes(tags)),
{
    assert forall|i: int| 0 <= i < opens(tags).len() implies match #[trigger] opens(tags)[i] {
        Token::Open { tag, attrs } => plain_attrs(attrs),
        Token::Text { chars } => neutral(chars),
        _ => true,
    } by {
        assert(opens(tags)[i] == Token::Open { tag: tags[i], attrs: Seq::empty() });
    }
    assert forall|i: int| 0 <= i < closes(tags).len() implies match #[trigger] closes(tags)[i] {
        Token::Open { tag, attrs } => plain_attrs(attrs),
        Token::Text { chars } => neutral(chars),
        _ => true,
    } by {
        assert(closes(tags)[i] == Token::Close { tag: tags[tags.len() - 1 - i] });
    }
}

/// A repetition of tokens with plain pieces.
pub proof fn lemma_repeated_plain(unit: Seq<Token>, n: nat)
    requires
        pieces_plain(unit),
    ensures
        pieces_plain(repeated(unit, n)),
    decreases n,
{
    if n > 0 {
        lemma_repeated_plain(unit, (n - 1) as nat);
        lemma_pieces_concat(repeated(unit, (n - 1) as nat), unit);
    }
}

/// The tokens that open and close lists are plain.
pub proof fn lemma_list_plain(from: nat, to: nat)
    ensures
        pieces_plain(list_tokens(from, to)),
{
    let open = Token::Open { tag: Tag::Ul, attrs: Seq::empty() };
    lemma_pieces_two(Token::Break, open);
    lemma_pieces_one(Token::Break);
    lemma_pieces_concat(seq![Token::Break, open], seq![Token::Break]);
    assert(seq![Token::Break, open] + seq![Token::Break] == list_open());
    lemma_pieces_two(Token::Close { tag: Tag::Ul }, Token::Break);
    if to >= from {
        lemma_repeated_plain(list_open(), (to - from) as nat);
    } else {
        lemma_repeated_plain(list_close(), (from - to) as nat);
    }
}

//-------------------------------------------------------------------------
// Text runs

/// An optional text without angle brackets.
pub open spec fn plain_option(s: Option<String>) -> bool {
    match s {
        Some(s) => plain_text(s@),
        None => true,
    }
}

/// A link whose addresses hold no angle bracket.
pub open spec fn plain_link(link: Option<Link>) -> bool {
    match link {
        Some(l) => plain_option(l.url) && plain_option(l.heading_id) && plain_option(
            l.bookmark_id,
        ),
        None => true,
    }
}

/// A text run whose link, if any, is plain. The content may hold anything.
pub open spec fn plain_run(run: TextRun) -> bool {
    match run.style {
        Some(style) => plain_link(style.link),
        None => true,
    }
}

/// The target of a plain link holds no angle bracket.
pub proof fn lemma_link_target_plain(link: Option<Link>)
    requires
        plain_link(link),
    ensures
        link_target(link) matches Some(url) ==> plain_attrs(href(url)),
{
    match link_target(link) {
        Some(url) => {
            reveal_strlit(" href='");
            let l = link->0;
            assert(plain_text(url)) by {
                if l.url is None {
                    if l.heading_id is Some {
                        lemma_plain_concat(seq!['#'], l.heading_id->0@);
                    } else {
                        lemma_plain_concat(seq!['#'], l.bookmark_id->0@);
                    }
                }
            }
            lemma_plain_concat(" href='"@, url);
            lemma_plain_concat(" href='"@ + url, seq!['\'']);
            assert(href(url)[0] == ' ');
        },
        None => {},
    }
}

/// The declaration of a colour holds no angle bracket.
pub proof fn lemma_color_style_plain(name: Seq<char>, color: Option<Color>)
    requires
        plain_text(name),
    ensures
        plain_text(color_style(name, color)),
{
    reveal_strlit(":rgb(");
    reveal_strlit("%,");
    reveal_strlit("%);");
    match color {
        Some(c) => match (c.red, c.green, c.blue) {
            (Some(r), Some(g), Some(b)) => {
                lemma_fixed_plain(crate::decimal::round_div(r as int, 10_000), 0);
                lemma_fixed_plain(crate::decimal::round_div(g as int, 10_000), 0);
                lemma_fixed_plain(crate::decimal::round_div(b as int, 10_000), 0);
                let t1 = name + ":rgb("@;
                lemma_plain_concat(name, ":rgb("@);
                let t2 = t1 + percent(r);
                lemma_plain_concat(t1, percent(r));
                let t3 = t2 + "%,"@;
                lemma_plain_concat(t2, "%,"@);
                let t4 = t3 + percent(g);
                lemma_plain_concat(t3, percent(g));
                let t5 = t4 + "%,"@;
                lemma_plain_concat(t4, "%,"@);
                let t6 = t5 + percent(b);
                lemma_plain_concat(t5, percent(b));
                lemma_plain_concat(t6, "%);"@);
            },
            _ => {},
        },
        None => {},
    }
}

/// The inline style of a run holds no angle bracket.
pub proof fn lemma_run_style_plain(style: TextStyle)
    ensures
        plain_text(run_style(style)),
{
    reveal_strlit("text-decoration: underline;");
    reveal_strlit("font-variant: small-caps;");
    reveal_strlit("color");
    reveal_strlit("background-color");
    let linked = link_target(style.link) is Some;
    let a = if !linked && style.underline {
        "text-decoration: underline;"@
    } else {
        Seq::<char>::empty()
    };
    let b = if style.small_caps {
        "font-variant: small-caps;"@
    } else {
        Seq::<char>::empty()
    };
    let c = if !linked {
        color_style("color"@, style.foreground)
    } else {
        Seq::<char>::empty()
    };
    let d = color_style("background-color"@, style.background);
    lemma_color_style_plain("color"@, style.foreground);
    lemma_color_style_plain("background-color"@, style.background);
    lemma_plain_concat(a, b);
    lemma_plain_concat(a + b, c);
    lemma_plain_concat(a + b + c, d);
}

/// The `span` that carries a style without angle brackets is plain.
pub proof fn lemma_span_plain(css: Seq<char>)
    requires
        plain_text(css),
    ensures
        pieces_plain(span_open(css)),
        pieces_plain(span_close(css)),
{
    reveal_strlit("style");
    if css.len() > 0 {
        let attrs = seq![("style"@, css)];
        assert forall|i: int| 0 <= i < attrs.len() implies plain_text(attrs[i].0) && plain_text(
            attrs[i].1,
        ) by {
            assert(attrs[i] == ("style"@, css));
        }
        lemma_quoted_attrs_plain(attrs);
        lemma_pieces_one(Token::Open { tag: Tag::Span, attrs: quoted_attrs(attrs) });
        lemma_pieces_one(Token::Close { tag: Tag::Span });
    }
}

/// The content of a run is plain, whatever it holds.
pub proof fn lemma_run_content_plain(run: TextRun)
    ensures
        pieces_plain(run_content(run)),
{
    match run.content {
        Some(c) => {
            lemma_content_neutral(c@);
            lemma_pieces_one(Token::Text { chars: content_markup(c@) });
        },
        None => {},
    }
}

/// The pieces of a plain text run are plain.
pub proof fn lemma_run_pieces(run: TextRun)
    requires
        plain_run(run),
    ensures
        pieces_plain(text_run_tokens(run)),
{
    lemma_run_content_plain(run);
    match run.style {
        None => {},
        Some(style) => {
            let tags = wrapper_tags(style);
            let css = run_style(style);
            lemma_opens_closes(tags);
            lemma_run_style_plain(style);
            lemma_span_plain(css);
            let w1 = opens(tags) + span_open(css);
            lemma_pieces_concat(opens(tags), span_open(css));
            let w2 = w1 + run_content(run);
            lemma_pieces_concat(w1, run_content(run));
            let w3 = w2 + span_close(css);
            lemma_pieces_concat(w2, span_close(css));
            lemma_pieces_concat(w3, closes(tags));
            let inner = wrapped_tokens(tags, css, run);
            assert(pieces_plain(inner));
            lemma_link_target_plain(style.link);
            match link_target(style.link) {
                Some(url) => {
                    let open = Token::Open { tag: Tag::A, attrs: href(url) };
                    lemma_pieces_one(open);
                    lemma_pieces_one(Token::Close { tag: Tag::A });
                    lemma_pieces_concat(seq![open], inner);
                    lemma_pieces_concat(seq![open] + inner, seq![Token::Close { tag: Tag::A }]);
                },
                None => {},
            }
        },
    }
}

//-------------------------------------------------------------------------
// Embedded objects

/// The style of a box holds no angle bracket.
pub proof fn lemma_size_style_plain(width: int, height: int)
    ensures
        plain_text(size_style(width, height)),
{
    reveal_strlit("width:");
    reveal_strlit("px;height:");
    reveal_strlit("px;");
    lemma_fixed_plain(width, 2);
    lemma_fixed_plain(height, 2);
    let t1 = "width:"@ + fixed_text(width, 2);
    lemma_plain_concat("width:"@, fixed_text(width, 2));
    let t2 = t1 + "px;height:"@;
    lemma_plain_concat(t1, "px;height:"@);
    let t3 = t2 + fixed_text(height, 2);
    lemma_plain_concat(t2, fixed_text(height, 2));
    lemma_plain_concat(t3, "px;"@);
}

/// The style of a rotation holds no angle bracket.
pub proof fn lemma_rotation_plain(angle: Option<i64>)
    ensures
        plain_text(rotation_style(angle)),
{
    reveal_strlit("transform:rotate(");
    reveal_strlit("rad) translateZ(0px);");
    match angle {
        Some(a) => {
            let n = crate::decimal::round_div(a as int, 1000);
            lemma_fixed_plain(n, 3);
            lemma_plain_concat("transform:rotate("@, fixed_text(n, 3));
            lemma_plain_concat(
                "transform:rotate("@ + fixed_text(n, 3),
                "rad) translateZ(0px);"@,
            );
        },
        None => {},
    }
}

/// The style of the wrapper of an image holds no angle bracket.
pub proof fn lemma_wrapper_style_plain(object: EmbeddedObject, image: ImageProperties)
    ensures
        plain_text(wrapper_style(object, image)),
{
    lemma_size_style_plain(
        px_hundredths(object.width.magnitude as int),
        px_hundredths(object.height.magnitude as int),
    );
    lemma_rotation_plain(image.angle);
    lemma_plain_concat(
        size_style(
            px_hundredths(object.width.magnitude as int),
            px_hundredths(object.height.magnitude as int),
        ),
        rotation_style(image.angle),
    );
}

/// The style of an image element holds no angle bracket.
#[verifier::rlimit(40)]
pub proof fn lemma_image_style_plain(object: EmbeddedObject, image: ImageProperties)
    ensures
        plain_text(image_style(object, image)),
{
    reveal_strlit("margin-left:");
    reveal_strlit("px;margin-top:");
    reveal_strlit("px;");
    let crop = crate::geometry::crop_of(image);
    let w = object.width.magnitude as int;
    let h = object.height.magnitude as int;
    let (l, r) = (crop.offset_left as int, crop.offset_right as int);
    let (t, b) = (crop.offset_top as int, crop.offset_bottom as int);
    lemma_rotation_plain(crop.angle);
    lemma_size_style_plain(inner_hundredths(w, l, r), inner_hundredths(h, t, b));
    lemma_fixed_plain(margin_hundredths(w, l, r), 2);
    lemma_fixed_plain(margin_hundredths(h, t, b), 2);
    let t1 = rotation_style(crop.angle) + size_style(
        inner_hundredths(w, l, r),
        inner_hundredths(h, t, b),
    );
    lemma_plain_concat(
        rotation_style(crop.angle),
        size_style(inner_hundredths(w, l, r), inner_hundredths(h, t, b)),
    );
    let t2 = t1 + "margin-left:"@;
    lemma_plain_concat(t1, "margin-left:"@);
    let t3 = t2 + fixed_text(margin_hundredths(w, l, r), 2);
    lemma_plain_concat(t2, fixed_text(margin_hundredths(w, l, r), 2));
    let t4 = t3 + "px;margin-top:"@;
    lemma_plain_concat(t3, "px;margin-top:"@);
    let t5 = t4 + fixed_text(margin_hundredths(h, t, b), 2);
    lemma_plain_concat(t4, fixed_text(margin_hundredths(h, t, b), 2));
    lemma_plain_concat(t5, "px;"@);
}

/// The id of an image holds no angle bracket, unless the id of its object
/// holds one.
pub proof fn lemma_image_id_plain(id: Seq<char>)
    requires
        plain_text(id),
    ensures
        plain_text(image_id(id)),
{
    if starts_with(id, "kix."@) {
        let n = "kix."@.len() as int;
        assert forall|i: int| 0 <= i < id.skip(n).len() implies id.skip(n)[i] != '<' && id.skip(
            n,
        )[i] != '>' by {
            assert(id.skip(n)[i] == id[i + n]);
        }
    }
}

/// The image element is neutral where the id of the object and the
/// address of the image hold no angle bracket.
#[verifier::rlimit(40)]
pub proof fn lemma_image_neutral(id: Seq<char>, object: EmbeddedObject, image: ImageProperties)
    requires
        plain_text(id),
        plain_text(image.content_uri@),
    ensures
        neutral(image_markup(id, object, image)),
{
    reveal_strlit("<img id='");
    reveal_strlit("' style='");
    reveal_strlit("' src='");
    reveal_strlit("'>");
    lemma_image_id_plain(id);
    lemma_image_style_plain(object, image);
    let name = seq!['i', 'm', 'g'];
    let a1 = seq![' ', 'i', 'd', '=', '\''] + image_id(id);
    lemma_plain_concat(seq![' ', 'i', 'd', '=', '\''], image_id(id));
    let a2 = a1 + "' style='"@;
    lemma_plain_concat(a1, "' style='"@);
    let a3 = a2 + image_style(object, image);
    lemma_plain_concat(a2, image_style(object, image));
    let a4 = a3 + "' src='"@;
    lemma_plain_concat(a3, "' src='"@);
    let a5 = a4 + image.content_uri@;
    lemma_plain_concat(a4, image.content_uri@);
    let attrs = a5 + seq!['\''];
    lemma_plain_concat(a5, seq!['\'']);
    assert(attrs[0] == ' ');
    lemma_void_tag(name, attrs);
    assert(image_markup(id, object, image) == seq!['<'] + name + attrs + seq!['>']);
}

/// An embedded object whose id and whose address hold no angle bracket.
pub open spec fn plain_object(id: Seq<char>, object: EmbeddedObject) -> bool {
    plain_text(id) && match object.image {
        Some(image) => plain_text(image.content_uri@),
        None => true,
    }
}

/// The pieces of a plain embedded object are plain.
pub proof fn lemma_object_pieces(id: Seq<char>, object: EmbeddedObject)
    requires
        plain_object(id, object),
    ensures
        embedded_object_tokens(id, object) matches Ok(tokens) ==> pieces_plain(tokens),
{
    reveal_strlit("style");
    match object.image {
        Some(image) => {
            if layout_error(object, image) is None {
                lemma_wrapper_style_plain(object, image);
                let attrs = seq![("style"@, wrapper_style(object, image))];
                assert forall|i: int| 0 <= i < attrs.len() implies plain_text(attrs[i].0)
                    && plain_text(attrs[i].1) by {
                    assert(attrs[i] == ("style"@, wrapper_style(object, image)));
                }
                lemma_quoted_attrs_plain(attrs);
                lemma_image_neutral(id, object, image);
                let open = Token::Open { tag: Tag::Span, attrs: quoted_attrs(attrs) };
                let text = Token::Text { chars: image_markup(id, object, image) };
                let close = Token::Close { tag: Tag::Span };
                lemma_pieces_two(open, text);
                lemma_pieces_one(close);
                lemma_pieces_concat(seq![open, text], seq![close]);
                assert(seq![open, text] + seq![close] == seq![open, text, close]);
            }
        },
        None => {},
    }
}

//-------------------------------------------------------------------------
// Paragraphs

/// An element of a paragraph whose unescaped texts hold no angle bracket.
pub open spec fn plain_element(doc: Document, element: ParagraphElement) -> bool {
    match element {
        ParagraphElement::TextRun(run) => plain_run(run),
        ParagraphElement::InlineObject(id) => match find_object(doc.inline_objects@, id@, 0) {
            Some(object) => plain_object(id@, object),
            None => true,
        },
        ParagraphElement::Person(name) => plain_option(name),
        _ => true,
    }
}

/// The pieces of a plain element of a paragraph are plain.
pub proof fn lemma_element_pieces(doc: Document, element: ParagraphElement)
    requires
        plain_element(doc, element),
    ensures
        paragraph_element_tokens(doc, element) matches Ok(tokens) ==> pieces_plain(tokens),
{
    match element {
        ParagraphElement::TextRun(run) => {
            lemma_run_pieces(run);
        },
        ParagraphElement::HorizontalRule => {
            reveal_strlit("<hr>\n");
            let name = seq!['h', 'r'];
            lemma_void_tag(name, Seq::empty());
            lemma_plain_neutral(seq!['\n']);
            lemma_neutral_concat(seq!['<'] + name + Seq::<char>::empty() + seq!['>'], seq!['\n']);
            assert("<hr>\n"@ == seq!['<'] + name + Seq::<char>::empty() + seq!['>'] + seq!['\n']);
            lemma_pieces_one(Token::Text { chars: "<hr>\n"@ });
        },
        ParagraphElement::InlineObject(id) => {
            match find_object(doc.inline_objects@, id@, 0) {
                Some(object) => {
                    lemma_object_pieces(id@, object);
                },
                None => {},
            }
        },
        ParagraphElement::Person(name) => {
            match name {
                Some(name) => {
                    lemma_plain_neutral(name@);
                    lemma_pieces_one(Token::Text { chars: name@ });
                },
                None => {},
            }
        },
        _ => {},
    }
}

/// Every element of a paragraph from position `from` on is plain.
pub open spec fn plain_elements(doc: Document, elements: Seq<ParagraphElement>, from: int) -> bool {
    forall|i: int| from <= i < elements.len() ==> plain_element(doc, #[trigger] elements[i])
}

/// The pieces of plain elements are plain.
pub proof fn lemma_elements_pieces(doc: Document, elements: Seq<ParagraphElement>, from: int)
    requires
        0 <= from,
        plain_elements(doc, elements, from),
    ensures
        elements_tokens(doc, elements, from) matches Ok(tokens) ==> pieces_plain(tokens),
    decreases elements.len() - from,
{
    if from < elements.len() {
        assert(plain_element(doc, elements[from]));
        lemma_element_pieces(doc, elements[from]);
        lemma_elements_pieces(doc, elements, from + 1);
        match (paragraph_element_tokens(doc, elements[from]), elements_tokens(doc, elements, from + 1)) {
            (Ok(tokens), Ok(rest)) => {
                lemma_pieces_concat(tokens, rest);
            },
            _ => {},
        }
    }
}

/// A paragraph of content whose unescaped texts hold no angle bracket:
/// it is no directive, and its id, the name of its style and its
/// elements are plain.
pub open spec fn plain_paragraph(doc: Document, para: Paragraph) -> bool {
    &&& shortcode_of(para) is None
    &&& plain_text(paragraph_id(para))
    &&& plain_text(style_name(para))
    &&& plain_elements(doc, para.elements@, 0)
}

/// The attributes of a plain paragraph are plain.
pub proof fn lemma_paragraph_attrs_plain(para: Paragraph)
    requires
        plain_text(paragraph_id(para)),
        plain_text(style_name(para)),
    ensures
        plain_attrs(paragraph_attrs(para)),
{
    reveal_strlit("id");
    reveal_strlit("class");
    reveal_strlit("style");
    reveal_strlit("text-align:start;");
    reveal_strlit("text-align:end;");
    reveal_strlit("text-align:center;");
    let attrs = seq![
        ("id"@, paragraph_id(para)),
        ("class"@, paragraph_class(para)),
        ("style"@, paragraph_css(para)),
    ];
    assert(plain_text(paragraph_class(para)));
    assert(plain_text(paragraph_css(para)));
    assert forall|i: int| 0 <= i < attrs.len() implies plain_text(attrs[i].0) && plain_text(
        attrs[i].1,
    ) by {
        if i == 0 {
            assert(attrs[i] == ("id"@, paragraph_id(para)));
        } else if i == 1 {
            assert(attrs[i] == ("class"@, paragraph_class(para)));
        } else {
            assert(attrs[i] == ("style"@, paragraph_css(para)));
        }
    }
    lemma_quoted_attrs_plain(attrs);
}

/// The pieces of a plain paragraph are plain.
pub proof fn lemma_paragraph_pieces(doc: Document, para: Paragraph, indent: Indent)
    requires
        plain_paragraph(doc, para),
    ensures
        paragraph_tokens(doc, para, indent) matches Ok(tokens) ==> pieces_plain(tokens),
{
    let next = crate::gdoc_to_html::next_indent(para, indent);
    lemma_list_plain(indent.depth as nat, next.depth as nat);
    lemma_elements_pieces(doc, para.elements@, 0);
    lemma_paragraph_attrs_plain(para);
    match elements_tokens(doc, para.elements@, 0) {
        Ok(inner) => {
            let open = Token::Open { tag: paragraph_tag(para), attrs: paragraph_attrs(para) };
            let close = Token::Close { tag: paragraph_tag(para) };
            lemma_pieces_two(Token::Break, open);
            lemma_pieces_two(close, Token::Break);
            lemma_pieces_concat(seq![Token::Break, open], inner);
            lemma_pieces_concat(seq![Token::Break, open] + inner, seq![close, Token::Break]);
            let body = seq![Token::Break, open] + inner + seq![close, Token::Break];
            assert(plain_tokens(doc, para) == Ok::<Seq<Token>, RenderError>(body));
            lemma_pieces_concat(list_tokens(indent.depth as nat, next.depth as nat), body);
        },
        Err(_) => {},
    }
}

//-------------------------------------------------------------------------
// Structure

/// A structural element whose paragraphs are all plain.
pub open spec fn plain_structural(doc: Document, element: StructuralElement) -> bool
    decreases element, 0nat,
{
    match element {
        StructuralElement::Paragraph(para) => plain_paragraph(doc, para),
        StructuralElement::Table(table) => plain_rows(doc, table.rows@, 0),
        StructuralElement::TableOfContents(content) => plain_all(doc, content@, 0),
        _ => true,
    }
}

/// Every structural element from position `from` on is plain.
pub open spec fn plain_all(doc: Document, elements: Seq<StructuralElement>, from: int) -> bool
    decreases elements, elements.len() - from,
{
    if from < 0 || from >= elements.len() {
        true
    } else {
        plain_structural(doc, elements[from]) && plain_all(doc, elements, from + 1)
    }
}

/// Every row from position `from` on holds plain cells only.
pub open spec fn plain_rows(doc: Document, rows: Seq<TableRow>, from: int) -> bool
    decreases rows, rows.len() - from,
{
    if from < 0 || from >= rows.len() {
        true
    } else {
        plain_cells(doc, rows[from].cells@, 0) && plain_rows(doc, rows, from + 1)
    }
}

/// Every cell from position `from` on holds plain content only.
pub open spec fn plain_cells(doc: Document, cells: Seq<TableCell>, from: int) -> bool
    decreases cells, cells.len() - from,
{
    if from < 0 || from >= cells.len() {
        true
    } else {
        plain_all(doc, cells[from].content@, 0) && plain_cells(doc, cells, from + 1)
    }
}

/// A document whose title and whose paragraphs are plain.
pub open spec fn plain_document(doc: Document) -> bool {
    plain_option(doc.title) && match doc.body {
        Some(content) => plain_all(doc, content@, 0),
        None => true,
    }
}

/// The attributes of a cell are plain.
pub proof fn lemma_cell_attrs_plain(cell: TableCell)
    ensures
        plain_attrs(cell_attrs(cell)),
{
    reveal_strlit(" colspan='");
    reveal_strlit(" rowspan='");
    let colspan = span_of(cell.column_span);
    let rowspan = span_of(cell.row_span);
    lemma_digits_plain(colspan as nat);
    lemma_digits_plain(rowspan as nat);
    let a = if colspan > 1 {
        " colspan='"@ + digits(colspan as nat) + seq!['\'']
    } else {
        Seq::<char>::empty()
    };
    let b = if rowspan > 1 {
        " rowspan='"@ + digits(rowspan as nat) + seq!['\'']
    } else {
        Seq::<char>::empty()
    };
    if colspan > 1 {
        lemma_plain_concat(" colspan='"@, digits(colspan as nat));
        lemma_plain_concat(" colspan='"@ + digits(colspan as nat), seq!['\'']);
        assert(a[0] == ' ');
    }
    if rowspan > 1 {
        lemma_plain_concat(" rowspan='"@, digits(rowspan as nat));
        lemma_plain_concat(" rowspan='"@ + digits(rowspan as nat), seq!['\'']);
        assert(b[0] == ' ');
    }
    lemma_attrs_concat(a, b);
}

/// A newline written as it stands is plain.
pub proof fn lemma_newline_plain()
    ensures
        token_plain(newline_token()),
{
    lemma_plain_neutral(seq!['\n']);
}

/// The pieces of a plain structural element are plain.
pub proof fn lemma_structural_pieces(doc: Document, element: StructuralElement, indent: Indent)
    requires
        plain_structural(doc, element),
    ensures
        structural_element_tokens(doc, element, indent) matches Ok((tokens, next))
            ==> pieces_plain(tokens),
    decreases element, 0nat,
{
    match element {
        StructuralElement::Paragraph(para) => {
            lemma_paragraph_pieces(doc, para, indent);
        },
        StructuralElement::Table(table) => {
            lemma_table_pieces(doc, table);
        },
        StructuralElement::TableOfContents(content) => {
            lemma_all_pieces(doc, content@, 0, no_indent());
            match structural_from(doc, content@, 0, no_indent()) {
                Ok(tokens) => {
                    reveal_strlit("class");
                    reveal_strlit("table-of-contents");
                    let attrs = seq![("class"@, "table-of-contents"@)];
                    assert forall|i: int| 0 <= i < attrs.len() implies plain_text(attrs[i].0)
                        && plain_text(attrs[i].1) by {
                        assert(attrs[i] == ("class"@, "table-of-contents"@));
                    }
                    lemma_quoted_attrs_plain(attrs);
                    let open = Token::Open { tag: Tag::Div, attrs: quoted_attrs(attrs) };
                    lemma_pieces_one(open);
                    lemma_pieces_two(Token::Close { tag: Tag::Div }, Token::Break);
                    lemma_pieces_concat(seq![open], tokens);
                    lemma_pieces_concat(
                        seq![open] + tokens,
                        seq![Token::Close { tag: Tag::Div }, Token::Break],
                    );
                },
                Err(_) => {},
            }
        },
        _ => {},
    }
}

/// The pieces of plain structural elements are plain.
pub proof fn lemma_all_pieces(
    doc: Document,
    elements: Seq<StructuralElement>,
    from: int,
    indent: Indent,
)
    requires
        0 <= from,
        plain_all(doc, elements, from),
    ensures
        structural_from(doc, elements, from, indent) matches Ok(tokens) ==> pieces_plain(tokens),
    decreases elements, elements.len() - from,
{
    if from >= elements.len() {
        lemma_pieces_two(Token::Close { tag: Tag::Ul }, Token::Break);
        lemma_repeated_plain(list_close(), indent.depth as nat);
    } else {
        lemma_structural_pieces(doc, elements[from], indent);
        match structural_element_tokens(doc, elements[from], indent) {
            Ok((tokens, next)) => {
                lemma_all_pieces(doc, elements, from + 1, next);
                match structural_from(doc, elements, from + 1, next) {
                    Ok(rest) => {
                        lemma_pieces_concat(tokens, rest);
                    },
                    Err(_) => {},
                }
            },
            Err(_) => {},
        }
    }
}

/// The pieces of a cell with plain content are plain.
pub proof fn lemma_cell_pieces(doc: Document, cell: TableCell, col: int, skips: Seq<u64>)
    requires
        plain_all(doc, cell.content@, 0),
    ensures
        cell_tokens(doc, cell, col, skips) matches Ok((tokens, after)) ==> pieces_plain(tokens),
    decreases cell, 0nat,
{
    lemma_all_pieces(doc, cell.content@, 0, no_indent());
    match structural_from(doc, cell.content@, 0, no_indent()) {
        Ok(inner) => {
            lemma_cell_attrs_plain(cell);
            lemma_lines_plain(Tag::Td, cell_attrs(cell));
            lemma_pieces_concat(line_open(Tag::Td, cell_attrs(cell)), inner);
            lemma_pieces_concat(line_open(Tag::Td, cell_attrs(cell)) + inner, line_close(Tag::Td));
        },
        Err(_) => {},
    }
}

/// The pieces of cells with plain content are plain.
#[verifier::rlimit(40)]
pub proof fn lemma_cells_pieces(doc: Document, cells: Seq<TableCell>, col: int, skips: Seq<u64>)
    requires
        0 <= col,
        plain_cells(doc, cells, col),
    ensures
        cells_from(doc, cells, col, skips) matches Ok((tokens, after)) ==> pieces_plain(tokens),
    decreases cells, cells.len() - col,
{
    if col < cells.len() && col < skips.len() {
        if skips[col] > 0 {
            lemma_cells_pieces(doc, cells, col + 1, skips.update(col, (skips[col] - 1) as u64));
        } else {
            lemma_cell_pieces(doc, cells[col], col, skips);
            match cell_tokens(doc, cells[col], col, skips) {
                Ok((tokens, after)) => {
                    lemma_cells_pieces(doc, cells, col + 1, after);
                    match cells_from(doc, cells, col + 1, after) {
                        Ok((rest, last)) => {
                            lemma_pieces_concat(tokens, rest);
                        },
                        Err(_) => {},
                    }
                },
                Err(_) => {},
            }
        }
    }
}

/// The pieces of rows with plain content are plain.
#[verifier::rlimit(40)]
pub proof fn lemma_rows_pieces(doc: Document, rows: Seq<TableRow>, from: int, skips: Seq<u64>)
    requires
        0 <= from,
        plain_rows(doc, rows, from),
    ensures
        rows_from(doc, rows, from, skips) matches Ok(tokens) ==> pieces_plain(tokens),
    decreases rows, rows.len() - from,
{
    if from < rows.len() {
        let cells = rows[from].cells@;
        let start = row_skips(skips, cells.len());
        lemma_cells_pieces(doc, cells, 0, start);
        match cells_from(doc, cells, 0, start) {
            Ok((tokens, after)) => {
                lemma_rows_pieces(doc, rows, from + 1, after);
                lemma_lines_plain(Tag::Tr, Seq::empty());
                lemma_pieces_one(Token::Break);
                let head = line_open(Tag::Tr, Seq::empty());
                lemma_pieces_concat(head, tokens);
                lemma_pieces_concat(head + tokens, seq![Token::Break]);
                lemma_pieces_concat(head + tokens + seq![Token::Break], line_close(Tag::Tr));
                match rows_from(doc, rows, from + 1, after) {
                    Ok(rest) => {
                        lemma_pieces_concat(row_tokens(tokens), rest);
                    },
                    Err(_) => {},
                }
            },
            Err(_) => {},
        }
    }
}

/// An opening tag with plain attributes and a newline, and a closing tag
/// and a newline, are plain.
pub proof fn lemma_lines_plain(tag: Tag, attrs: Seq<char>)
    requires
        plain_attrs(attrs),
    ensures
        pieces_plain(line_open(tag, attrs)),
        pieces_plain(line_close(tag)),
{
    lemma_newline_plain();
    lemma_pieces_two(Token::Open { tag, attrs }, newline_token());
    lemma_pieces_two(Token::Close { tag }, newline_token());
}

/// The pieces of a table with plain content are plain.
pub proof fn lemma_table_pieces(doc: Document, table: Table)
    requires
        plain_rows(doc, table.rows@, 0),
    ensures
        table_tokens(doc, table) matches Ok(tokens) ==> pieces_plain(tokens),
    decreases table, 0nat,
{
    lemma_rows_pieces(doc, table.rows@, 0, Seq::empty());
    match rows_from(doc, table.rows@, 0, Seq::empty()) {
        Ok(rows) => {
            lemma_lines_plain(Tag::Table, Seq::empty());
            lemma_lines_plain(Tag::Tbody, Seq::empty());
            let h1 = line_open(Tag::Table, Seq::empty());
            let h2 = line_open(Tag::Tbody, Seq::empty());
            lemma_pieces_concat(h1, h2);
            lemma_pieces_concat(h1 + h2, rows);
            lemma_pieces_concat(h1 + h2 + rows, line_close(Tag::Tbody));
            lemma_pieces_concat(h1 + h2 + rows + line_close(Tag::Tbody), line_close(Tag::Table));
        },
        Err(_) => {},
    }
}

/// The pieces of a plain document are plain.
#[verifier::rlimit(40)]
pub proof fn lemma_document_pieces(doc: Document)
    requires
        plain_document(doc),
    ensures
        document_tokens(doc) matches Ok(tokens) ==> pieces_plain(tokens),
{
    match doc.body {
        Some(content) => {
            lemma_all_pieces(doc, content@, 0, no_indent());
        },
        None => {},
    }
    match body_tokens(doc) {
        Ok(body) => {
            let open = |tag: Tag| Token::Open { tag, attrs: Seq::empty() };
            let first = seq![open(Tag::Html), Token::Break, open(Tag::Head), Token::Break];
            lemma_pieces_two(open(Tag::Html), Token::Break);
            lemma_pieces_two(open(Tag::Head), Token::Break);
            lemma_pieces_concat(
                seq![open(Tag::Html), Token::Break],
                seq![open(Tag::Head), Token::Break],
            );
            assert(seq![open(Tag::Html), Token::Break] + seq![open(Tag::Head), Token::Break]
                == first);
            let middle = match doc.title {
                Some(title) => seq![
                    open(Tag::Title),
                    Token::Text { chars: title@ },
                    Token::Close { tag: Tag::Title },
                    Token::Break,
                ],
                None => Seq::empty(),
            };
            match doc.title {
                Some(title) => {
                    lemma_plain_neutral(title@);
                    lemma_pieces_two(open(Tag::Title), Token::Text { chars: title@ });
                    lemma_pieces_two(Token::Close { tag: Tag::Title }, Token::Break);
                    lemma_pieces_concat(
                        seq![open(Tag::Title), Token::Text { chars: title@ }],
                        seq![Token::Close { tag: Tag::Title }, Token::Break],
                    );
                    assert(seq![open(Tag::Title), Token::Text { chars: title@ }] + seq![
                        Token::Close { tag: Tag::Title },
                        Token::Break,
                    ] == middle);
                },
                None => {},
            }
            let last = seq![Token::Close { tag: Tag::Head }, Token::Break, open(Tag::Body)];
            lemma_pieces_two(Token::Close { tag: Tag::Head }, Token::Break);
            lemma_pieces_one(open(Tag::Body));
            lemma_pieces_concat(
                seq![Token::Close { tag: Tag::Head }, Token::Break],
                seq![open(Tag::Body)],
            );
            assert(seq![Token::Close { tag: Tag::Head }, Token::Break] + seq![open(Tag::Body)]
                == last);
            lemma_pieces_concat(first, middle);
            lemma_pieces_concat(first + middle, last);
            assert(head_tokens(doc) == first + middle + last);
            let tail = seq![
                Token::Close { tag: Tag::Body },
                Token::Break,
                Token::Close { tag: Tag::Html },
                Token::Break,
            ];
            lemma_pieces_two(Token::Close { tag: Tag::Body }, Token::Break);
            lemma_pieces_two(Token::Close { tag: Tag::Html }, Token::Break);
            lemma_pieces_concat(
                seq![Token::Close { tag: Tag::Body }, Token::Break],
                seq![Token::Close { tag: Tag::Html }, Token::Break],
            );
            assert(seq![Token::Close { tag: Tag::Body }, Token::Break] + seq![
                Token::Close { tag: Tag::Html },
                Token::Break,
            ] == tail);
            lemma_pieces_concat(head_tokens(doc), body);
            lemma_pieces_concat(head_tokens(doc) + body, tail);
        },
        Err(_) => {},
    }
}

/// Tag balance: the page of a plain document, if its tokens are well
/// nested, is balanced.
pub proof fn lemma_plain_document_balanced(doc: Document)
    requires
        plain_document(doc),
        document_tokens(doc) matches Ok(tokens) && well_nested(tokens),
    ensures
        rendered(doc) matches Ok(html) && tag_balanced(html),
{
    lemma_document_pieces(doc);
    lemma_balanced(document_tokens(doc)->Ok_0);
}

} // verus!
