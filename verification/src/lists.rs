//! Documents without bullets write no list.
//!
//! A list is opened only to bring the page to the depth that a bullet asks
//! for, and a list item is the element of a paragraph with a bullet. So a
//! document in which no paragraph has a bullet opens and closes neither.
//! The law speaks of the elements that the renderer writes, not of the
//! characters of the page: a title or a text that is written as it stands
//! may itself hold the characters of a list tag.

use vstd::prelude::*;
use crate::gdoc_to_html::{
    body_tokens, cell_attrs, cell_tokens, cells_from, closes, document_tokens, elements_tokens,
    embedded_object_tokens, find_object, head_tokens, href, line_close, line_open, link_target,
    list_tokens, next_indent, no_indent, opens, paragraph_attrs, paragraph_body_tokens,
    paragraph_element_tokens, paragraph_tag, paragraph_tokens, plain_tokens, quoted_attrs,
    repeated, row_skips, row_tokens, rows_from, run_content, run_style, shortcode_of, span_close,
    span_open, structural_element_tokens, structural_from, table_tokens, text_run_tokens,
    wrapped_tokens, wrapper_tags, Indent,
};
use crate::markup::{Tag, Token};
use crate::model::{
    Document, EmbeddedObject, Paragraph, ParagraphElement, RenderError, StructuralElement, Table,
    TableCell, TableRow, TextRun, TextStyle,
};

verus! {

/// A tag other than those of a list and of a list item.
pub open spec fn list_free_tag(tag: Tag) -> bool {
    tag != Tag::Ul && tag != Tag::Li
}

/// A token that neither opens nor closes a list or a list item.
pub open spec fn list_free_token(t: Token) -> bool {
    match t {
        Token::Open { tag, attrs } => list_free_tag(tag),
        Token::Close { tag } => list_free_tag(tag),
        _ => true,
    }
}

/// Tokens that neither open nor close a list or a list item.
pub open spec fn list_free(tokens: Seq<Token>) -> bool {
    forall|i: int| 0 <= i < tokens.len() ==> list_free_token(#[trigger] tokens[i])
}

/// A structural element in which no paragraph has a bullet.
pub open spec fn unlisted_structural(element: StructuralElement) -> bool
    decreases element, 0nat,
{
    match element {
        StructuralElement::Paragraph(para) => para.bullet is None,
        StructuralElement::Table(table) => unlisted_rows(table.rows@, 0),
        StructuralElement::TableOfContents(content) => unlisted_all(content@, 0),
        _ => true,
    }
}

/// No paragraph of the structural elements from position `from` on has a
/// bullet.
pub open spec fn unlisted_all(elements: Seq<StructuralElement>, from: int) -> bool
    decreases elements, elements.len() - from,
{
    if from < 0 || from >= elements.len() {
        true
    } else {
        unlisted_structural(elements[from]) && unlisted_all(elements, from + 1)
    }
}

/// No paragraph of the rows from position `from` on has a bullet.
pub open spec fn unlisted_rows(rows: Seq<TableRow>, from: int) -> bool
    decreases rows, rows.len() - from,
{
    if from < 0 || from >= rows.len() {
        true
    } else {
        unlisted_cells(rows[from].cells@, 0) && unlisted_rows(rows, from + 1)
    }
}

/// No paragraph of the cells from position `from` on has a bullet.
pub open spec fn unlisted_cells(cells: Seq<TableCell>, from: int) -> bool
    decreases cells, cells.len() - from,
{
    if from < 0 || from >= cells.len() {
        true
    } else {
        unlisted_all(cells[from].content@, 0) && unlisted_cells(cells, from + 1)
    }
}

/// A document in which no paragraph has a bullet, at any depth of its
/// tables and tables of contents.
pub open spec fn unlisted_document(doc: Document) -> bool {
    match doc.body {
        Some(content) => unlisted_all(content@, 0),
        None => true,
    }
}

/// Tokens without lists, one after the other, are without lists.
pub proof fn lemma_free_concat(a: Seq<Token>, b: Seq<Token>)
    requires
        list_free(a),
        list_free(b),
    ensures
        list_free(a + b),
{
    assert forall|i: int| 0 <= i < (a + b).len() implies list_free_token(#[trigger] (a + b)[i]) by {
        if i < a.len() {
            assert((a + b)[i] == a[i]);
        } else {
            assert((a + b)[i] == b[i - a.len()]);
        }
    }
}

/// The elements that wrap a styled run are none of a list.
pub proof fn lemma_wrappers_free(style: TextStyle)
    ensures
        list_free(opens(wrapper_tags(style))),
        list_free(closes(wrapper_tags(style))),
{
    let tags = wrapper_tags(style);
    assert forall|i: int| 0 <= i < tags.len() implies list_free_tag(#[trigger] tags[i]) by {
        let a = if style.bold {
            seq![Tag::Strong]
        } else {
            Seq::<Tag>::empty()
        };
        let b = if style.italic {
            seq![Tag::Em]
        } else {
            Seq::<Tag>::empty()
        };
        let c = if style.strikethrough {
            seq![Tag::Del]
        } else {
            Seq::<Tag>::empty()
        };
        if i < a.len() {
            assert(tags[i] == Tag::Strong);
        } else if i < a.len() + b.len() {
            assert(tags[i] == Tag::Em);
        } else if i < a.len() + b.len() + c.len() {
            assert(tags[i] == Tag::Del);
        } else {
            assert(tags[i] == Tag::Sup || tags[i] == Tag::Sub);
        }
    }
    assert forall|i: int| 0 <= i < opens(tags).len() implies list_free_token(
        #[trigger] opens(tags)[i],
    ) by {
        assert(list_free_tag(tags[i]));
    }
    assert forall|i: int| 0 <= i < closes(tags).len() implies list_free_token(
        #[trigger] closes(tags)[i],
    ) by {
        assert(list_free_tag(tags[tags.len() - 1 - i]));
    }
}

/// A text run writes no list.
pub proof fn lemma_run_free(run: TextRun)
    ensures
        list_free(text_run_tokens(run)),
{
    let content = run_content(run);
    assert(list_free(content));
    match run.style {
        None => {},
        Some(style) => {
            let tags = wrapper_tags(style);
            let css = run_style(style);
            lemma_wrappers_free(style);
            assert(list_free(span_open(css)));
            assert(list_free(span_close(css)));
            lemma_free_concat(opens(tags), span_open(css));
            lemma_free_concat(opens(tags) + span_open(css), content);
            lemma_free_concat(opens(tags) + span_open(css) + content, span_close(css));
            lemma_free_concat(
                opens(tags) + span_open(css) + content + span_close(css),
                closes(tags),
            );
            let inner = wrapped_tokens(tags, css, run);
            assert(list_free(inner));
            match link_target(style.link) {
                Some(url) => {
                    let open = seq![Token::Open { tag: Tag::A, attrs: href(url) }];
                    let close = seq![Token::Close { tag: Tag::A }];
                    assert(list_free(open));
                    assert(list_free(close));
                    lemma_free_concat(open, inner);
                    lemma_free_concat(open + inner, close);
                },
                None => {},
            }
        },
    }
}

/// An embedded object writes no list.
pub proof fn lemma_object_free(id: Seq<char>, object: EmbeddedObject)
    ensures
        embedded_object_tokens(id, object) matches Ok(tokens) ==> list_free(tokens),
{
}

/// An element of a paragraph writes no list.
pub proof fn lemma_element_free(doc: Document, element: ParagraphElement)
    ensures
        paragraph_element_tokens(doc, element) matches Ok(tokens) ==> list_free(tokens),
{
    match element {
        ParagraphElement::TextRun(run) => {
            lemma_run_free(run);
        },
        ParagraphElement::InlineObject(id) => {
            match find_object(doc.inline_objects@, id@, 0) {
                Some(object) => {
                    lemma_object_free(id@, object);
                },
                None => {},
            }
        },
        _ => {},
    }
}

/// The elements of a paragraph write no list.
pub proof fn lemma_elements_free(doc: Document, elements: Seq<ParagraphElement>, from: int)
    requires
        0 <= from,
    ensures
        elements_tokens(doc, elements, from) matches Ok(tokens) ==> list_free(tokens),
    decreases elements.len() - from,
{
    if from < elements.len() {
        lemma_element_free(doc, elements[from]);
        lemma_elements_free(doc, elements, from + 1);
        match (
            paragraph_element_tokens(doc, elements[from]),
            elements_tokens(doc, elements, from + 1),
        ) {
            (Ok(tokens), Ok(rest)) => {
                lemma_free_concat(tokens, rest);
            },
            _ => {},
        }
    }
}

/// A paragraph without a bullet that follows a state without open lists
/// writes no list, and leaves no list open.
pub proof fn lemma_paragraph_free(doc: Document, para: Paragraph, indent: Indent)
    requires
        para.bullet is None,
        indent.depth == 0,
    ensures
        next_indent(para, indent).depth == 0,
        paragraph_tokens(doc, para, indent) matches Ok(tokens) ==> list_free(tokens),
{
    assert(list_tokens(0, 0) == Seq::<Token>::empty()) by {
        reveal_with_fuel(repeated, 1);
    }
    match paragraph_body_tokens(doc, para) {
        Ok(body) => {
            assert(list_free(body)) by {
                match shortcode_of(para) {
                    Some(text) => {},
                    None => {
                        lemma_elements_free(doc, para.elements@, 0);
                        match elements_tokens(doc, para.elements@, 0) {
                            Ok(inner) => {
                                let tag = paragraph_tag(para);
                                assert(list_free_tag(tag));
                                let head = seq![
                                    Token::Break,
                                    Token::Open {
                                        tag,
                                        attrs: paragraph_attrs(para),
                                    },
                                ];
                                let tail = seq![Token::Close { tag }, Token::Break];
                                assert(list_free(head));
                                assert(list_free(tail));
                                lemma_free_concat(head, inner);
                                lemma_free_concat(head + inner, tail);
                                assert(plain_tokens(doc, para) == Ok::<
                                    Seq<Token>,
                                    RenderError,
                                >(head + inner + tail));
                            },
                            Err(_) => {},
                        }
                    },
                }
            }
            lemma_free_concat(Seq::empty(), body);
        },
        Err(_) => {},
    }
}

/// A structural element without bullets that follows a state without open
/// lists writes no list, and leaves no list open.
pub proof fn lemma_structural_free(doc: Document, element: StructuralElement, indent: Indent)
    requires
        unlisted_structural(element),
        indent.depth == 0,
    ensures
        structural_element_tokens(doc, element, indent) matches Ok((tokens, next)) ==> list_free(
            tokens,
        ) && next.depth == 0,
    decreases element, 0nat,
{
    match element {
        StructuralElement::Paragraph(para) => {
            lemma_paragraph_free(doc, para, indent);
        },
        StructuralElement::Table(table) => {
            lemma_table_free(doc, table);
        },
        StructuralElement::TableOfContents(content) => {
            lemma_all_free(doc, content@, 0, no_indent());
            match structural_from(doc, content@, 0, no_indent()) {
                Ok(tokens) => {
                    let open = seq![
                        Token::Open {
                            tag: Tag::Div,
                            attrs: quoted_attrs(
                                seq![("class"@, "table-of-contents"@)],
                            ),
                        },
                    ];
                    let close = seq![Token::Close { tag: Tag::Div }, Token::Break];
                    assert(list_free(open));
                    assert(list_free(close));
                    lemma_free_concat(open, tokens);
                    lemma_free_concat(open + tokens, close);
                },
                Err(_) => {},
            }
        },
        _ => {},
    }
}

/// Structural elements without bullets that follow a state without open
/// lists write no list.
pub proof fn lemma_all_free(
    doc: Document,
    elements: Seq<StructuralElement>,
    from: int,
    indent: Indent,
)
    requires
        0 <= from,
        unlisted_all(elements, from),
        indent.depth == 0,
    ensures
        structural_from(doc, elements, from, indent) matches Ok(tokens) ==> list_free(tokens),
    decreases elements, elements.len() - from,
{
    if from >= elements.len() {
        reveal_with_fuel(repeated, 1);
    } else {
        lemma_structural_free(doc, elements[from], indent);
        match structural_element_tokens(doc, elements[from], indent) {
            Ok((tokens, next)) => {
                lemma_all_free(doc, elements, from + 1, next);
                match structural_from(doc, elements, from + 1, next) {
                    Ok(rest) => {
                        lemma_free_concat(tokens, rest);
                    },
                    Err(_) => {},
                }
            },
            Err(_) => {},
        }
    }
}

/// An opening tag and a newline, and a closing tag and a newline, of an
/// element that is none of a list.
pub proof fn lemma_lines_free(tag: Tag, attrs: Seq<char>)
    requires
        list_free_tag(tag),
    ensures
        list_free(line_open(tag, attrs)),
        list_free(line_close(tag)),
{
}

/// A cell without bullets writes no list.
pub proof fn lemma_cell_free(doc: Document, cell: TableCell, col: int, skips: Seq<u64>)
    requires
        unlisted_all(cell.content@, 0),
    ensures
        cell_tokens(doc, cell, col, skips) matches Ok((tokens, after)) ==> list_free(tokens),
    decreases cell, 0nat,
{
    lemma_all_free(doc, cell.content@, 0, no_indent());
    match structural_from(doc, cell.content@, 0, no_indent()) {
        Ok(inner) => {
            let attrs = cell_attrs(cell);
            lemma_lines_free(Tag::Td, attrs);
            lemma_free_concat(line_open(Tag::Td, attrs), inner);
            lemma_free_concat(line_open(Tag::Td, attrs) + inner, line_close(Tag::Td));
        },
        Err(_) => {},
    }
}

/// Cells without bullets write no list.
pub proof fn lemma_cells_free(doc: Document, cells: Seq<TableCell>, col: int, skips: Seq<u64>)
    requires
        0 <= col,
        unlisted_cells(cells, col),
    ensures
        cells_from(doc, cells, col, skips) matches Ok((tokens, after)) ==> list_free(tokens),
    decreases cells, cells.len() - col,
{
    if col < cells.len() && col < skips.len() {
        if skips[col] > 0 {
            lemma_cells_free(doc, cells, col + 1, skips.update(col, (skips[col] - 1) as u64));
        } else {
            lemma_cell_free(doc, cells[col], col, skips);
            match cell_tokens(doc, cells[col], col, skips) {
                Ok((tokens, after)) => {
                    lemma_cells_free(doc, cells, col + 1, after);
                    match cells_from(doc, cells, col + 1, after) {
                        Ok((rest, last)) => {
                            lemma_free_concat(tokens, rest);
                        },
                        Err(_) => {},
                    }
                },
                Err(_) => {},
            }
        }
    }
}

/// Rows without bullets write no list.
pub proof fn lemma_rows_free(doc: Document, rows: Seq<TableRow>, from: int, skips: Seq<u64>)
    requires
        0 <= from,
        unlisted_rows(rows, from),
    ensures
        rows_from(doc, rows, from, skips) matches Ok(tokens) ==> list_free(tokens),
    decreases rows, rows.len() - from,
{
    if from < rows.len() {
        let cells = rows[from].cells@;
        let start = row_skips(skips, cells.len());
        lemma_cells_free(doc, cells, 0, start);
        match cells_from(doc, cells, 0, start) {
            Ok((tokens, after)) => {
                lemma_rows_free(doc, rows, from + 1, after);
                lemma_lines_free(Tag::Tr, Seq::empty());
                let head = line_open(Tag::Tr, Seq::empty());
                assert(list_free(seq![Token::Break]));
                lemma_free_concat(head, tokens);
                lemma_free_concat(head + tokens, seq![Token::Break]);
                lemma_free_concat(head + tokens + seq![Token::Break], line_close(Tag::Tr));
                match rows_from(doc, rows, from + 1, after) {
                    Ok(rest) => {
                        lemma_free_concat(row_tokens(tokens), rest);
                    },
                    Err(_) => {},
                }
            },
            Err(_) => {},
        }
    }
}

/// A table without bullets writes no list.
pub proof fn lemma_table_free(doc: Document, table: Table)
    requires
        unlisted_rows(table.rows@, 0),
    ensures
        table_tokens(doc, table) matches Ok(tokens) ==> list_free(tokens),
    decreases table, 0nat,
{
    lemma_rows_free(doc, table.rows@, 0, Seq::empty());
    match rows_from(doc, table.rows@, 0, Seq::empty()) {
        Ok(rows) => {
            lemma_lines_free(Tag::Table, Seq::empty());
            lemma_lines_free(Tag::Tbody, Seq::empty());
            let h1 = line_open(Tag::Table, Seq::empty());
            let h2 = line_open(Tag::Tbody, Seq::empty());
            lemma_free_concat(h1, h2);
            lemma_free_concat(h1 + h2, rows);
            lemma_free_concat(h1 + h2 + rows, line_close(Tag::Tbody));
            lemma_free_concat(h1 + h2 + rows + line_close(Tag::Tbody), line_close(Tag::Table));
        },
        Err(_) => {},
    }
}

/// A document in which no paragraph has a bullet, where it can be
/// rendered, opens and closes no list and no list item.
pub proof fn lemma_no_bullet_no_list(doc: Document)
    requires
        unlisted_document(doc),
    ensures
        document_tokens(doc) matches Ok(tokens) ==> list_free(tokens),
{
    match doc.body {
        Some(content) => {
            lemma_all_free(doc, content@, 0, no_indent());
        },
        None => {},
    }
    match body_tokens(doc) {
        Ok(body) => {
            let head = head_tokens(doc);
            let a = seq![
                Token::Open { tag: Tag::Html, attrs: Seq::empty() },
                Token::Break,
                Token::Open { tag: Tag::Head, attrs: Seq::empty() },
                Token::Break,
            ];
            let b = match doc.title {
                Some(title) => seq![
                    Token::Open { tag: Tag::Title, attrs: Seq::empty() },
                    Token::Text { chars: title@ },
                    Token::Close { tag: Tag::Title },
                    Token::Break,
                ],
                None => Seq::empty(),
            };
            let c = seq![
                Token::Close { tag: Tag::Head },
                Token::Break,
                Token::Open { tag: Tag::Body, attrs: Seq::empty() },
            ];
            let foot = seq![
                Token::Close { tag: Tag::Body },
                Token::Break,
                Token::Close { tag: Tag::Html },
                Token::Break,
            ];
            assert(list_free(a));
            assert(list_free(b));
            assert(list_free(c));
            assert(list_free(foot));
            lemma_free_concat(a, b);
            lemma_free_concat(a + b, c);
            assert(head == a + b + c);
            lemma_free_concat(head, body);
            lemma_free_concat(head + body, foot);
        },
        Err(_) => {},
    }
}

} // verus!
