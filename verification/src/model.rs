//! The document model: a read-only, semantic view of a word-processor
//! document.
//!
//! Every union of the source format is a tagged variant here. Lengths,
//! angles, crop fractions and colour channels are integers in millionths of
//! their unit (points, radians, the whole), so that `1_000_000` stands for
//! one point, one radian, or a fully saturated channel.

use vstd::prelude::*;
use crate::text::{push_str, str_eq, to_text};

verus! {

/// The root of a document.
#[derive(Debug)]
pub struct Document {
    /// The title shown in the page head.
    pub title: Option<String>,
    /// The structural elements of the body.
    pub body: Option<Vec<StructuralElement>>,
    /// The embedded objects that paragraphs refer to, each under its id.
    pub inline_objects: Vec<InlineObject>,
}

/// An embedded object under the id by which paragraphs refer to it.
#[derive(Clone, Debug)]
pub struct InlineObject {
    pub id: String,
    pub object: EmbeddedObject,
}

/// A top-level content unit.
#[derive(Debug)]
pub enum StructuralElement {
    Paragraph(Paragraph),
    Table(Table),
    SectionBreak,
    TableOfContents(Vec<StructuralElement>),
    /// A unit of a kind this model does not know.
    Unrecognized,
}

/// A range of content that ends with a newline.
#[derive(Clone, Debug)]
pub struct Paragraph {
    /// Present when the paragraph is a list item.
    pub bullet: Option<Bullet>,
    pub style: Option<ParagraphStyle>,
    pub elements: Vec<ParagraphElement>,
}

/// The list membership of a paragraph.
#[derive(Clone, Copy, Debug)]
pub struct Bullet {
    /// Depth of the item, counted from zero; absent means zero.
    pub nesting_level: Option<u32>,
}

/// The style of a paragraph.
#[derive(Clone, Debug)]
pub struct ParagraphStyle {
    /// `NORMAL_TEXT`, `HEADING_1` to `HEADING_4`, `TITLE`, `SUBTITLE`, or another name.
    pub named_style_type: Option<String>,
    /// `START`, `CENTER`, `END`, `JUSTIFIED`, or another name.
    pub alignment: Option<String>,
    /// Magnitude of the start indent, in millionths of a point.
    pub indent_start: Option<i64>,
    /// Anchor id of a heading.
    pub heading_id: Option<String>,
}

/// A unit within the text flow of a paragraph.
#[derive(Clone, Debug)]
pub enum ParagraphElement {
    TextRun(TextRun),
    AutoText,
    PageBreak,
    ColumnBreak,
    FootnoteReference,
    HorizontalRule,
    Equation,
    /// Reference to an embedded object, by id.
    InlineObject(String),
    /// Mention of a person, with the display name where there is one.
    Person(Option<String>),
    RichLink,
    /// A unit of a kind this model does not know.
    Unrecognized,
}

/// A run of text with one style.
#[derive(Clone, Debug)]
pub struct TextRun {
    pub content: Option<String>,
    pub style: Option<TextStyle>,
}

/// The vertical placement of a text run.
#[derive(Clone, Copy, Debug, PartialEq, Eq, Structural)]
pub enum BaselineOffset {
    /// On the baseline, or as the surrounding text.
    Baseline,
    Superscript,
    Subscript,
}

impl BaselineOffset {
    /// The placement that a name of the source format stands for:
    /// `SUPERSCRIPT`, `SUBSCRIPT`, or anything else for the baseline.
    pub fn from_name(name: &str) -> (r: BaselineOffset)
        ensures
            r == if name@ == "SUPERSCRIPT"@ {
                BaselineOffset::Superscript
            } else if name@ == "SUBSCRIPT"@ {
                BaselineOffset::Subscript
            } else {
                BaselineOffset::Baseline
            },
    {
        if str_eq(name, "SUPERSCRIPT") {
            BaselineOffset::Superscript
        } else if str_eq(name, "SUBSCRIPT") {
            BaselineOffset::Subscript
        } else {
            BaselineOffset::Baseline
        }
    }
}

/// The style of a text run.
#[derive(Clone, Debug)]
pub struct TextStyle {
    pub bold: bool,
    pub italic: bool,
    pub strikethrough: bool,
    pub underline: bool,
    pub small_caps: bool,
    pub baseline_offset: BaselineOffset,
    pub foreground: Option<Color>,
    pub background: Option<Color>,
    pub link: Option<Link>,
}

/// An RGB colour; each channel is a fraction in millionths, and may be missing.
#[derive(Clone, Copy, Debug)]
pub struct Color {
    pub red: Option<i32>,
    pub green: Option<i32>,
    pub blue: Option<i32>,
}

/// The target of a link.
#[derive(Clone, Debug)]
pub struct Link {
    pub url: Option<String>,
    pub heading_id: Option<String>,
    pub bookmark_id: Option<String>,
}

/// A length with its unit.
#[derive(Clone, Debug)]
pub struct Dimension {
    /// In millionths of the unit.
    pub magnitude: i64,
    pub unit: String,
}

/// The metadata of an embedded image or drawing.
#[derive(Clone, Debug)]
pub struct EmbeddedObject {
    pub width: Dimension,
    pub height: Dimension,
    /// Present for an image, absent for a drawing.
    pub image: Option<ImageProperties>,
}

/// The properties of an embedded image.
#[derive(Clone, Debug)]
pub struct ImageProperties {
    pub content_uri: String,
    /// Clockwise rotation, in millionths of a radian.
    pub angle: Option<i64>,
    pub crop: Option<CropProperties>,
}

/// The crop box of an image: the fraction of the full image hidden on each
/// side, in millionths, and the rotation of the crop box.
#[derive(Clone, Copy, Debug)]
pub struct CropProperties {
    pub offset_top: i32,
    pub offset_bottom: i32,
    pub offset_left: i32,
    pub offset_right: i32,
    pub angle: Option<i64>,
}

/// A table.
#[derive(Debug)]
pub struct Table {
    pub rows: Vec<TableRow>,
}

/// A row of a table. Cells covered by a merged neighbour are still present.
#[derive(Debug)]
pub struct TableRow {
    pub cells: Vec<TableCell>,
}

/// A cell of a table.
#[derive(Debug)]
pub struct TableCell {
    pub column_span: Option<u32>,
    pub row_span: Option<u32>,
    pub content: Vec<StructuralElement>,
}

/// The kind of a construct that the renderer refuses.
#[derive(Clone, Copy, Debug, PartialEq, Eq, Structural)]
pub enum ElementKind {
    AutoText,
    ColumnBreak,
    Equation,
    RichLink,
    ParagraphElement,
    StructuralElement,
}

/// Why a document could not be rendered.
#[derive(Clone, Debug, PartialEq, Eq)]
pub enum RenderError {
    /// The document holds a construct that is not supported.
    Unsupported(ElementKind),
    /// A paragraph refers to an embedded object that the document lacks.
    DanglingReference,
    /// A dimension has this unit, which is not `PT`.
    UnsupportedUnit(String),
    /// An inline attribute list has no closing brace.
    MalformedAttributeList,
    /// A table row has more cells than the first row, or a column span
    /// reaches past the last column.
    MalformedTable,
    /// The crop offsets of two opposite sides hide the whole image.
    DegenerateCrop,
}

impl RenderError {
    /// The description of the error.
    pub open spec fn text(self) -> Seq<char> {
        match self {
            RenderError::Unsupported(ElementKind::AutoText) => "Unsupported element: auto text"@,
            RenderError::Unsupported(ElementKind::ColumnBreak) => "Unsupported element: column break"@,
            RenderError::Unsupported(ElementKind::Equation) => "Unsupported element: equation"@,
            RenderError::Unsupported(ElementKind::RichLink) => "Unsupported element: rich link"@,
            RenderError::Unsupported(ElementKind::ParagraphElement) => "Unknown paragraph element"@,
            RenderError::Unsupported(ElementKind::StructuralElement) => "Unknown structural element type"@,
            RenderError::DanglingReference => "Reference to an inline object that is not in the document"@,
            RenderError::UnsupportedUnit(unit) => "Unknown unit "@ + unit@,
            RenderError::MalformedAttributeList => "Missing closing '}'"@,
            RenderError::MalformedTable => "Malformed table"@,
            RenderError::DegenerateCrop => "Crop offsets hide the whole image"@,
        }
    }

    /// A description of the error for the user.
    pub fn message(&self) -> (s: String)
        ensures
            s@ == self.text(),
    {
        let mut out: Vec<char> = Vec::new();
        match self {
            RenderError::Unsupported(ElementKind::AutoText) => {
                push_str(&mut out, "Unsupported element: auto text");
            },
            RenderError::Unsupported(ElementKind::ColumnBreak) => {
                push_str(&mut out, "Unsupported element: column break");
            },
            RenderError::Unsupported(ElementKind::Equation) => {
                push_str(&mut out, "Unsupported element: equation");
            },
            RenderError::Unsupported(ElementKind::RichLink) => {
                push_str(&mut out, "Unsupported element: rich link");
            },
            RenderError::Unsupported(ElementKind::ParagraphElement) => {
                push_str(&mut out, "Unknown paragraph element");
            },
            RenderError::Unsupported(ElementKind::StructuralElement) => {
                push_str(&mut out, "Unknown structural element type");
            },
            RenderError::DanglingReference => {
                push_str(&mut out, "Reference to an inline object that is not in the document");
            },
            RenderError::UnsupportedUnit(unit) => {
                push_str(&mut out, "Unknown unit ");
                push_str(&mut out, unit.as_str());
            },
            RenderError::MalformedAttributeList => {
                push_str(&mut out, "Missing closing '}'");
            },
            RenderError::MalformedTable => {
                push_str(&mut out, "Malformed table");
            },
            RenderError::DegenerateCrop => {
                push_str(&mut out, "Crop offsets hide the whole image");
            },
        }
        to_text(&out)
    }
}

/// Exactly one field of a union is present, the one at position `i`.
pub open spec fn sole_at(present: Seq<bool>, i: int) -> bool {
    0 <= i < present.len() && present[i] && forall|j: int|
        0 <= j < present.len() && j != i ==> !present[j]
}

/// The position of the one field of a union that is present. A union of
/// which no field is present, or more than one, has no such position.
pub fn sole_variant(present: &Vec<bool>) -> (r: Option<usize>)
    ensures
        match r {
            Some(i) => sole_at(present@, i as int),
            None => forall|i: int| !sole_at(present@, i),
        },
{
    let mut found: Option<usize> = None;
    let mut i: usize = 0;
    while i < present.len()
        invariant
            i <= present.len(),
            match found {
                Some(k) => k < i && present@[k as int] && forall|j: int|
                    0 <= j < i && j != k ==> !present@[j],
                None => forall|j: int| 0 <= j < i ==> !present@[j],
            },
        decreases present.len() - i,
    {
        if present[i] {
            match found {
                Some(k) => {
                    assert forall|c: int| !sole_at(present@, c) by {
                        if sole_at(present@, c) {
                            if c == k as int {
                                assert(!present@[i as int]);
                            } else {
                                assert(!present@[k as int]);
                            }
                        }
                    }
                    return None;
                },
                None => {
                    found = Some(i);
                },
            }
        }
        i += 1;
    }
    found
}

} // verus!
