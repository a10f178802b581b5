//! The data model: text elements, parsed elements, document nodes and the
//! document graph.
//!
//! Font sizes are held in thousandths of a point; coordinates as in
//! `geometry`.
use vstd::prelude::*;
use crate::geometry::BoundingBox;
use crate::text::{contains_seq, lower_seq, trim_spec, trim_text, contains_text_folded};

verus! {

/// A font size of one point, in the units that font sizes are held in.
pub const POINT: u32 = 1000;

/// The version stamped on every serialized graph.
pub const SCHEMA_VERSION: &'static str = "0.2.0";

/// One resolved font class of the style table.
#[derive(Debug, Clone)]
pub struct FontClass {
    pub class_name: String,
    pub font_family: String,
    /// Thousandths of a point.
    pub font_size: u32,
    pub font_style: String,
    pub font_weight: String,
    pub color: String,
}

/// The weight names bold (ASCII case ignored).
pub open spec fn spec_is_bold(f: FontClass) -> bool {
    contains_seq(lower_seq(f.font_weight@), "bold"@)
}

/// The style names italic (ASCII case ignored).
pub open spec fn spec_is_italic(f: FontClass) -> bool {
    contains_seq(lower_seq(f.font_style@), "italic"@)
}

impl FontClass {
    pub fn is_bold(&self) -> (r: bool)
        ensures
            r == spec_is_bold(*self),
    {
        contains_text_folded(self.font_weight.as_str(), "bold")
    }

    pub fn is_italic(&self) -> (r: bool)
        ensures
            r == spec_is_italic(*self),
    {
        contains_text_folded(self.font_style.as_str(), "italic")
    }

    /// A field-by-field copy.
    pub fn copied(&self) -> (r: FontClass)
        ensures
            r == *self,
    {
        FontClass {
            class_name: self.class_name.clone(),
            font_family: self.font_family.clone(),
            font_size: self.font_size,
            font_style: self.font_style.clone(),
            font_weight: self.font_weight.clone(),
            color: self.color.clone(),
        }
    }
}

/// An author-provided outline entry.
#[derive(Debug, Clone)]
pub struct BookmarkSection {
    pub title: String,
    pub order: u32,
}

impl BookmarkSection {
    pub fn copied(&self) -> (r: BookmarkSection)
        ensures
            r == *self,
    {
        BookmarkSection { title: self.title.clone(), order: self.order }
    }
}

pub fn copy_bookmark(b: &Option<BookmarkSection>) -> (r: Option<BookmarkSection>)
    ensures
        r == *b,
{
    match b {
        Some(s) => Some(s.copied()),
        None => None,
    }
}

/// The outline of a document.
#[derive(Debug, Clone)]
pub struct BookmarkData {
    pub sections: Vec<BookmarkSection>,
}

/// One typographically homogeneous run of text, as extracted.
#[derive(Debug, Clone)]
pub struct PdfTextElement {
    pub text: String,
    pub style_info: FontClass,
    pub bounding_box: BoundingBox,
    /// 1-indexed.
    pub page_number: u32,
    pub paragraph_number: u32,
    pub line_number: u32,
    pub segment_number: u32,
    pub reading_order: u32,
    pub bookmark_match: Option<BookmarkSection>,
    pub token_count: usize,
}

impl PdfTextElement {
    pub fn copied_element(&self) -> (r: PdfTextElement)
        ensures
            r == *self,
    {
        PdfTextElement {
            text: self.text.clone(),
            style_info: self.style_info.copied(),
            bounding_box: self.bounding_box,
            page_number: self.page_number,
            paragraph_number: self.paragraph_number,
            line_number: self.line_number,
            segment_number: self.segment_number,
            reading_order: self.reading_order,
            bookmark_match: copy_bookmark(&self.bookmark_match),
            token_count: self.token_count,
        }
    }
}

/// The kind a rule pass assigns to an element.
#[derive(Debug, Clone, Copy, PartialEq, Eq, Structural)]
pub enum ParsedElementType {
    Section,
    Paragraph,
    List,
    ListItem,
}

/// The working unit of the rule passes.
#[derive(Debug, Clone)]
pub struct ParsedPdfElement {
    pub element_type: ParsedElementType,
    pub text: String,
    pub hierarchy_level: u32,
    pub position: usize,
    pub style_info: FontClass,
    pub bounding_box: BoundingBox,
    pub page_number: u32,
    pub paragraph_number: u32,
    pub reading_order: u32,
    pub bookmark_match: Option<BookmarkSection>,
    pub token_count: usize,
}

impl ParsedPdfElement {
    pub fn copied(&self) -> (r: ParsedPdfElement)
        ensures
            r == *self,
    {
        ParsedPdfElement {
            element_type: self.element_type,
            text: self.text.clone(),
            hierarchy_level: self.hierarchy_level,
            position: self.position,
            style_info: self.style_info.copied(),
            bounding_box: self.bounding_box,
            page_number: self.page_number,
            paragraph_number: self.paragraph_number,
            reading_order: self.reading_order,
            bookmark_match: copy_bookmark(&self.bookmark_match),
            token_count: self.token_count,
        }
    }
}

/// A copy of every element, in order.
pub fn copy_elements(v: &Vec<ParsedPdfElement>) -> (r: Vec<ParsedPdfElement>)
    ensures
        r@ == v@,
{
    let mut out: Vec<ParsedPdfElement> = Vec::new();
    let mut i: usize = 0;
    while i < v.len()
        invariant
            i <= v@.len(),
            out@ == v@.subrange(0, i as int),
        decreases v@.len() - i,
    {
        out.push(v[i].copied());
        assert(out@ =~= v@.subrange(0, i + 1));
        i = i + 1;
    }
    assert(out@ =~= v@);
    out
}

/// Source metadata of a document.
#[derive(Debug, Clone, Default)]
pub struct DocumentMetadata {
    pub title: Option<String>,
    pub author: Option<String>,
    pub language: Option<String>,
    pub page_count: u32,
    pub publisher: Option<String>,
    pub creator_tool: Option<String>,
    pub producer: Option<String>,
    pub pdf_version: Option<String>,
    pub created: Option<String>,
    pub modified: Option<String>,
    pub description: Option<String>,
    pub encrypted: Option<bool>,
    pub has_marked_content: Option<bool>,
}

/// `new` where it is present, else `cur`.
pub open spec fn overlay<T>(cur: Option<T>, new: Option<T>) -> Option<T> {
    if new is Some {
        new
    } else {
        cur
    }
}

impl DocumentMetadata {
    /// Metadata with every field absent.
    pub fn empty() -> (r: DocumentMetadata)
        ensures
            r.title is None && r.author is None && r.language is None && r.page_count == 0,
            r.publisher is None && r.creator_tool is None && r.producer is None,
            r.pdf_version is None && r.created is None && r.modified is None,
            r.description is None && r.encrypted is None && r.has_marked_content is None,
    {
        DocumentMetadata {
            title: None,
            author: None,
            language: None,
            page_count: 0,
            publisher: None,
            creator_tool: None,
            producer: None,
            pdf_version: None,
            created: None,
            modified: None,
            description: None,
            encrypted: None,
            has_marked_content: None,
        }
    }

    /// Fields present in `extracted` overwrite; absent ones keep the current
    /// value; `page_count` overwrites when positive.
    pub fn merge_extracted(&mut self, extracted: DocumentMetadata)
        ensures
            final(self).title == overlay(old(self).title, extracted.title),
            final(self).author == overlay(old(self).author, extracted.author),
            final(self).language == overlay(old(self).language, extracted.language),
            final(self).page_count == if extracted.page_count > 0 {
                extracted.page_count
            } else {
                old(self).page_count
            },
            final(self).publisher == overlay(old(self).publisher, extracted.publisher),
            final(self).creator_tool == overlay(old(self).creator_tool, extracted.creator_tool),
            final(self).producer == overlay(old(self).producer, extracted.producer),
            final(self).pdf_version == overlay(old(self).pdf_version, extracted.pdf_version),
            final(self).created == overlay(old(self).created, extracted.created),
            final(self).modified == overlay(old(self).modified, extracted.modified),
            final(self).description == overlay(old(self).description, extracted.description),
            final(self).encrypted == overlay(old(self).encrypted, extracted.encrypted),
            final(self).has_marked_content == overlay(
                old(self).has_marked_content,
                extracted.has_marked_content,
            ),
    {
        if extracted.title.is_some() {
            self.title = extracted.title;
        }
        if extracted.author.is_some() {
            self.author = extracted.author;
        }
        if extracted.language.is_some() {
            self.language = extracted.language;
        }
        if extracted.page_count > 0 {
            self.page_count = extracted.page_count;
        }
        if extracted.publisher.is_some() {
            self.publisher = extracted.publisher;
        }
        if extracted.creator_tool.is_some() {
            self.creator_tool = extracted.creator_tool;
        }
        if extracted.producer.is_some() {
            self.producer = extracted.producer;
        }
        if extracted.pdf_version.is_some() {
            self.pdf_version = extracted.pdf_version;
        }
        if extracted.created.is_some() {
            self.created = extracted.created;
        }
        if extracted.modified.is_some() {
            self.modified = extracted.modified;
        }
        if extracted.description.is_some() {
            self.description = extracted.description;
        }
        if extracted.encrypted.is_some() {
            self.encrypted = extracted.encrypted;
        }
        if extracted.has_marked_content.is_some() {
            self.has_marked_content = extracted.has_marked_content;
        }
    }
}

/// The type of a node of the document graph.
#[derive(Debug, Clone, Copy, PartialEq, Eq, Structural)]
pub enum NodeType {
    Document,
    Section,
    Paragraph,
    List,
    ListItem,
}

impl NodeType {
    /// The name under which the type is serialized.
    pub fn as_str(&self) -> &'static str {
        match self {
            NodeType::Document => "Document",
            NodeType::Section => "Section",
            NodeType::Paragraph => "Paragraph",
            NodeType::List => "List",
            NodeType::ListItem => "ListItem",
        }
    }
}

/// The node type that an element of the given kind becomes.
pub open spec fn node_type_of(t: ParsedElementType) -> NodeType {
    match t {
        ParsedElementType::Section => NodeType::Section,
        ParsedElementType::Paragraph => NodeType::Paragraph,
        ParsedElementType::List => NodeType::List,
        ParsedElementType::ListItem => NodeType::ListItem,
    }
}

pub fn node_type_for(t: ParsedElementType) -> (r: NodeType)
    ensures
        r == node_type_of(t),
{
    match t {
        ParsedElementType::Section => NodeType::Section,
        ParsedElementType::Paragraph => NodeType::Paragraph,
        ParsedElementType::List => NodeType::List,
        ParsedElementType::ListItem => NodeType::ListItem,
    }
}

/// Position of a node in the tree.
#[derive(Debug, Clone)]
pub struct SemanticLocation {
    /// Dotted child indices from the root, e.g. "2.3.1"; empty for the root.
    pub path: String,
    /// 0 for the root.
    pub depth: u32,
    /// Titles of the enclosing sections, outermost first.
    pub breadcrumbs: Vec<String>,
}

/// Position of a node on the page.
#[derive(Debug, Clone, Copy, PartialEq, Eq, Structural)]
pub struct PhysicalLocation {
    pub page: u32,
    pub bounding_box: BoundingBox,
}

#[derive(Debug, Clone)]
pub struct NodeLocation {
    pub semantic: SemanticLocation,
    pub physical: Option<PhysicalLocation>,
}

#[derive(Debug, Clone)]
pub struct NodeContent {
    pub text: String,
}

impl NodeContent {
    /// Content holding `text` without surrounding whitespace.
    pub fn new(text: String) -> (r: NodeContent)
        ensures
            r.text@ == trim_spec(text@),
    {
        NodeContent { text: trim_text(text.as_str()) }
    }
}

/// Style of the element a node was made from.
#[derive(Debug, Clone)]
pub struct StyleMetadata {
    pub font_class: String,
    /// Thousandths of a point.
    pub font_size: Option<u32>,
    pub is_bold: bool,
    pub is_italic: bool,
    pub font_family: Option<String>,
    pub color: Option<String>,
}

/// The style metadata recorded for a font class.
pub open spec fn style_of(f: FontClass) -> StyleMetadata {
    StyleMetadata {
        font_class: f.class_name,
        font_size: Some(f.font_size),
        is_bold: spec_is_bold(f),
        is_italic: spec_is_italic(f),
        font_family: Some(f.font_family),
        color: Some(f.color),
    }
}

pub fn style_metadata_of(f: &FontClass) -> (r: StyleMetadata)
    ensures
        r == style_of(*f),
{
    StyleMetadata {
        font_class: f.class_name.clone(),
        font_size: Some(f.font_size),
        is_bold: f.is_bold(),
        is_italic: f.is_italic(),
        font_family: Some(f.font_family.clone()),
        color: Some(f.color.clone()),
    }
}

/// A vertex of the document graph. Its id is its index in the graph's node
/// list.
#[derive(Debug, Clone)]
pub struct DocumentNode {
    pub id: usize,
    pub node_type: NodeType,
    pub location: NodeLocation,
    pub text_order: Option<usize>,
    pub content: NodeContent,
    pub style_info: Option<StyleMetadata>,
    pub token_count: usize,
    pub parent: Option<usize>,
    pub children: Vec<usize>,
}

/// Document-level classification.
#[derive(Debug, Clone, Copy, PartialEq, Eq, Structural)]
pub enum DocumentType {
    LegalContract,
    AcademicPaper,
    TechnicalManual,
    BusinessReport,
    Generic,
    Unknown,
}

/// Whether physical locations are meaningful.
#[derive(Debug, Clone, Copy, PartialEq, Eq, Structural)]
pub enum FlowType {
    Fixed,
    Free,
}

/// Output of a classifier.
#[derive(Debug, Clone, Copy)]
pub struct ClassificationResult {
    pub document_type: DocumentType,
    /// Thousandths.
    pub confidence: u32,
}

/// A flat list of the node texts in text order.
#[derive(Debug, Clone)]
pub struct FlatDocument {
    pub format: String,
    pub chunks: Vec<String>,
}

} // verus!
