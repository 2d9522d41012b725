//! The parts of an FB2 document that the section scanner reads: bodies,
//! nested sections, their titles, paragraphs, citations and poems, and the
//! inline markup of paragraphs.
use vstd::prelude::*;

verus! {

/// Inline content of a hyperlink: nested styling, an image, or text.
pub enum LinkNode {
    /// Any styled span (strong, emphasis, style, strikethrough, sub- and
    /// superscript, code) around further link content.
    Styled(Vec<LinkNode>),
    Image,
    Text(String),
}

/// Inline markup of a paragraph.
pub enum StyleNode {
    Text(String),
    Strong(Vec<StyleNode>),
    Emphasis(Vec<StyleNode>),
    Strikethrough(Vec<StyleNode>),
    Code(Vec<StyleNode>),
    Subscript(Vec<StyleNode>),
    Superscript(Vec<StyleNode>),
    /// A named style span.
    Style(Vec<StyleNode>),
    Link(Vec<LinkNode>),
    Image,
}

/// A paragraph: a sequence of inline elements.
pub struct Paragraph {
    pub elements: Vec<StyleNode>,
}

pub enum TitleElement {
    Paragraph(Paragraph),
    EmptyLine,
}

/// The title of a section.
pub struct Title {
    pub elements: Vec<TitleElement>,
}

pub enum PoemStanza {
    Subtitle(Paragraph),
    /// A stanza, given by its verse lines.
    Stanza(Vec<Paragraph>),
}

pub struct Poem {
    pub stanzas: Vec<PoemStanza>,
}

pub enum CiteElement {
    Paragraph(Paragraph),
    Subtitle(Paragraph),
    Poem(Poem),
    Table,
    EmptyLine,
}

/// A citation block.
pub struct Cite {
    pub elements: Vec<CiteElement>,
}

/// A block of section content.
pub enum SectionPart {
    Paragraph(Paragraph),
    Subtitle(Paragraph),
    Cite(Cite),
    Poem(Poem),
    Image,
    Table,
    EmptyLine,
}

/// The content of a section: its title, its own blocks, and its subsections.
pub struct SectionContent {
    pub title: Option<Title>,
    pub parts: Vec<SectionPart>,
    pub sections: Vec<BookSection>,
}

/// A section of an FB2 body; a section without content is empty.
pub struct BookSection {
    pub content: Option<SectionContent>,
}

/// A body of the book; named bodies hold notes and comments.
pub struct Body {
    pub name: Option<String>,
    pub sections: Vec<BookSection>,
}

/// An FB2 document, as far as the scanner reads it.
pub struct Book {
    pub bodies: Vec<Body>,
}

} // verus!
