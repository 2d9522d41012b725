//! Reading an FB2 document: `quick-xml`'s deserializer fills `fb2`'s types,
//! which are then carried over, variant by variant, into the book model.
use vstd::prelude::*;
use super::book::{
    Body, Book, BookSection, Cite, CiteElement, LinkNode, Paragraph, Poem, PoemStanza,
    SectionContent, SectionPart, StyleNode, Title, TitleElement,
};

use fb2::{
    Section as Fb2Section, SectionPart as Fb2SectionPart, Cite as Fb2Cite, Poem as Fb2Poem,
    Title as Fb2Title, Paragraph as Fb2Paragraph, StyleElement as Markup,
};

verus! {

#[verifier::external_type_specification]
#[verifier::external_body]
pub struct ExFictionBook(fb2::FictionBook);

#[verifier::external_type_specification]
#[verifier::external_body]
pub struct ExFb2Section(Fb2Section);

#[verifier::external_type_specification]
#[verifier::external_body]
pub struct ExFb2SectionPart(Fb2SectionPart);

#[verifier::external_type_specification]
#[verifier::external_body]
pub struct ExFb2Cite(Fb2Cite);

#[verifier::external_type_specification]
#[verifier::external_body]
pub struct ExFb2Poem(Fb2Poem);

#[verifier::external_type_specification]
#[verifier::external_body]
pub struct ExFb2Title(Fb2Title);

#[verifier::external_type_specification]
#[verifier::external_body]
pub struct ExFb2Paragraph(Fb2Paragraph);

#[verifier::external_type_specification]
#[verifier::external_body]
pub struct ExFb2StyleElement(fb2::StyleElement);

#[verifier::external_type_specification]
#[verifier::external_body]
pub struct ExFb2StyleLinkElement(fb2::StyleLinkElement);

/// The book that `quick_xml::de::from_str` reads from an FB2 document into
/// `fb2::FictionBook`, carried over into the book model; `None` when the
/// deserializer reports an error.
pub uninterp spec fn parsed_fb2(xml: Seq<char>) -> Option<Book>;

/// `quick_xml::de::from_str::<fb2::FictionBook>`, with the result carried
/// over into the book model. The deserializer is a function of the text, so
/// the result is named by `parsed_fb2`.
#[verifier::external_body]
pub(crate) fn parse_fb2(xml: &str) -> (r: Option<Book>)
    ensures
        r == parsed_fb2(xml@),
{
    match quick_xml::de::from_str::<fb2::FictionBook>(xml) {
        Ok(book) => Some(lift_book(&book)),
        Err(_) => None,
    }
}

/// Carries link content over: styling kept as nesting, images as markers.
#[verifier::external_body]
fn lift_link_element(element: &fb2::StyleLinkElement) -> LinkNode {
    match element {
        fb2::StyleLinkElement::Strong { elements }
        | fb2::StyleLinkElement::Emphasis { elements }
        | fb2::StyleLinkElement::Style { elements }
        | fb2::StyleLinkElement::Strikethrough { elements }
        | fb2::StyleLinkElement::Subscript { elements }
        | fb2::StyleLinkElement::Superscript { elements }
        | fb2::StyleLinkElement::Code { elements } => LinkNode::Styled(lift_link_elements(elements)),
        fb2::StyleLinkElement::Image(_) => LinkNode::Image,
        fb2::StyleLinkElement::Text(t) => LinkNode::Text(t.clone()),
    }
}

#[verifier::external_body]
fn lift_link_elements(elements: &[fb2::StyleLinkElement]) -> Vec<LinkNode> {
    elements.iter().map(lift_link_element).collect()
}

/// Carries inline markup over, one variant for one variant.
#[verifier::external_body]
fn lift_style_element(element: &fb2::StyleElement) -> StyleNode {
    match element {
        Markup::Text(t) => StyleNode::Text(t.clone()),
        Markup::Strong(s) => StyleNode::Strong(lift_style_elements(&s.elements)),
        Markup::Emphasis(s) => StyleNode::Emphasis(lift_style_elements(&s.elements)),
        Markup::Strikethrough(s) => StyleNode::Strikethrough(lift_style_elements(&s.elements)),
        Markup::Code(s) => StyleNode::Code(lift_style_elements(&s.elements)),
        Markup::Subscript(s) => StyleNode::Subscript(lift_style_elements(&s.elements)),
        Markup::Superscript(s) => StyleNode::Superscript(lift_style_elements(&s.elements)),
        Markup::Style(s) => StyleNode::Style(lift_style_elements(&s.elements)),
        Markup::Link(l) => StyleNode::Link(lift_link_elements(&l.elements)),
        Markup::Image(_) => StyleNode::Image,
    }
}

#[verifier::external_body]
fn lift_style_elements(elements: &[fb2::StyleElement]) -> Vec<StyleNode> {
    elements.iter().map(lift_style_element).collect()
}

#[verifier::external_body]
fn lift_paragraph(p: &fb2::Paragraph) -> Paragraph {
    Paragraph { elements: lift_style_elements(&p.elements) }
}

#[verifier::external_body]
fn lift_title(t: &fb2::Title) -> Title {
    Title {
        elements: t.elements.iter().map(|e| match e {
            fb2::TitleElement::Paragraph(p) => TitleElement::Paragraph(lift_paragraph(p)),
            fb2::TitleElement::EmptyLine => TitleElement::EmptyLine,
        }).collect(),
    }
}

#[verifier::external_body]
fn lift_poem(poem: &fb2::Poem) -> Poem {
    Poem {
        stanzas: poem.stanzas.iter().map(|s| match s {
            fb2::PoemStanza::Subtitle(p) => PoemStanza::Subtitle(lift_paragraph(p)),
            fb2::PoemStanza::Stanza(st) => PoemStanza::Stanza(st.lines.iter().map(lift_paragraph).collect()),
        }).collect(),
    }
}

#[verifier::external_body]
fn lift_cite(cite: &fb2::Cite) -> Cite {
    Cite {
        elements: cite.elements.iter().map(|e| match e {
            fb2::CiteElement::Paragraph(p) => CiteElement::Paragraph(lift_paragraph(p)),
            fb2::CiteElement::Subtitle(p) => CiteElement::Subtitle(lift_paragraph(p)),
            fb2::CiteElement::Poem(poem) => CiteElement::Poem(lift_poem(poem)),
            fb2::CiteElement::Table(_) => CiteElement::Table,
            fb2::CiteElement::EmptyLine => CiteElement::EmptyLine,
        }).collect(),
    }
}

#[verifier::external_body]
fn lift_part(part: &fb2::SectionPart) -> SectionPart {
    match part {
        fb2::SectionPart::Paragraph(p) => SectionPart::Paragraph(lift_paragraph(p)),
        fb2::SectionPart::Subtitle(p) => SectionPart::Subtitle(lift_paragraph(p)),
        fb2::SectionPart::Cite(c) => SectionPart::Cite(lift_cite(c)),
        fb2::SectionPart::Poem(poem) => SectionPart::Poem(lift_poem(poem)),
        fb2::SectionPart::Image(_) => SectionPart::Image,
        fb2::SectionPart::Table(_) => SectionPart::Table,
        fb2::SectionPart::EmptyLine => SectionPart::EmptyLine,
    }
}

#[verifier::external_body]
fn lift_section(section: &fb2::Section) -> BookSection {
    BookSection {
        content: section.content.as_ref().map(|c| SectionContent {
            title: c.title.as_ref().map(lift_title),
            parts: c.content.iter().map(lift_part).collect(),
            sections: c.sections.iter().map(lift_section).collect(),
        }),
    }
}

#[verifier::external_body]
fn lift_book(book: &fb2::FictionBook) -> Book {
    Book {
        bodies: book.bodies.iter().map(|b| Body {
            name: b.name.clone(),
            sections: b.sections.iter().map(lift_section).collect(),
        }).collect(),
    }
}

} // verus!
