//! Rendering of inline FB2 markup as Markdown text.
use vstd::prelude::*;
use crate::text::{trimmed, joined, trim, push_str};
use super::book::{LinkNode, StyleNode, Paragraph, TitleElement, Title};

verus! {

/// The plain text of link content: all text, styling dropped, images skipped.
pub open spec fn link_nodes_text(nodes: Seq<LinkNode>) -> Seq<char>
    decreases nodes,
{
    if nodes.len() == 0 {
        Seq::empty()
    } else {
        link_nodes_text(nodes.subrange(0, nodes.len() - 1)) + link_node_text(nodes[nodes.len() - 1])
    }
}

pub open spec fn link_node_text(node: LinkNode) -> Seq<char>
    decreases node,
{
    match node {
        LinkNode::Styled(children) => link_nodes_text(children@),
        LinkNode::Image => Seq::empty(),
        LinkNode::Text(t) => t@,
    }
}

/// `inner`, trimmed and enclosed in `mark` on both sides; nothing when the
/// trimmed text is empty.
pub open spec fn marked(inner: Seq<char>, mark: Seq<char>) -> Seq<char> {
    if trimmed(inner).len() == 0 {
        Seq::empty()
    } else {
        mark + trimmed(inner) + mark
    }
}

/// The Markdown rendering of inline markup.
pub open spec fn style_nodes_md(nodes: Seq<StyleNode>) -> Seq<char>
    decreases nodes,
{
    if nodes.len() == 0 {
        Seq::empty()
    } else {
        style_nodes_md(nodes.subrange(0, nodes.len() - 1)) + style_node_md(nodes[nodes.len() - 1])
    }
}

/// Strong text becomes `**..**`, emphasis `*..*`, strikethrough `~~..~~` and
/// code `` `..` ``, around the trimmed inner rendering and only when that is
/// not empty; sub- and superscript and named styles keep their content
/// unmarked; links contribute their plain text and images nothing.
pub open spec fn style_node_md(node: StyleNode) -> Seq<char>
    decreases node,
{
    match node {
        StyleNode::Text(t) => t@,
        StyleNode::Strong(c) => marked(style_nodes_md(c@), seq!['*', '*']),
        StyleNode::Emphasis(c) => marked(style_nodes_md(c@), seq!['*']),
        StyleNode::Strikethrough(c) => marked(style_nodes_md(c@), seq!['~', '~']),
        StyleNode::Code(c) => marked(style_nodes_md(c@), seq!['`']),
        StyleNode::Subscript(c) => style_nodes_md(c@),
        StyleNode::Superscript(c) => style_nodes_md(c@),
        StyleNode::Style(c) => style_nodes_md(c@),
        StyleNode::Link(l) => link_nodes_text(l@),
        StyleNode::Image => Seq::empty(),
    }
}

pub open spec fn paragraph_md(p: Paragraph) -> Seq<char> {
    style_nodes_md(p.elements@)
}

/// The non-empty trimmed renderings of the title's paragraphs.
pub open spec fn title_pieces(elements: Seq<TitleElement>) -> Seq<Seq<char>>
    decreases elements.len(),
{
    if elements.len() == 0 {
        Seq::empty()
    } else {
        let rest = title_pieces(elements.drop_last());
        match elements.last() {
            TitleElement::Paragraph(p) => if trimmed(paragraph_md(p)).len() == 0 {
                rest
            } else {
                rest.push(trimmed(paragraph_md(p)))
            },
            TitleElement::EmptyLine => rest,
        }
    }
}

/// The text of a title: its non-empty paragraphs, trimmed, joined by spaces.
pub open spec fn title_text(t: Title) -> Seq<char> {
    joined(title_pieces(t.elements@), seq![' '])
}

/// Appends `mark + trimmed(inner) + mark` to `s` when the trimmed text is not empty.
fn push_marked(s: &mut String, inner: &str, mark: &str)
    ensures
        final(s)@ == old(s)@ + marked(inner@, mark@),
{
    let t = trim(inner);
    if !t.is_empty() {
        push_str(s, mark);
        push_str(s, t);
        push_str(s, mark);
    }
}

/// The plain text of link content.
pub fn link_elements_to_text(elements: &Vec<LinkNode>) -> (s: String)
    ensures
        s@ == link_nodes_text(elements@),
    decreases elements,
{
    let mut s = String::new();
    let n = elements.len();
    for i in 0..n
        invariant
            n == elements@.len(),
            s@ == link_nodes_text(elements@.subrange(0, i as int)),
    {
        let ghost prefix = elements@.subrange(0, i + 1);
        assert(prefix.subrange(0, i as int) == elements@.subrange(0, i as int));
        assert(prefix[i as int] == elements@[i as int]);
        match &elements[i] {
            LinkNode::Styled(children) => {
                let inner = link_elements_to_text(children);
                push_str(&mut s, inner.as_str());
            },
            LinkNode::Image => {},
            LinkNode::Text(t) => {
                push_str(&mut s, t.as_str());
            },
        }
        assert(s@ == link_nodes_text(elements@.subrange(0, i as int)) + link_node_text(elements@[i as int]));
        assert(s@ == link_nodes_text(prefix));
    }
    assert(elements@.subrange(0, n as int) == elements@);
    s
}

/// The Markdown rendering of inline markup.
pub fn style_elements_to_md(elements: &Vec<StyleNode>) -> (s: String)
    ensures
        s@ == style_nodes_md(elements@),
    decreases elements,
{
    let mut s = String::new();
    let n = elements.len();
    proof {
        reveal_strlit("**");
        reveal_strlit("*");
        reveal_strlit("~~");
        reveal_strlit("`");
    }
    for i in 0..n
        invariant
            n == elements@.len(),
            s@ == style_nodes_md(elements@.subrange(0, i as int)),
            "**"@ == seq!['*', '*'],
            "*"@ == seq!['*'],
            "~~"@ == seq!['~', '~'],
            "`"@ == seq!['`'],
    {
        let ghost prefix = elements@.subrange(0, i + 1);
        assert(prefix.subrange(0, i as int) == elements@.subrange(0, i as int));
        assert(prefix[i as int] == elements@[i as int]);
        match &elements[i] {
            StyleNode::Text(t) => push_str(&mut s, t.as_str()),
            StyleNode::Strong(c) => {
                let inner = style_elements_to_md(c);
                push_marked(&mut s, inner.as_str(), "**");
            },
            StyleNode::Emphasis(c) => {
                let inner = style_elements_to_md(c);
                push_marked(&mut s, inner.as_str(), "*");
            },
            StyleNode::Strikethrough(c) => {
                let inner = style_elements_to_md(c);
                push_marked(&mut s, inner.as_str(), "~~");
            },
            StyleNode::Code(c) => {
                let inner = style_elements_to_md(c);
                push_marked(&mut s, inner.as_str(), "`");
            },
            StyleNode::Subscript(c) => {
                let inner = style_elements_to_md(c);
                push_str(&mut s, inner.as_str());
            },
            StyleNode::Superscript(c) => {
                let inner = style_elements_to_md(c);
                push_str(&mut s, inner.as_str());
            },
            StyleNode::Style(c) => {
                let inner = style_elements_to_md(c);
                push_str(&mut s, inner.as_str());
            },
            StyleNode::Link(l) => {
                let inner = link_elements_to_text(l);
                push_str(&mut s, inner.as_str());
            },
            StyleNode::Image => {},
        }
        assert(s@ == style_nodes_md(elements@.subrange(0, i as int)) + style_node_md(elements@[i as int]));
        assert(s@ == style_nodes_md(prefix));
    }
    assert(elements@.subrange(0, n as int) == elements@);
    s
}

/// The Markdown rendering of a paragraph.
pub fn para_to_md(para: &Paragraph) -> (s: String)
    ensures
        s@ == paragraph_md(*para),
{
    style_elements_to_md(&para.elements)
}

/// The text of a title: its non-empty paragraphs, trimmed, joined by spaces.
pub fn title_to_text(title: &Title) -> (s: String)
    ensures
        s@ == title_text(*title),
{
    let mut s = String::new();
    let n = title.elements.len();
    let mut any = false;
    proof {
        reveal_strlit(" ");
    }
    for i in 0..n
        invariant
            n == title.elements@.len(),
            s@ == joined(title_pieces(title.elements@.subrange(0, i as int)), seq![' ']),
            any == (title_pieces(title.elements@.subrange(0, i as int)).len() > 0),
            " "@ == seq![' '],
    {
        let ghost prefix = title.elements@.subrange(0, i + 1);
        assert(prefix.drop_last() == title.elements@.subrange(0, i as int));
        assert(prefix.last() == title.elements@[i as int]);
        let ghost before = title_pieces(title.elements@.subrange(0, i as int));
        match &title.elements[i] {
            TitleElement::Paragraph(p) => {
                let md = para_to_md(p);
                let t = trim(md.as_str());
                if !t.is_empty() {
                    if any {
                        push_str(&mut s, " ");
                    }
                    push_str(&mut s, t);
                    any = true;
                    assert(before.push(t@).drop_last() == before);
                }
            },
            TitleElement::EmptyLine => {},
        }
    }
    assert(title.elements@.subrange(0, n as int) == title.elements@);
    s
}

} // verus!
