//! What the Markdown rendering does with links, titles and verse, stated
//! with the literal text it produces.
use vstd::prelude::*;
use crate::text::{is_white_space, trim_start, trim_end, trimmed, concat, views, joined};
use super::book::{LinkNode, StyleNode, Paragraph, TitleElement, Title, PoemStanza, SectionPart, CiteElement};
use super::markdown::{style_nodes_md, style_node_md, link_nodes_text, link_node_text, paragraph_md, title_text, title_pieces};
use super::segments::{stanza_segments, stanza_lines, segment_of, part_segments, cite_element_segments};
use super::laws::lemma_trimmed_clean;

verus! {

/// Link content made of plain text pieces renders as those pieces, in order.
pub proof fn lemma_link_text_of_pieces(link: Seq<LinkNode>, texts: Seq<String>)
    requires
        link.len() == texts.len(),
        forall|i: int| 0 <= i < link.len() ==> link[i] == LinkNode::Text(#[trigger] texts[i]),
    ensures
        link_nodes_text(link) == concat(views(texts)),
    decreases link.len(),
{
    if link.len() > 0 {
        let n = link.len() - 1;
        let lp = link.subrange(0, n);
        let tp = texts.subrange(0, n);
        assert forall|i: int| 0 <= i < lp.len() implies lp[i] == LinkNode::Text(#[trigger] tp[i]) by {
            assert(lp[i] == link[i]);
            assert(tp[i] == texts[i]);
        }
        lemma_link_text_of_pieces(lp, tp);
        assert(views(tp) == views(texts).drop_last());
        assert(views(texts).last() == texts[n]@);
        assert(link[n] == LinkNode::Text(texts[n]));
        assert(link_node_text(link[n]) == texts[n]@);
        assert(link_nodes_text(link) == link_nodes_text(link.subrange(0, link.len() - 1)) + link_node_text(
            link[link.len() - 1],
        ));
        assert(link_nodes_text(link) == link_nodes_text(lp) + texts[n]@);
        assert(concat(views(texts)) == concat(views(texts).drop_last()) + views(texts).last());
    } else {
        assert(views(texts).len() == 0);
    }
}

/// A hyperlink inside a paragraph keeps its text: text before it, the
/// link's plain text pieces, and text after it render as their
/// concatenation, with nothing dropped or added.
pub proof fn lemma_link_inside_paragraph(before: String, link: Vec<LinkNode>, texts: Seq<String>, after: String)
    requires
        link@.len() == texts.len(),
        forall|i: int| 0 <= i < link@.len() ==> link@[i] == LinkNode::Text(#[trigger] texts[i]),
    ensures
        style_nodes_md(seq![StyleNode::Text(before), StyleNode::Link(link), StyleNode::Text(after)])
            == before@ + concat(views(texts)) + after@,
{
    lemma_link_text_of_pieces(link@, texts);
    let nodes = seq![StyleNode::Text(before), StyleNode::Link(link), StyleNode::Text(after)];
    let two = nodes.subrange(0, 2);
    let one = two.subrange(0, 1);
    assert(nodes.subrange(0, nodes.len() - 1) == two);
    assert(two.subrange(0, two.len() - 1) == one);
    assert(one.subrange(0, one.len() - 1) == Seq::<StyleNode>::empty());
    assert(style_nodes_md(Seq::<StyleNode>::empty()) == Seq::<char>::empty());
    assert(one[0] == StyleNode::Text(before));
    assert(two[1] == StyleNode::Link(link));
    assert(nodes[2] == StyleNode::Text(after));
    assert(style_node_md(StyleNode::Text(before)) == before@);
    assert(style_node_md(StyleNode::Link(link)) == link_nodes_text(link@));
    assert(style_node_md(StyleNode::Text(after)) == after@);
    assert(style_nodes_md(one) == style_nodes_md(one.subrange(0, one.len() - 1)) + style_node_md(one[one.len() - 1]));
    assert(style_nodes_md(two) == style_nodes_md(two.subrange(0, two.len() - 1)) + style_node_md(two[two.len() - 1]));
    assert(style_nodes_md(nodes) == style_nodes_md(nodes.subrange(0, nodes.len() - 1)) + style_node_md(
        nodes[nodes.len() - 1],
    ));
    assert(style_nodes_md(one) == Seq::<char>::empty() + before@);
    assert(Seq::<char>::empty() + before@ == before@);
    assert(style_nodes_md(two) == before@ + concat(views(texts)));
    assert(style_nodes_md(nodes) == before@ + concat(views(texts)) + after@);
}

/// A text that neither starts nor ends with white space is its own trimming.
pub proof fn lemma_trimmed_unchanged(s: Seq<char>)
    requires
        s.len() > 0,
        !is_white_space(s[0]),
        !is_white_space(s[s.len() - 1]),
    ensures
        trimmed(s) == s,
{
    assert(trim_start(s) == s);
    assert(trim_end(s) == s);
}

/// A title paragraph with text, following title text, is added after one
/// space: `previous + " " + trimmed paragraph`.
pub proof fn lemma_title_paragraph_after_space(t1: Title, t2: Title, p: Paragraph)
    requires
        t2.elements@ == t1.elements@.push(TitleElement::Paragraph(p)),
        title_text(t1).len() > 0,
        trimmed(paragraph_md(p)).len() > 0,
    ensures
        title_text(t2) == title_text(t1) + seq![' '] + trimmed(paragraph_md(p)),
{
    let e = t2.elements@;
    assert(e.drop_last() == t1.elements@);
    assert(e.last() == TitleElement::Paragraph(p));
    let pieces = title_pieces(t1.elements@);
    assert(pieces.len() > 0);
    assert(title_pieces(e) == pieces.push(trimmed(paragraph_md(p))));
    assert(pieces.push(trimmed(paragraph_md(p))).drop_last() == pieces);
}

/// The first title paragraph with text is the title text so far.
pub proof fn lemma_title_first_paragraph(t1: Title, t2: Title, p: Paragraph)
    requires
        t2.elements@ == t1.elements@.push(TitleElement::Paragraph(p)),
        title_text(t1).len() == 0,
        trimmed(paragraph_md(p)).len() > 0,
    ensures
        title_text(t2) == trimmed(paragraph_md(p)),
{
    let e = t2.elements@;
    assert(e.drop_last() == t1.elements@);
    let pieces = title_pieces(t1.elements@);
    lemma_pieces_nonempty_text(t1.elements@);
    assert(pieces.len() == 0);
    assert(title_pieces(e) == pieces.push(trimmed(paragraph_md(p))));
}

/// Empty lines, and paragraphs without text, add nothing to a title.
pub proof fn lemma_title_skips_blank(t1: Title, t2: Title, e: TitleElement)
    requires
        t2.elements@ == t1.elements@.push(e),
        match e {
            TitleElement::Paragraph(p) => trimmed(paragraph_md(p)).len() == 0,
            TitleElement::EmptyLine => true,
        },
    ensures
        title_text(t2) == title_text(t1),
{
    assert(t2.elements@.drop_last() == t1.elements@);
}

/// Title pieces are never empty, so a title with pieces has text.
proof fn lemma_pieces_nonempty_text(elements: Seq<TitleElement>)
    ensures
        title_pieces(elements).len() > 0 ==> joined(title_pieces(elements), seq![' ']).len() > 0,
        forall|i: int| 0 <= i < title_pieces(elements).len() ==> (#[trigger] title_pieces(elements)[i]).len() > 0,
    decreases elements.len(),
{
    if elements.len() > 0 {
        lemma_pieces_nonempty_text(elements.drop_last());
        let rest = title_pieces(elements.drop_last());
        let pieces = title_pieces(elements);
        assert forall|i: int| 0 <= i < pieces.len() implies (#[trigger] pieces[i]).len() > 0 by {
            if i < rest.len() {
                assert(pieces[i] == rest[i]);
            }
        }
        if pieces.len() > 1 {
            assert(pieces.drop_last().len() > 0);
        }
    }
}

/// A title of two paragraphs with text reads as the first, one space, and
/// the second, each trimmed.
pub proof fn lemma_two_paragraph_title(t: Title, p1: Paragraph, p2: Paragraph)
    requires
        t.elements@ == seq![TitleElement::Paragraph(p1), TitleElement::Paragraph(p2)],
        trimmed(paragraph_md(p1)).len() > 0,
        trimmed(paragraph_md(p2)).len() > 0,
    ensures
        title_text(t) == trimmed(paragraph_md(p1)) + seq![' '] + trimmed(paragraph_md(p2)),
{
    let e = t.elements@;
    let first = e.drop_last();
    assert(first.drop_last() == Seq::<TitleElement>::empty());
    assert(first.last() == TitleElement::Paragraph(p1));
    assert(e.last() == TitleElement::Paragraph(p2));
    assert(title_pieces(Seq::<TitleElement>::empty()) == Seq::<Seq<char>>::empty());
    assert(Seq::<Seq<char>>::empty().push(trimmed(paragraph_md(p1))) == seq![trimmed(paragraph_md(p1))]);
    assert(title_pieces(first) == seq![trimmed(paragraph_md(p1))]);
    assert(title_pieces(e) == seq![trimmed(paragraph_md(p1)), trimmed(paragraph_md(p2))]);
    let x1 = trimmed(paragraph_md(p1));
    let x2 = trimmed(paragraph_md(p2));
    assert(seq![x1, x2].drop_last() == seq![x1]);
    assert(seq![x1, x2].last() == x2);
    assert(joined(seq![x1], seq![' ']) == x1);
    assert(joined(seq![x1, x2], seq![' ']) == x1 + seq![' '] + x2);
}

/// A stanza of two lines with text is one segment: each line trimmed and in
/// italics, separated by a Markdown hard line break (two spaces and a line
/// feed), followed by a blank line.
pub proof fn lemma_stanza_line_break(lines: Vec<Paragraph>, p1: Paragraph, p2: Paragraph)
    requires
        lines@ == seq![p1, p2],
        trimmed(paragraph_md(p1)).len() > 0,
        trimmed(paragraph_md(p2)).len() > 0,
    ensures
        stanza_segments(PoemStanza::Stanza(lines)) == seq![
            seq!['*'] + trimmed(paragraph_md(p1)) + seq!['*'] + seq![' ', ' ', '\n'] + seq!['*']
                + trimmed(paragraph_md(p2)) + seq!['*'] + seq!['\n', '\n'],
        ],
{
    let a = seq!['*'] + trimmed(paragraph_md(p1)) + seq!['*'];
    let b = seq!['*'] + trimmed(paragraph_md(p2)) + seq!['*'];
    let l = lines@;
    assert(l.drop_last() == seq![p1]);
    assert(seq![p1].drop_last() == Seq::<Paragraph>::empty());
    assert(seq![p1].last() == p1);
    assert(l.last() == p2);
    assert(stanza_lines(Seq::<Paragraph>::empty()) == Seq::<Seq<char>>::empty());
    assert(Seq::<Seq<char>>::empty().push(a) == seq![a]);
    assert(stanza_lines(seq![p1]) == seq![a]);
    assert(seq![a].push(b) == seq![a, b]);
    assert(stanza_lines(l) == seq![a, b]);
    assert(seq![a, b].drop_last() == seq![a]);
    assert(seq![a, b].last() == b);
    assert(joined(seq![a], seq![' ', ' ', '\n']) == a);
    let j = a + seq![' ', ' ', '\n'] + b;
    assert(joined(seq![a, b], seq![' ', ' ', '\n']) == j);
    assert(j[0] == '*');
    assert(j[j.len() - 1] == '*');
    lemma_trimmed_unchanged(j);
    assert(segment_of(j) == seq![j + seq!['\n', '\n']]);
    assert(j + seq!['\n', '\n'] == seq!['*'] + trimmed(paragraph_md(p1)) + seq!['*'] + seq![' ', ' ', '\n']
        + seq!['*'] + trimmed(paragraph_md(p2)) + seq!['*'] + seq!['\n', '\n']);
}

proof fn lemma_single_node(x: StyleNode)
    ensures
        style_nodes_md(seq![x]) == style_node_md(x),
{
    assert(seq![x].subrange(0, 0) == Seq::<StyleNode>::empty());
    assert(seq![x][0] == x);
    assert(style_nodes_md(Seq::<StyleNode>::empty()) == Seq::<char>::empty());
    assert(Seq::<char>::empty() + style_node_md(x) == style_node_md(x));
}

/// Inline markup around a text with content: strong text is enclosed in
/// `**`, emphasis in `*`, strikethrough in `~~` and code in a backtick, each
/// around the trimmed text; sub- and superscript and named styles keep the
/// text as it is, unmarked.
pub proof fn lemma_inline_marks(c: Vec<StyleNode>, t: String)
    requires
        c@ == seq![StyleNode::Text(t)],
        trimmed(t@).len() > 0,
    ensures
        style_nodes_md(seq![StyleNode::Strong(c)]) == seq!['*', '*'] + trimmed(t@) + seq!['*', '*'],
        style_nodes_md(seq![StyleNode::Emphasis(c)]) == seq!['*'] + trimmed(t@) + seq!['*'],
        style_nodes_md(seq![StyleNode::Strikethrough(c)]) == seq!['~', '~'] + trimmed(t@) + seq!['~', '~'],
        style_nodes_md(seq![StyleNode::Code(c)]) == seq!['`'] + trimmed(t@) + seq!['`'],
        style_nodes_md(seq![StyleNode::Subscript(c)]) == t@,
        style_nodes_md(seq![StyleNode::Superscript(c)]) == t@,
        style_nodes_md(seq![StyleNode::Style(c)]) == t@,
{
    lemma_single_node(StyleNode::Text(t));
    assert(style_node_md(StyleNode::Text(t)) == t@);
    assert(style_nodes_md(c@) == t@);
    lemma_single_node(StyleNode::Strong(c));
    lemma_single_node(StyleNode::Emphasis(c));
    lemma_single_node(StyleNode::Strikethrough(c));
    lemma_single_node(StyleNode::Code(c));
    lemma_single_node(StyleNode::Subscript(c));
    lemma_single_node(StyleNode::Superscript(c));
    lemma_single_node(StyleNode::Style(c));
}

/// Inline markup whose text is blank renders as nothing, and images render
/// as nothing.
pub proof fn lemma_blank_marks_vanish(c: Vec<StyleNode>, t: String)
    requires
        c@ == seq![StyleNode::Text(t)],
        trimmed(t@).len() == 0,
    ensures
        style_nodes_md(seq![StyleNode::Strong(c)]).len() == 0,
        style_nodes_md(seq![StyleNode::Emphasis(c)]).len() == 0,
        style_nodes_md(seq![StyleNode::Strikethrough(c)]).len() == 0,
        style_nodes_md(seq![StyleNode::Code(c)]).len() == 0,
        style_nodes_md(seq![StyleNode::Image]).len() == 0,
{
    lemma_single_node(StyleNode::Text(t));
    assert(style_node_md(StyleNode::Text(t)) == t@);
    lemma_single_node(StyleNode::Strong(c));
    lemma_single_node(StyleNode::Emphasis(c));
    lemma_single_node(StyleNode::Strikethrough(c));
    lemma_single_node(StyleNode::Code(c));
    lemma_single_node(StyleNode::Image);
}

/// What a block of section content contributes, for a paragraph with text:
/// a paragraph becomes its trimmed text and a blank line; a subtitle becomes
/// `## ` and its trimmed text and a blank line; a citation paragraph becomes
/// its trimmed text in italics and a blank line.
pub proof fn lemma_block_segments(p: Paragraph)
    requires
        trimmed(paragraph_md(p)).len() > 0,
    ensures
        part_segments(SectionPart::Paragraph(p)) == seq![trimmed(paragraph_md(p)) + seq!['\n', '\n']],
        part_segments(SectionPart::Subtitle(p)) == seq![
            seq!['#', '#', ' '] + trimmed(paragraph_md(p)) + seq!['\n', '\n'],
        ],
        cite_element_segments(CiteElement::Paragraph(p)) == seq![
            seq!['*'] + trimmed(paragraph_md(p)) + seq!['*'] + seq!['\n', '\n'],
        ],
        cite_element_segments(CiteElement::Subtitle(p)) == seq![
            seq!['*'] + trimmed(paragraph_md(p)) + seq!['*'] + seq!['\n', '\n'],
        ],
{
    let t = trimmed(paragraph_md(p));
    lemma_trimmed_clean(paragraph_md(p));
    let h = seq!['#', '#', ' '] + t;
    assert(h[0] == '#');
    assert(h[h.len() - 1] == t[t.len() - 1]);
    lemma_trimmed_unchanged(h);
    let it = seq!['*'] + t + seq!['*'];
    assert(it[0] == '*');
    assert(it[it.len() - 1] == '*');
    lemma_trimmed_unchanged(it);
}

/// Blank paragraphs and subtitles, images, tables and empty lines
/// contribute nothing to a section's text.
pub proof fn lemma_blank_blocks_vanish(p: Paragraph)
    requires
        trimmed(paragraph_md(p)).len() == 0,
    ensures
        part_segments(SectionPart::Paragraph(p)).len() == 0,
        part_segments(SectionPart::Subtitle(p)).len() == 0,
        cite_element_segments(CiteElement::Paragraph(p)).len() == 0,
        part_segments(SectionPart::Image).len() == 0,
        part_segments(SectionPart::Table).len() == 0,
        part_segments(SectionPart::EmptyLine).len() == 0,
{
}

} // verus!
