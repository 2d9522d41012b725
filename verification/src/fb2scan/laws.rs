//! What holds of every section that a scan produces.
use vstd::prelude::*;
use crate::text::{is_white_space, trim_start, trim_end, trimmed, concat, lemma_trim_start_shape,
    lemma_concat_append};
use super::book::{Body, BookSection, SectionContent, PoemStanza, CiteElement, SectionPart};
use super::segments::{
    well_segmented, pars_of, appended, spans, segment_ranges, byte_count, lemma_ranges_append,
    lemma_ranges_select, lemma_encode_concat, blank_line, segment_of, stanza_segments, poem_segments, cite_element_segments, cite_segments,
    part_segments, parts_segments,
};
use super::{SectionView, sections_of, sections_list, book_sections, content_section, content_emitted,
    content_title};

verus! {

/// Text that is not empty and neither starts nor ends with white space.
pub open spec fn clean_text(t: Seq<char>) -> bool {
    &&& t.len() > 0
    &&& !is_white_space(t[0])
    &&& !is_white_space(t[t.len() - 1])
}

/// A paragraph: clean text followed by a blank line.
pub open spec fn is_paragraph(p: Seq<char>) -> bool {
    &&& p.len() >= 2
    &&& p.subrange(p.len() - 2, p.len() as int) == blank_line()
    &&& clean_text(p.subrange(0, p.len() - 2))
}

pub open spec fn all_paragraphs(ps: Seq<Seq<char>>) -> bool {
    forall|i: int| 0 <= i < ps.len() ==> is_paragraph(#[trigger] ps[i])
}

/// A section as a scan produces it: its paragraphs make up its text, it has
/// text or a title, and a title it has is not empty.
pub open spec fn section_ok(s: SectionView) -> bool {
    &&& all_paragraphs(s.pars)
    &&& concat(s.pars) == s.text
    &&& s.text.len() > 0 || s.title is Some
    &&& s.title matches Some(t) ==> t.len() > 0
}

pub open spec fn all_sections_ok(ss: Seq<SectionView>) -> bool {
    forall|i: int| 0 <= i < ss.len() ==> section_ok(#[trigger] ss[i])
}

proof fn lemma_trim_end_shape(s: Seq<char>)
    ensures
        trim_end(s).len() <= s.len(),
        trim_end(s) == s.subrange(0, trim_end(s).len() as int),
        trim_end(s).len() > 0 ==> !is_white_space(trim_end(s)[trim_end(s).len() - 1]),
    decreases s.len(),
{
    if s.len() > 0 && is_white_space(s[s.len() - 1]) {
        let shorter = s.subrange(0, s.len() - 1);
        lemma_trim_end_shape(shorter);
        assert(shorter.subrange(0, trim_end(shorter).len() as int) == s.subrange(
            0,
            trim_end(shorter).len() as int,
        ));
    } else {
        assert(s.subrange(0, s.len() as int) == s);
    }
}

/// Trimmed text that is not empty is clean.
pub proof fn lemma_trimmed_clean(s: Seq<char>)
    requires
        trimmed(s).len() > 0,
    ensures
        clean_text(trimmed(s)),
{
    lemma_trim_start_shape(s);
    lemma_trim_end_shape(trim_start(s));
    assert(trimmed(s)[0] == trim_start(s)[0]);
}

proof fn lemma_segment_of(c: Seq<char>)
    ensures
        all_paragraphs(segment_of(c)),
{
    if trimmed(c).len() > 0 {
        lemma_trimmed_clean(c);
        let p = trimmed(c) + blank_line();
        assert(p.subrange(0, p.len() - 2) == trimmed(c));
        assert(p.subrange(p.len() - 2, p.len() as int) == blank_line());
        assert(segment_of(c) == seq![p]);
    }
}

proof fn lemma_all_paragraphs_append(a: Seq<Seq<char>>, b: Seq<Seq<char>>)
    requires
        all_paragraphs(a),
        all_paragraphs(b),
    ensures
        all_paragraphs(a + b),
{
    assert forall|i: int| 0 <= i < (a + b).len() implies is_paragraph(#[trigger] (a + b)[i]) by {
        if i < a.len() {
            assert((a + b)[i] == a[i]);
        } else {
            assert((a + b)[i] == b[i - a.len()]);
        }
    }
}

proof fn lemma_stanza(st: PoemStanza)
    ensures
        all_paragraphs(stanza_segments(st)),
{
    match st {
        PoemStanza::Subtitle(p) => {
            lemma_segment_of(seq!['*'] + trimmed(super::markdown::paragraph_md(p)) + seq!['*']);
        },
        PoemStanza::Stanza(lines) => {
            let ls = super::segments::stanza_lines(lines@);
            lemma_segment_of(crate::text::joined(ls, seq![' ', ' ', '\n']));
        },
    }
}

proof fn lemma_poem(stanzas: Seq<PoemStanza>)
    ensures
        all_paragraphs(poem_segments(stanzas)),
    decreases stanzas.len(),
{
    if stanzas.len() > 0 {
        lemma_poem(stanzas.drop_last());
        lemma_stanza(stanzas.last());
        lemma_all_paragraphs_append(poem_segments(stanzas.drop_last()), stanza_segments(stanzas.last()));
    }
}

proof fn lemma_cite_element(e: CiteElement)
    ensures
        all_paragraphs(cite_element_segments(e)),
{
    match e {
        CiteElement::Paragraph(p) => {
            lemma_segment_of(seq!['*'] + trimmed(super::markdown::paragraph_md(p)) + seq!['*']);
        },
        CiteElement::Subtitle(p) => {
            lemma_segment_of(seq!['*'] + trimmed(super::markdown::paragraph_md(p)) + seq!['*']);
        },
        CiteElement::Poem(poem) => lemma_poem(poem.stanzas@),
        _ => {},
    }
}

proof fn lemma_cite(es: Seq<CiteElement>)
    ensures
        all_paragraphs(cite_segments(es)),
    decreases es.len(),
{
    if es.len() > 0 {
        lemma_cite(es.drop_last());
        lemma_cite_element(es.last());
        lemma_all_paragraphs_append(cite_segments(es.drop_last()), cite_element_segments(es.last()));
    }
}

proof fn lemma_part(part: SectionPart)
    ensures
        all_paragraphs(part_segments(part)),
{
    match part {
        SectionPart::Paragraph(p) => lemma_segment_of(super::markdown::paragraph_md(p)),
        SectionPart::Subtitle(p) => {
            lemma_segment_of(super::segments::heading(trimmed(super::markdown::paragraph_md(p))));
        },
        SectionPart::Cite(c) => lemma_cite(c.elements@),
        SectionPart::Poem(poem) => lemma_poem(poem.stanzas@),
        _ => {},
    }
}

proof fn lemma_parts(parts: Seq<SectionPart>)
    ensures
        all_paragraphs(parts_segments(parts)),
    decreases parts.len(),
{
    if parts.len() > 0 {
        lemma_parts(parts.drop_last());
        lemma_part(parts.last());
        lemma_all_paragraphs_append(parts_segments(parts.drop_last()), part_segments(parts.last()));
    }
}

proof fn lemma_all_sections_ok_append(a: Seq<SectionView>, b: Seq<SectionView>)
    requires
        all_sections_ok(a),
        all_sections_ok(b),
    ensures
        all_sections_ok(a + b),
{
    assert forall|i: int| 0 <= i < (a + b).len() implies section_ok(#[trigger] (a + b)[i]) by {
        if i < a.len() {
            assert((a + b)[i] == a[i]);
        } else {
            assert((a + b)[i] == b[i - a.len()]);
        }
    }
}

proof fn lemma_content(c: SectionContent)
    requires
        content_emitted(c),
    ensures
        section_ok(content_section(c)),
{
    lemma_parts(c.parts@);
}

proof fn lemma_sections_of(s: BookSection)
    ensures
        all_sections_ok(sections_of(s)),
    decreases s,
{
    match s.content {
        None => {},
        Some(c) => {
            let own: Seq<SectionView> = if content_emitted(c) {
                seq![content_section(c)]
            } else {
                Seq::empty()
            };
            if content_emitted(c) {
                lemma_content(c);
                assert(own[0] == content_section(c));
            }
            assert(decreases_to!(s => s.content));
            assert(decreases_to!(s.content => c));
            assert(decreases_to!(c => c.sections));
            assert(decreases_to!(c.sections => c.sections@));
            lemma_sections_list(c.sections@);
            lemma_all_sections_ok_append(own, sections_list(c.sections@));
        },
    }
}

proof fn lemma_sections_list(ss: Seq<BookSection>)
    ensures
        all_sections_ok(sections_list(ss)),
    decreases ss,
{
    if ss.len() > 0 {
        lemma_sections_list(ss.subrange(0, ss.len() - 1));
        lemma_sections_of(ss[ss.len() - 1]);
        lemma_all_sections_ok_append(
            sections_list(ss.subrange(0, ss.len() - 1)),
            sections_of(ss[ss.len() - 1]),
        );
    }
}

/// Every section of a book is well formed: its paragraphs are clean text
/// each followed by a blank line, they make up its text, it has text or a
/// title, and its title is never empty.
pub proof fn lemma_book_sections_ok(bodies: Seq<Body>)
    ensures
        all_sections_ok(book_sections(bodies)),
    decreases bodies.len(),
{
    if bodies.len() > 0 {
        lemma_book_sections_ok(bodies.drop_last());
        if bodies.last().name is None {
            lemma_sections_list(bodies.last().sections@);
            lemma_all_sections_ok_append(
                book_sections(bodies.drop_last()),
                sections_list(bodies.last().sections@),
            );
        }
    }
}

/// A named body (notes, comments) adds no sections, wherever it stands
/// among the bodies.
pub proof fn lemma_named_body_adds_nothing(before: Seq<Body>, named: Body, after: Seq<Body>)
    requires
        named.name is Some,
    ensures
        book_sections(before.push(named) + after) == book_sections(before + after),
    decreases after.len(),
{
    if after.len() == 0 {
        assert(before.push(named) + after == before.push(named));
        assert(before + after == before);
        assert(before.push(named).drop_last() == before);
    } else {
        lemma_named_body_adds_nothing(before, named, after.drop_last());
        assert((before.push(named) + after).drop_last() == before.push(named) + after.drop_last());
        assert((before.push(named) + after).last() == after.last());
        assert((before + after).drop_last() == before + after.drop_last());
        assert((before + after).last() == after.last());
    }
}

/// An unnamed body adds the sections of its own sections, after those of
/// the bodies before it.
pub proof fn lemma_unnamed_body_appends(bodies: Seq<Body>, body: Body)
    requires
        body.name is None,
    ensures
        book_sections(bodies.push(body)) == book_sections(bodies) + sections_list(body.sections@),
{
    assert(bodies.push(body).drop_last() == bodies);
}


/// The byte ranges tile the text, and every segment they select is a
/// paragraph: clean text followed by a blank line.
pub open spec fn tiles(text: Seq<char>, indices: Seq<(usize, usize)>) -> bool {
    &&& well_segmented(text, indices)
    &&& all_paragraphs(pars_of(text, indices))
}

/// Ranges that tile a text start at 0, each starts where the one before
/// ends, none runs backwards, and the last ends at the text's byte length;
/// no ranges tile only the empty text.
pub proof fn lemma_tiling_shape(text: Seq<char>, indices: Seq<(usize, usize)>)
    requires
        well_segmented(text, indices),
    ensures
        indices.len() == 0 ==> text.len() == 0,
        indices.len() > 0 ==> indices[0].0 == 0 && indices[indices.len() - 1].1 == byte_count(text),
        forall|k: int| 0 <= k < indices.len() ==> #[trigger] indices[k].0 <= indices[k].1,
        forall|k: int| 0 <= k < indices.len() - 1 ==> #[trigger] indices[k].1 == indices[k + 1].0,
{
    let p = pars_of(text, indices);
    let r = segment_ranges(Seq::empty(), p);
    assert(spans(indices).len() == indices.len());
    assert forall|k: int| 0 <= k < indices.len() implies spans(indices)[k] == (
        indices[k].0 as int,
        indices[k].1 as int,
    ) && #[trigger] r[k] == spans(indices)[k] by {}
    if indices.len() == 0 {
        assert(p.len() == 0);
    } else {
        assert(p.subrange(0, 0) == Seq::<Seq<char>>::empty());
        assert(Seq::<char>::empty() + concat(Seq::<Seq<char>>::empty()) == Seq::<char>::empty());
        assert(r[0].0 == 0);
        assert(p.subrange(0, p.len() as int) == p);
        assert(Seq::<char>::empty() + concat(p) == text);
        assert(r[p.len() - 1].1 == byte_count(text));
    }
    assert forall|k: int| 0 <= k < indices.len() implies #[trigger] indices[k].0 <= indices[k].1 by {
        let a = concat(p.subrange(0, k));
        let pre = p.subrange(0, k + 1);
        assert(pre.drop_last() == p.subrange(0, k));
        assert(Seq::<char>::empty() + a == a);
        assert(Seq::<char>::empty() + concat(pre) == concat(pre));
        lemma_encode_concat(a, p[k]);
        assert(r[k] == spans(indices)[k]);
    }
    assert forall|k: int| 0 <= k < indices.len() - 1 implies #[trigger] indices[k].1 == indices[k + 1].0 by {
        assert(r[k] == spans(indices)[k]);
        assert(r[k + 1] == spans(indices)[k + 1]);
    }
}

/// Appending paragraphs to a tiled text keeps it tiled; the segments are
/// those before, followed by the new ones.
pub proof fn lemma_appended_keeps_tiling(
    t0: Seq<char>,
    i0: Seq<(usize, usize)>,
    t: Seq<char>,
    i: Seq<(usize, usize)>,
    segs: Seq<Seq<char>>,
)
    requires
        tiles(t0, i0),
        all_paragraphs(segs),
        appended(t0, i0, t, i, segs),
    ensures
        tiles(t, i),
        pars_of(t, i) == pars_of(t0, i0) + segs,
{
    let p0 = pars_of(t0, i0);
    lemma_concat_append(p0, segs);
    assert(Seq::<char>::empty() + concat(p0) == t0);
    lemma_ranges_append(Seq::empty(), p0, segs);
    assert(spans(i) == segment_ranges(Seq::empty(), p0 + segs));
    lemma_ranges_select(p0 + segs, i);
    lemma_all_paragraphs_append(p0, segs);
}

/// `append_segment` keeps a tiled text tiled: what it appends, if anything,
/// is a paragraph.
pub proof fn lemma_append_segment_keeps_tiling(
    t0: Seq<char>,
    i0: Seq<(usize, usize)>,
    t: Seq<char>,
    i: Seq<(usize, usize)>,
    content: Seq<char>,
)
    requires
        tiles(t0, i0),
        appended(t0, i0, t, i, segment_of(content)),
    ensures
        tiles(t, i),
{
    lemma_segment_of(content);
    lemma_appended_keeps_tiling(t0, i0, t, i, segment_of(content));
}

/// The empty text with no ranges is tiled.
pub proof fn lemma_empty_tiles()
    ensures
        tiles(Seq::empty(), Seq::empty()),
{
    assert(concat(Seq::<Seq<char>>::empty()) == Seq::<char>::empty());
    assert(segment_ranges(Seq::empty(), Seq::<Seq<char>>::empty()) =~= Seq::<(int, int)>::empty());
    assert(spans(Seq::<(usize, usize)>::empty()) =~= Seq::<(int, int)>::empty());
    lemma_ranges_select(Seq::empty(), Seq::empty());
}

} // verus!
