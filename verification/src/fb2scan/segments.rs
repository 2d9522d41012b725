//! Section text as a sequence of segments: each block of a section adds its
//! trimmed Markdown followed by a blank line, and the byte range of each
//! segment in the text is recorded.
use vstd::prelude::*;
use vstd::utf8::{encode_utf8, decode_utf8, is_char_boundary};
use crate::text::{trimmed, concat, joined, views, lemma_concat_append, trim, byte_len, push_str,
    to_string, join_strings};
use super::book::{Paragraph, PoemStanza, Poem, Cite, CiteElement, SectionPart};
use super::markdown::{paragraph_md, para_to_md};
use super::laws::{tiles, lemma_append_segment_keeps_tiling};

verus! {

/// The blank line that ends every segment.
pub open spec fn blank_line() -> Seq<char> {
    seq!['\n', '\n']
}

/// The segment that `content` contributes: its trimmed text and a blank
/// line, or nothing when the trimmed text is empty.
pub open spec fn segment_of(content: Seq<char>) -> Seq<Seq<char>> {
    if trimmed(content).len() == 0 {
        Seq::empty()
    } else {
        seq![trimmed(content) + blank_line()]
    }
}

/// `t` in Markdown italics.
pub open spec fn italic(t: Seq<char>) -> Seq<char> {
    seq!['*'] + t + seq!['*']
}

/// A paragraph rendered in italics, as one segment, when it has text.
pub open spec fn italic_segment(p: Paragraph) -> Seq<Seq<char>> {
    if trimmed(paragraph_md(p)).len() == 0 {
        Seq::empty()
    } else {
        segment_of(italic(trimmed(paragraph_md(p))))
    }
}

/// The non-empty lines of a stanza, trimmed and in italics.
pub open spec fn stanza_lines(lines: Seq<Paragraph>) -> Seq<Seq<char>>
    decreases lines.len(),
{
    if lines.len() == 0 {
        Seq::empty()
    } else {
        let rest = stanza_lines(lines.drop_last());
        let t = trimmed(paragraph_md(lines.last()));
        if t.len() == 0 {
            rest
        } else {
            rest.push(italic(t))
        }
    }
}

/// A poem subtitle is one italic segment; a stanza is one segment of its
/// italic lines separated by Markdown line breaks.
pub open spec fn stanza_segments(stanza: PoemStanza) -> Seq<Seq<char>> {
    match stanza {
        PoemStanza::Subtitle(p) => italic_segment(p),
        PoemStanza::Stanza(lines) => {
            let ls = stanza_lines(lines@);
            if ls.len() == 0 {
                Seq::empty()
            } else {
                segment_of(joined(ls, seq![' ', ' ', '\n']))
            }
        },
    }
}

pub open spec fn poem_segments(stanzas: Seq<PoemStanza>) -> Seq<Seq<char>>
    decreases stanzas.len(),
{
    if stanzas.len() == 0 {
        Seq::empty()
    } else {
        poem_segments(stanzas.drop_last()) + stanza_segments(stanzas.last())
    }
}

/// Citation paragraphs and subtitles become italic segments; tables and
/// empty lines are dropped.
pub open spec fn cite_element_segments(e: CiteElement) -> Seq<Seq<char>> {
    match e {
        CiteElement::Paragraph(p) => italic_segment(p),
        CiteElement::Subtitle(p) => italic_segment(p),
        CiteElement::Poem(poem) => poem_segments(poem.stanzas@),
        CiteElement::Table => Seq::empty(),
        CiteElement::EmptyLine => Seq::empty(),
    }
}

pub open spec fn cite_segments(elements: Seq<CiteElement>) -> Seq<Seq<char>>
    decreases elements.len(),
{
    if elements.len() == 0 {
        Seq::empty()
    } else {
        cite_segments(elements.drop_last()) + cite_element_segments(elements.last())
    }
}

/// A subtitle as a second-level Markdown heading.
pub open spec fn heading(t: Seq<char>) -> Seq<char> {
    seq!['#', '#', ' '] + t
}

/// Paragraphs are plain segments, subtitles headings; images, tables and
/// empty lines contribute nothing.
pub open spec fn part_segments(part: SectionPart) -> Seq<Seq<char>> {
    match part {
        SectionPart::Paragraph(p) => segment_of(paragraph_md(p)),
        SectionPart::Subtitle(p) => if trimmed(paragraph_md(p)).len() == 0 {
            Seq::empty()
        } else {
            segment_of(heading(trimmed(paragraph_md(p))))
        },
        SectionPart::Cite(c) => cite_segments(c.elements@),
        SectionPart::Poem(poem) => poem_segments(poem.stanzas@),
        SectionPart::Image => Seq::empty(),
        SectionPart::Table => Seq::empty(),
        SectionPart::EmptyLine => Seq::empty(),
    }
}

pub open spec fn parts_segments(parts: Seq<SectionPart>) -> Seq<Seq<char>>
    decreases parts.len(),
{
    if parts.len() == 0 {
        Seq::empty()
    } else {
        parts_segments(parts.drop_last()) + part_segments(parts.last())
    }
}

/// The number of bytes of the UTF-8 encoding of `s`.
pub open spec fn byte_count(s: Seq<char>) -> int {
    encode_utf8(s).len() as int
}

/// Recorded ranges as pairs of integers.
pub open spec fn spans(indices: Seq<(usize, usize)>) -> Seq<(int, int)> {
    indices.map_values(|p: (usize, usize)| (p.0 as int, p.1 as int))
}

/// The byte ranges that the segments `segs` occupy when they are appended,
/// in order, to the text `start`.
pub open spec fn segment_ranges(start: Seq<char>, segs: Seq<Seq<char>>) -> Seq<(int, int)> {
    Seq::new(
        segs.len(),
        |i: int|
            (
                byte_count(start + concat(segs.subrange(0, i))),
                byte_count(start + concat(segs.subrange(0, i + 1))),
            ),
    )
}

/// The segments that the byte ranges `indices` select from `text`.
pub open spec fn pars_of(text: Seq<char>, indices: Seq<(usize, usize)>) -> Seq<Seq<char>> {
    Seq::new(
        indices.len(),
        |i: int| decode_utf8(encode_utf8(text).subrange(indices[i].0 as int, indices[i].1 as int)),
    )
}

/// The byte ranges `indices` tile `text`: the segments they select make up
/// the text, in order, each range starting where the one before ends.
pub open spec fn well_segmented(text: Seq<char>, indices: Seq<(usize, usize)>) -> bool {
    &&& concat(pars_of(text, indices)) == text
    &&& spans(indices) == segment_ranges(Seq::empty(), pars_of(text, indices))
}

/// `(text, indices)` is `(text0, indices0)` with the segments `segs`
/// appended, and their byte ranges recorded after those already there.
pub open spec fn appended(
    text0: Seq<char>,
    indices0: Seq<(usize, usize)>,
    text: Seq<char>,
    indices: Seq<(usize, usize)>,
    segs: Seq<Seq<char>>,
) -> bool {
    &&& text == text0 + concat(segs)
    &&& spans(indices) == spans(indices0) + segment_ranges(text0, segs)
}

/// Encoding distributes over concatenation.
pub proof fn lemma_encode_concat(a: Seq<char>, b: Seq<char>)
    ensures
        encode_utf8(a + b) == encode_utf8(a) + encode_utf8(b),
    decreases a.len(),
{
    if a.len() > 0 {
        assert((a + b).drop_first() == a.drop_first() + b);
        assert((a + b)[0] == a[0]);
        lemma_encode_concat(a.drop_first(), b);
    } else {
        assert(a + b == b);
    }
}

/// The end of the encoding of `a` is a character boundary of that of `a + b`.
pub proof fn lemma_char_boundary_concat(a: Seq<char>, b: Seq<char>)
    ensures
        is_char_boundary(encode_utf8(a + b), byte_count(a)),
    decreases a.len(),
{
    broadcast use vstd::utf8::encode_utf8_valid_utf8;
    if a.len() > 0 {
        let ab = a + b;
        assert(ab.drop_first() == a.drop_first() + b);
        assert(ab[0] == a[0]);
        vstd::utf8::encode_utf8_first_scalar(ab);
        assert(vstd::utf8::pop_first_scalar(encode_utf8(ab)) =~= encode_utf8(ab.drop_first()));
        lemma_char_boundary_concat(a.drop_first(), b);
    }
}

/// A sequence of parts split around its `i`-th part.
pub proof fn lemma_concat_split(segs: Seq<Seq<char>>, i: int)
    requires
        0 <= i < segs.len(),
    ensures
        concat(segs.subrange(0, i + 1)) == concat(segs.subrange(0, i)) + segs[i],
        concat(segs) == concat(segs.subrange(0, i)) + (segs[i] + concat(segs.subrange(i + 1, segs.len() as int))),
{
    let pre = segs.subrange(0, i + 1);
    assert(pre.drop_last() == segs.subrange(0, i));
    assert(pre.last() == segs[i]);
    lemma_concat_append(pre, segs.subrange(i + 1, segs.len() as int));
    assert(pre + segs.subrange(i + 1, segs.len() as int) == segs);
}

/// Ranges of segments appended in two steps are those of all of them.
pub proof fn lemma_ranges_append(t0: Seq<char>, s1: Seq<Seq<char>>, s2: Seq<Seq<char>>)
    ensures
        segment_ranges(t0, s1 + s2) == segment_ranges(t0, s1) + segment_ranges(t0 + concat(s1), s2),
{
    let l = segment_ranges(t0, s1 + s2);
    let r = segment_ranges(t0, s1) + segment_ranges(t0 + concat(s1), s2);
    assert forall|i: int| 0 <= i < l.len() implies l[i] == r[i] by {
        if i < s1.len() {
            assert((s1 + s2).subrange(0, i) == s1.subrange(0, i));
            assert((s1 + s2).subrange(0, i + 1) == s1.subrange(0, i + 1));
        } else {
            let j = i - s1.len();
            assert((s1 + s2).subrange(0, i) == s1 + s2.subrange(0, j));
            assert((s1 + s2).subrange(0, i + 1) == s1 + s2.subrange(0, j + 1));
            lemma_concat_append(s1, s2.subrange(0, j));
            lemma_concat_append(s1, s2.subrange(0, j + 1));
            assert(t0 + (concat(s1) + concat(s2.subrange(0, j))) == (t0 + concat(s1)) + concat(
                s2.subrange(0, j),
            ));
            assert(t0 + (concat(s1) + concat(s2.subrange(0, j + 1))) == (t0 + concat(s1)) + concat(
                s2.subrange(0, j + 1),
            ));
        }
    }
    assert(l =~= r);
}

/// Appending segments in two steps appends them all.
pub proof fn lemma_appended_trans(
    t0: Seq<char>,
    i0: Seq<(usize, usize)>,
    t1: Seq<char>,
    i1: Seq<(usize, usize)>,
    t2: Seq<char>,
    i2: Seq<(usize, usize)>,
    s1: Seq<Seq<char>>,
    s2: Seq<Seq<char>>,
)
    requires
        appended(t0, i0, t1, i1, s1),
        appended(t1, i1, t2, i2, s2),
    ensures
        appended(t0, i0, t2, i2, s1 + s2),
{
    lemma_concat_append(s1, s2);
    lemma_ranges_append(t0, s1, s2);
    assert(t2 == t0 + concat(s1 + s2));
    assert(spans(i2) == spans(i0) + segment_ranges(t0, s1 + s2));
}

/// Appending nothing.
pub proof fn lemma_appended_refl(t: Seq<char>, i: Seq<(usize, usize)>)
    ensures
        appended(t, i, t, i, Seq::empty()),
{
    assert(t + concat(Seq::<Seq<char>>::empty()) == t);
    assert(segment_ranges(t, Seq::<Seq<char>>::empty()) =~= Seq::<(int, int)>::empty());
    assert(spans(i) + Seq::<(int, int)>::empty() == spans(i));
}

/// Segments appended to the empty text, with their ranges recorded, are
/// what the ranges select, and the ranges tile the text.
pub proof fn lemma_ranges_select(segs: Seq<Seq<char>>, indices: Seq<(usize, usize)>)
    requires
        spans(indices) == segment_ranges(Seq::empty(), segs),
    ensures
        pars_of(concat(segs), indices) == segs,
        well_segmented(concat(segs), indices),
{
    broadcast use vstd::utf8::encode_utf8_decode_utf8;
    let text = concat(segs);
    let p = pars_of(text, indices);
    assert(spans(indices).len() == indices.len());
    assert(indices.len() == segs.len());
    assert forall|i: int| 0 <= i < segs.len() implies p[i] == segs[i] by {
        assert(segment_ranges(Seq::empty(), segs)[i] == spans(indices)[i]);
        let a = concat(segs.subrange(0, i));
        let c = concat(segs.subrange(i + 1, segs.len() as int));
        lemma_concat_split(segs, i);
        assert(spans(indices)[i] == (indices[i].0 as int, indices[i].1 as int));
        assert(Seq::<char>::empty() + a == a);
        assert(Seq::<char>::empty() + (a + segs[i]) == a + segs[i]);
        lemma_encode_concat(a, segs[i] + c);
        lemma_encode_concat(segs[i], c);
        lemma_encode_concat(a, segs[i]);
        assert(encode_utf8(text).subrange(byte_count(a), byte_count(a) + byte_count(segs[i]))
            == encode_utf8(segs[i]));
    }
    assert(p =~= segs);
}

/// Appends the trimmed `content` and a blank line to `text`, recording its
/// byte range, unless the trimmed content is empty.
pub fn append_segment(text: &mut String, indices: &mut Vec<(usize, usize)>, content: &str)
    ensures
        appended(old(text)@, old(indices)@, final(text)@, final(indices)@, segment_of(content@)),
        tiles(old(text)@, old(indices)@) ==> tiles(final(text)@, final(indices)@),
{
    let ghost t0 = text@;
    let ghost i0 = indices@;
    let trimmed_content = trim(content);
    if trimmed_content.is_empty() {
        proof {
            lemma_appended_refl(t0, i0);
            if tiles(t0, i0) {
                lemma_append_segment_keeps_tiling(t0, i0, t0, i0, content@);
            }
        }
        return;
    }
    proof {
        reveal_strlit("\n\n");
    }
    let start = byte_len(text.as_str());
    push_str(text, trimmed_content);
    push_str(text, "\n\n");
    let end = byte_len(text.as_str());
    indices.push((start, end));
    proof {
        let seg = trimmed(content@) + blank_line();
        let one = seq![seg];
        assert(segment_of(content@) == one);
        assert(text@ == t0 + seg);
        assert(one.subrange(0, 0) == Seq::<Seq<char>>::empty());
        assert(one.subrange(0, 1) == one);
        assert(concat(one) == seg) by {
            assert(one.drop_last() == Seq::<Seq<char>>::empty());
            assert(one.last() == seg);
            assert(concat(one.drop_last()) == Seq::<char>::empty());
            assert(Seq::<char>::empty() + seg == seg);
        }
        assert(t0 + concat(Seq::<Seq<char>>::empty()) == t0);
        assert(start == byte_count(t0 + concat(one.subrange(0, 0))));
        assert(t0 + concat(one) == text@);
        assert(end == byte_count(t0 + concat(one.subrange(0, 1))));
        assert(segment_ranges(t0, one) =~= seq![(start as int, end as int)]);
        assert(spans(indices@) =~= spans(i0).push((start as int, end as int)));
        assert(spans(i0).push((start as int, end as int)) =~= spans(i0) + seq![(start as int, end as int)]);
        if tiles(t0, i0) {
            lemma_append_segment_keeps_tiling(t0, i0, text@, indices@, content@);
        }
    }
}

/// `*t*` as a new string.
fn italic_string(t: &str) -> (s: String)
    ensures
        s@ == italic(t@),
{
    proof {
        reveal_strlit("*");
    }
    let mut s = to_string("*");
    push_str(&mut s, t);
    push_str(&mut s, "*");
    s
}

/// Appends a paragraph in italics, as one segment, when it has text.
fn append_italic_paragraph(p: &Paragraph, text: &mut String, indices: &mut Vec<(usize, usize)>)
    ensures
        appended(old(text)@, old(indices)@, final(text)@, final(indices)@, italic_segment(*p)),
{
    let content = para_to_md(p);
    let t = trim(content.as_str());
    if !t.is_empty() {
        let s = italic_string(t);
        append_segment(text, indices, s.as_str());
    } else {
        proof {
            lemma_appended_refl(text@, indices@);
        }
    }
}

/// The non-empty lines of a stanza, trimmed and in italics.
fn stanza_line_strings(lines: &Vec<Paragraph>) -> (r: Vec<String>)
    ensures
        views(r@) == stanza_lines(lines@),
{
    let mut r: Vec<String> = Vec::new();
    let n = lines.len();
    for i in 0..n
        invariant
            n == lines@.len(),
            views(r@) == stanza_lines(lines@.subrange(0, i as int)),
    {
        let ghost prefix = lines@.subrange(0, i + 1);
        assert(prefix.drop_last() == lines@.subrange(0, i as int));
        assert(prefix.last() == lines@[i as int]);
        let md = para_to_md(&lines[i]);
        let t = trim(md.as_str());
        if !t.is_empty() {
            let line = italic_string(t);
            let ghost before = r@;
            r.push(line);
            assert(views(r@) == views(before).push(line@));
        }
    }
    assert(lines@.subrange(0, n as int) == lines@);
    r
}

/// Appends the segments of a poem: italic subtitles, and each stanza with
/// its italic lines separated by Markdown line breaks.
pub fn process_poem(poem: &Poem, text: &mut String, indices: &mut Vec<(usize, usize)>)
    ensures
        appended(
            old(text)@,
            old(indices)@,
            final(text)@,
            final(indices)@,
            poem_segments(poem.stanzas@),
        ),
{
    let ghost t0 = text@;
    let ghost i0 = indices@;
    proof {
        lemma_appended_refl(t0, i0);
        reveal_strlit("  \n");
    }
    let n = poem.stanzas.len();
    for k in 0..n
        invariant
            n == poem.stanzas@.len(),
            appended(t0, i0, text@, indices@, poem_segments(poem.stanzas@.subrange(0, k as int))),
            "  \n"@ == seq![' ', ' ', '\n'],
    {
        let ghost prefix = poem.stanzas@.subrange(0, k + 1);
        assert(prefix.drop_last() == poem.stanzas@.subrange(0, k as int));
        assert(prefix.last() == poem.stanzas@[k as int]);
        let ghost t1 = text@;
        let ghost i1 = indices@;
        match &poem.stanzas[k] {
            PoemStanza::Subtitle(p) => {
                append_italic_paragraph(p, text, indices);
            },
            PoemStanza::Stanza(lines) => {
                let ls = stanza_line_strings(lines);
                if ls.len() > 0 {
                    let joined_lines = join_strings(&ls, "  \n");
                    append_segment(text, indices, joined_lines.as_str());
                } else {
                    proof {
                        lemma_appended_refl(t1, i1);
                    }
                }
            },
        }
        proof {
            lemma_appended_trans(
                t0,
                i0,
                t1,
                i1,
                text@,
                indices@,
                poem_segments(poem.stanzas@.subrange(0, k as int)),
                stanza_segments(poem.stanzas@[k as int]),
            );
        }
    }
    assert(poem.stanzas@.subrange(0, n as int) == poem.stanzas@);
}

/// Appends the segments of a citation: italic paragraphs and subtitles, and
/// its poems; tables and empty lines are skipped.
pub fn process_cite(cite: &Cite, text: &mut String, indices: &mut Vec<(usize, usize)>)
    ensures
        appended(
            old(text)@,
            old(indices)@,
            final(text)@,
            final(indices)@,
            cite_segments(cite.elements@),
        ),
{
    let ghost t0 = text@;
    let ghost i0 = indices@;
    proof {
        lemma_appended_refl(t0, i0);
    }
    let n = cite.elements.len();
    for k in 0..n
        invariant
            n == cite.elements@.len(),
            appended(t0, i0, text@, indices@, cite_segments(cite.elements@.subrange(0, k as int))),
    {
        let ghost prefix = cite.elements@.subrange(0, k + 1);
        assert(prefix.drop_last() == cite.elements@.subrange(0, k as int));
        assert(prefix.last() == cite.elements@[k as int]);
        let ghost t1 = text@;
        let ghost i1 = indices@;
        match &cite.elements[k] {
            CiteElement::Paragraph(p) => append_italic_paragraph(p, text, indices),
            CiteElement::Subtitle(p) => append_italic_paragraph(p, text, indices),
            CiteElement::Poem(poem) => process_poem(poem, text, indices),
            CiteElement::Table => {
                proof {
                    lemma_appended_refl(t1, i1);
                }
            },
            CiteElement::EmptyLine => {
                proof {
                    lemma_appended_refl(t1, i1);
                }
            },
        }
        proof {
            lemma_appended_trans(
                t0,
                i0,
                t1,
                i1,
                text@,
                indices@,
                cite_segments(cite.elements@.subrange(0, k as int)),
                cite_element_segments(cite.elements@[k as int]),
            );
        }
    }
    assert(cite.elements@.subrange(0, n as int) == cite.elements@);
}

/// Appends the segments of one block of section content.
pub fn process_section_part(
    part: &SectionPart,
    text: &mut String,
    indices: &mut Vec<(usize, usize)>,
)
    ensures
        appended(old(text)@, old(indices)@, final(text)@, final(indices)@, part_segments(*part)),
{
    match part {
        SectionPart::Paragraph(p) => {
            let content = para_to_md(p);
            append_segment(text, indices, content.as_str());
            assert(appended(old(text)@, old(indices)@, text@, indices@, part_segments(*part)));
        },
        SectionPart::Subtitle(p) => {
            let content = para_to_md(p);
            let t = trim(content.as_str());
            if !t.is_empty() {
                proof {
                    reveal_strlit("## ");
                }
                let mut h = to_string("## ");
                push_str(&mut h, t);
                assert(h@ == heading(trimmed(paragraph_md(*p))));
                append_segment(text, indices, h.as_str());
            } else {
                proof {
                    lemma_appended_refl(text@, indices@);
                }
            }
        },
        SectionPart::Cite(c) => {
            process_cite(c, text, indices);
        },
        SectionPart::Poem(poem) => {
            process_poem(poem, text, indices);
        },
        SectionPart::Image => {
            proof {
                lemma_appended_refl(text@, indices@);
            }
        },
        SectionPart::Table => {
            proof {
                lemma_appended_refl(text@, indices@);
            }
        },
        SectionPart::EmptyLine => {
            proof {
                lemma_appended_refl(text@, indices@);
            }
        },
    }
}

/// The text and segment ranges of a sequence of section blocks.
pub fn process_section_parts(parts: &Vec<SectionPart>) -> (r: (String, Vec<(usize, usize)>))
    ensures
        appended(Seq::empty(), Seq::empty(), r.0@, r.1@, parts_segments(parts@)),
{
    let mut text = String::new();
    let mut indices: Vec<(usize, usize)> = Vec::new();
    proof {
        lemma_appended_refl(text@, indices@);
    }
    let n = parts.len();
    for k in 0..n
        invariant
            n == parts@.len(),
            appended(Seq::empty(), Seq::empty(), text@, indices@, parts_segments(parts@.subrange(0, k as int))),
    {
        let ghost prefix = parts@.subrange(0, k + 1);
        assert(prefix.drop_last() == parts@.subrange(0, k as int));
        assert(prefix.last() == parts@[k as int]);
        let ghost t1 = text@;
        let ghost i1 = indices@;
        process_section_part(&parts[k], &mut text, &mut indices);
        proof {
            lemma_appended_trans(
                Seq::empty(),
                Seq::empty(),
                t1,
                i1,
                text@,
                indices@,
                parts_segments(parts@.subrange(0, k as int)),
                part_segments(parts@[k as int]),
            );
        }
    }
    assert(parts@.subrange(0, n as int) == parts@);
    (text, indices)
}

} // verus!
