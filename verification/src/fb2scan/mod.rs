//! Splitting an FB2 book into sections of Markdown text, each with its
//! title, its paragraphs (segments) and the language detected in its text.
pub mod book;
pub mod markdown;
pub mod segments;
pub mod laws;
pub mod parse;
pub mod rendering_laws;

use vstd::prelude::*;
use crate::text::{concat, views, to_string};
use book::{Book, BookSection, SectionContent};
use parse::{parsed_fb2, parse_fb2};
use markdown::{title_text, title_to_text};
use segments::{parts_segments, pars_of, well_segmented, appended, process_section_parts, spans,
    segment_ranges, byte_count, lemma_concat_split, lemma_encode_concat, lemma_char_boundary_concat,
    lemma_ranges_select};
use vstd::utf8::{encode_utf8, encode_utf8_decode_utf8};

verus! {

/// The name of the language that `whatlang` detects in a text, if any.
pub uninterp spec fn detected_language(text: Seq<char>) -> Option<Seq<char>>;

/// The view of an optional string.
pub open spec fn opt_view(o: Option<String>) -> Option<Seq<char>> {
    match o {
        Some(s) => Some(s@),
        None => None,
    }
}

/// The view of an optional string slice.
pub open spec fn opt_str_view(o: Option<&str>) -> Option<Seq<char>> {
    match o {
        Some(s) => Some(s@),
        None => None,
    }
}

/// `whatlang::detect`, and the English name of the language it finds.
#[verifier::external_body]
fn detect_language(text: &str) -> (r: Option<String>)
    ensures
        opt_view(r) == detected_language(text@),
{
    whatlang::detect(text).map(|info| info.lang().eng_name().to_string())
}

/// What a section holds: its title, its text, the text's segments, which
/// make up the text in order, and the language detected in the text.
pub struct SectionView {
    pub title: Option<Seq<char>>,
    pub text: Seq<char>,
    pub pars: Seq<Seq<char>>,
    pub language: Option<Seq<char>>,
}

/// A section of the book, rendered as Markdown text.
pub struct Section {
    title: Option<String>,
    text: String,
    language: Option<String>,
    segment_indices: Vec<(usize, usize)>,
}

impl Section {
    #[verifier::type_invariant]
    spec fn segments_valid(self) -> bool {
        well_segmented(self.text@, self.segment_indices@)
    }
}

impl View for Section {
    type V = SectionView;

    closed spec fn view(&self) -> SectionView {
        SectionView {
            title: opt_view(self.title),
            text: self.text@,
            pars: pars_of(self.text@, self.segment_indices@),
            language: opt_view(self.language),
        }
    }
}

/// The title of a section's content: the title's text when it is not empty.
pub open spec fn content_title(c: SectionContent) -> Option<Seq<char>> {
    match c.title {
        Some(t) => if title_text(t).len() == 0 {
            None
        } else {
            Some(title_text(t))
        },
        None => None,
    }
}

/// The section that a section's own content (without its subsections) gives.
pub open spec fn content_section(c: SectionContent) -> SectionView {
    let segs = parts_segments(c.parts@);
    SectionView {
        title: content_title(c),
        text: concat(segs),
        pars: segs,
        language: detected_language(concat(segs)),
    }
}

/// A section's content gives a section when it has text or a title.
pub open spec fn content_emitted(c: SectionContent) -> bool {
    concat(parts_segments(c.parts@)).len() > 0 || content_title(c) is Some
}

/// The sections of a book section, flattened in document order: the section
/// itself, when it has text or a title, then those of its subsections.
pub open spec fn sections_of(s: BookSection) -> Seq<SectionView>
    decreases s,
{
    match s.content {
        None => Seq::empty(),
        Some(c) => (if content_emitted(c) {
            seq![content_section(c)]
        } else {
            Seq::empty()
        }) + sections_list(c.sections@),
    }
}

pub open spec fn sections_list(ss: Seq<BookSection>) -> Seq<SectionView>
    decreases ss,
{
    if ss.len() == 0 {
        Seq::empty()
    } else {
        sections_list(ss.subrange(0, ss.len() - 1)) + sections_of(ss[ss.len() - 1])
    }
}

/// The sections of a book: those of the sections of every unnamed body, in
/// order; named bodies (notes, comments) are skipped.
pub open spec fn book_sections(bodies: Seq<book::Body>) -> Seq<SectionView>
    decreases bodies.len(),
{
    if bodies.len() == 0 {
        Seq::empty()
    } else {
        let rest = book_sections(bodies.drop_last());
        if bodies.last().name is Some {
            rest
        } else {
            rest + sections_list(bodies.last().sections@)
        }
    }
}

/// The views of a sequence of sections.
pub open spec fn section_views(ss: Seq<Section>) -> Seq<SectionView> {
    ss.map_values(|s: Section| s@)
}

impl Section {
    /// The section's title, when it has one.
    pub fn title(&self) -> (r: Option<&str>)
        ensures
            opt_str_view(r) == self@.title,
    {
        match &self.title {
            Some(t) => Some(t.as_str()),
            None => None,
        }
    }

    /// The section's Markdown text.
    pub fn text(&self) -> (r: &str)
        ensures
            r@ == self@.text,
    {
        self.text.as_str()
    }

    /// The section's segments, in order; together they make up the text.
    pub fn pars(&self) -> (r: Vec<&str>)
        ensures
            r@.map_values(|p: &str| p@) == self@.pars,
            concat(self@.pars) == self@.text,
    {
        proof {
            use_type_invariant(self);
        }
        let mut r: Vec<&str> = Vec::new();
        let n = self.segment_indices.len();
        let ghost pars = pars_of(self.text@, self.segment_indices@);
        for i in 0..n
            invariant
                n == self.segment_indices@.len(),
                pars == pars_of(self.text@, self.segment_indices@),
                well_segmented(self.text@, self.segment_indices@),
                r@.map_values(|p: &str| p@) == pars.subrange(0, i as int),
        {
            let (start, end) = self.segment_indices[i];
            let ghost a = concat(pars.subrange(0, i as int));
            let ghost b = pars[i as int];
            let ghost c = concat(pars.subrange(i + 1, pars.len() as int));
            proof {
                assert(spans(self.segment_indices@).len() == n);
                assert(segment_ranges(Seq::empty(), pars)[i as int] == spans(self.segment_indices@)[i as int]);
                lemma_concat_split(pars, i as int);
                assert(Seq::<char>::empty() + a == a);
                assert(Seq::<char>::empty() + (a + b) == a + b);
                assert(start == byte_count(a));
                assert(end == byte_count(a + b));
                lemma_encode_concat(a, b);
                lemma_encode_concat(a, b + c);
                lemma_char_boundary_concat(a, b + c);
                lemma_char_boundary_concat(b, c);
            }
            let (_, rest) = self.text.as_str().split_at(start);
            proof {
                assert(encode_utf8(rest@) == encode_utf8(b + c));
                encode_utf8_decode_utf8(rest@);
                encode_utf8_decode_utf8(b + c);
                assert(rest@ == b + c);
                lemma_encode_concat(b, c);
            }
            let (piece, _) = rest.split_at(end - start);
            proof {
                assert(encode_utf8(piece@) == encode_utf8(b));
                encode_utf8_decode_utf8(piece@);
                encode_utf8_decode_utf8(b);
            }
            let ghost before = r@;
            r.push(piece);
            assert(r@.map_values(|p: &str| p@) == before.map_values(|p: &str| p@).push(piece@));
            assert(pars.subrange(0, i + 1) == pars.subrange(0, i as int).push(b));
        }
        assert(pars.subrange(0, n as int) == pars);
        r
    }

    /// The English name of the language detected in the section's text.
    pub fn language(&self) -> (r: Option<&str>)
        ensures
            opt_str_view(r) == self@.language,
    {
        match &self.language {
            Some(l) => Some(l.as_str()),
            None => None,
        }
    }
}

/// Appends the sections of `fb2_section` and of all its subsections to `out`.
pub fn collect_sections(fb2_section: &BookSection, out: &mut Vec<Section>)
    ensures
        section_views(final(out)@) == section_views(old(out)@) + sections_of(*fb2_section),
    decreases fb2_section,
{
    let ghost out0 = out@;
    match &fb2_section.content {
        None => {
            assert(section_views(out@) == section_views(out0) + Seq::<SectionView>::empty());
        },
        Some(content) => {
            let title = match &content.title {
                Some(t) => {
                    let s = title_to_text(t);
                    if s.as_str().is_empty() {
                        None
                    } else {
                        Some(s)
                    }
                },
                None => None,
            };
            assert(opt_view(title) == content_title(*content));
            let (text, segment_indices) = process_section_parts(&content.parts);
            proof {
                let segs = parts_segments(content.parts@);
                assert(Seq::<char>::empty() + concat(segs) == concat(segs));
                assert(Seq::<(int, int)>::empty() + segment_ranges(Seq::empty(), segs) == segment_ranges(
                    Seq::empty(),
                    segs,
                ));
                assert(spans(Seq::<(usize, usize)>::empty()) == Seq::<(int, int)>::empty());
                lemma_ranges_select(segs, segment_indices@);
            }
            let ghost own: Seq<SectionView> = if content_emitted(*content) {
                seq![content_section(*content)]
            } else {
                Seq::empty()
            };
            if !text.as_str().is_empty() || title.is_some() {
                let language = detect_language(text.as_str());
                let section = Section { title, text, language, segment_indices };
                assert(section@ == content_section(*content));
                out.push(section);
                assert(section_views(out@) == section_views(out0) + own);
            } else {
                assert(section_views(out@) == section_views(out0) + own);
            }
            let n = content.sections.len();
            for k in 0..n
                invariant
                    n == content.sections@.len(),
                    fb2_section.content == Some(*content),
                    section_views(out@) == section_views(out0) + own + sections_list(
                        content.sections@.subrange(0, k as int),
                    ),
            {
                let ghost before = section_views(out@);
                let ghost prefix = content.sections@.subrange(0, k + 1);
                assert(prefix.subrange(0, k as int) == content.sections@.subrange(0, k as int));
                assert(prefix[k as int] == content.sections@[k as int]);
                proof {
                    let c = fb2_section.content->0;
                    assert(decreases_to!(*fb2_section => fb2_section.content));
                    assert(decreases_to!(fb2_section.content => c));
                    assert(decreases_to!(c => c.sections));
                    assert(decreases_to!(c.sections => c.sections@));
                    assert(decreases_to!(c.sections@ => c.sections@[k as int]));
                    assert(decreases_to!(*fb2_section => content.sections@[k as int]));
                }
                collect_sections(&content.sections[k], out);
            }
            assert(content.sections@.subrange(0, n as int) == content.sections@);
        },
    }
}

/// An FB2 document could not be read as a book.
#[derive(Debug)]
pub struct Fb2ParseError;

impl Fb2ParseError {
    /// The message that reports the error.
    pub fn message(&self) -> (r: String)
        ensures
            r@ == "Failed to parse FB2"@,
    {
        to_string("Failed to parse FB2")
    }
}

/// The sections found in an FB2 book, in document order.
pub struct Fb2Scan {
    sections: Vec<Section>,
}

impl View for Fb2Scan {
    type V = Seq<SectionView>;

    closed spec fn view(&self) -> Seq<SectionView> {
        section_views(self.sections@)
    }
}

impl Fb2Scan {
    /// The sections of the book, in document order.
    pub fn sections(&self) -> (r: &[Section])
        ensures
            section_views(r@) == self@,
    {
        self.sections.as_slice()
    }

    /// Reads an FB2 document and scans it; fails exactly when the document
    /// cannot be read as an FB2 book.
    pub fn from_text(xml: &str) -> (r: Result<Fb2Scan, Fb2ParseError>)
        ensures
            parsed_fb2(xml@) is None ==> r is Err,
            parsed_fb2(xml@) matches Some(book) ==> (r matches Ok(s) && s@ == book_sections(book.bodies@)),
    {
        match parse_fb2(xml) {
            Some(book) => Ok(Fb2Scan::from_book(book)),
            None => Err(Fb2ParseError),
        }
    }

    /// Scans a parsed book: every section with text or a title, from the
    /// unnamed bodies, in document order, subsections after their parent.
    pub fn from_book(book: Book) -> (r: Fb2Scan)
        ensures
            r@ == book_sections(book.bodies@),
    {
        let mut sections: Vec<Section> = Vec::new();
        let n = book.bodies.len();
        for b in 0..n
            invariant
                n == book.bodies@.len(),
                section_views(sections@) == book_sections(book.bodies@.subrange(0, b as int)),
        {
            let ghost prefix = book.bodies@.subrange(0, b + 1);
            assert(prefix.drop_last() == book.bodies@.subrange(0, b as int));
            assert(prefix.last() == book.bodies@[b as int]);
            let body = &book.bodies[b];
            if body.name.is_none() {
                let ghost start = section_views(sections@);
                let m = body.sections.len();
                for k in 0..m
                    invariant
                        m == body.sections@.len(),
                        section_views(sections@) == start + sections_list(
                            body.sections@.subrange(0, k as int),
                        ),
                {
                    let ghost inner = body.sections@.subrange(0, k + 1);
                    assert(inner.subrange(0, k as int) == body.sections@.subrange(0, k as int));
                    assert(inner[k as int] == body.sections@[k as int]);
                    collect_sections(&body.sections[k], &mut sections);
                }
                assert(body.sections@.subrange(0, m as int) == body.sections@);
            }
        }
        assert(book.bodies@.subrange(0, n as int) == book.bodies@);
        Fb2Scan { sections }
    }
}

} // verus!
