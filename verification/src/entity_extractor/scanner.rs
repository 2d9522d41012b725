//! Frequency scan of capitalized words: candidate entity names found inside
//! sentences (with example sentences), two-word names, and the words seen
//! at the start of sentences, which are mostly not names.
use vstd::prelude::*;
use vstd::string::*;
use crate::text::{trimmed, trim, to_string, push_str};
use super::tables::{
    EntityEvidence, CandidateTable, BigramTable, WordSet, candidate_entries, bigram_counts,
    word_set, evidence_view,
};
use super::ranking::{ranked, rank_by_count};
use super::xml::{XmlEvent, xml_events, read_events};
use super::segmentation::{
    sentence_bounds, words_of, char_is_uppercase, str_views, split_sentences, unicode_words,
    is_uppercase, newlines_to_spaces, replace_newlines,
};

verus! {

/// How many candidates a report shows.
pub const REPORT_CANDIDATES: usize = 30;

/// How many two-word names a report shows.
pub const REPORT_BIGRAMS: usize = 20;

/// How many example sentences are kept per candidate.
pub const MAX_SNIPPETS: usize = 10;

/// The scanner's tables as plain values.
pub struct ScanState {
    pub candidates: Map<Seq<char>, (u32, Seq<Seq<char>>)>,
    pub bigrams: Map<Seq<char>, u32>,
    pub starters: Set<Seq<char>>,
}

/// `k` is a candidate seen at least `q` times that never started a sentence.
pub open spec fn is_top(st: ScanState, k: Seq<char>, q: u32) -> bool {
    &&& st.candidates.contains_key(k)
    &&& st.candidates[k].0 >= q
    &&& !st.starters.contains(k)
}

/// A word is capitalized when its first character is uppercase.
pub open spec fn capitalized(w: Seq<char>) -> bool {
    w.len() > 0 && char_is_uppercase(w[0])
}

/// The example kept for a sentence: line feeds become spaces, then trimmed.
pub open spec fn snippet_of(sentence: Seq<char>) -> Seq<char> {
    trimmed(newlines_to_spaces(sentence))
}

/// The evidence of `w`, or that of a word not seen yet.
pub open spec fn evidence_or_new(
    m: Map<Seq<char>, (u32, Seq<Seq<char>>)>,
    w: Seq<char>,
) -> (u32, Seq<Seq<char>>) {
    if m.contains_key(w) {
        m[w]
    } else {
        (0u32, Seq::empty())
    }
}

/// One more occurrence, keeping `snippet` while fewer than
/// `MAX_SNIPPETS` examples are kept.
pub open spec fn bump(ev: (u32, Seq<Seq<char>>), snippet: Seq<char>) -> (u32, Seq<Seq<char>>) {
    (
        (ev.0 + 1) as u32,
        if ev.1.len() < MAX_SNIPPETS {
            ev.1.push(snippet)
        } else {
            ev.1
        },
    )
}

/// Two words with a space between them.
pub open spec fn bigram(w: Seq<char>, next: Seq<char>) -> Seq<char> {
    w + seq![' '] + next
}

pub open spec fn count_or_zero(m: Map<Seq<char>, u32>, k: Seq<char>) -> u32 {
    if m.contains_key(k) {
        m[k]
    } else {
        0
    }
}

/// The effect of the `i`-th word of a sentence: a capitalized first word is
/// recorded as a sentence starter; a capitalized word further on is a
/// candidate, with one more occurrence and the sentence as example, and when
/// the next word is capitalized too, the pair is counted as a two-word name.
pub open spec fn scan_word(st: ScanState, sentence: Seq<char>, words: Seq<Seq<char>>, i: int) -> ScanState {
    let w = words[i];
    if !capitalized(w) {
        st
    } else if i == 0 {
        ScanState { candidates: st.candidates, bigrams: st.bigrams, starters: st.starters.insert(w) }
    } else {
        let candidates = st.candidates.insert(
            w,
            bump(evidence_or_new(st.candidates, w), snippet_of(sentence)),
        );
        let bigrams = if i + 1 < words.len() && capitalized(words[i + 1]) {
            let b = bigram(w, words[i + 1]);
            st.bigrams.insert(b, (count_or_zero(st.bigrams, b) + 1) as u32)
        } else {
            st.bigrams
        };
        ScanState { candidates, bigrams, starters: st.starters }
    }
}

/// The effect of the first `n` words of a sentence.
pub open spec fn scan_words(st: ScanState, sentence: Seq<char>, words: Seq<Seq<char>>, n: int) -> ScanState
    decreases n,
{
    if n <= 0 {
        st
    } else {
        scan_word(scan_words(st, sentence, words, n - 1), sentence, words, n - 1)
    }
}

/// The effect of a sequence of sentences, each split into its words.
pub open spec fn scan_sentences(st: ScanState, sentences: Seq<Seq<char>>) -> ScanState
    decreases sentences.len(),
{
    if sentences.len() == 0 {
        st
    } else {
        let s = sentences.last();
        scan_words(scan_sentences(st, sentences.drop_last()), s, words_of(s), words_of(s).len() as int)
    }
}

/// The effect of a text: that of its sentences.
pub open spec fn scan_text(st: ScanState, text: Seq<char>) -> ScanState {
    scan_sentences(st, sentence_bounds(text))
}

/// Whether the `i`-th word of a sentence can be recorded without a count
/// growing past `u32::MAX`: a capitalized word inside the sentence adds one
/// to its own count and, when the next word is capitalized too, one to the
/// count of the pair.
pub open spec fn word_fits(st: ScanState, sentence: Seq<char>, words: Seq<Seq<char>>, i: int) -> bool {
    let w = words[i];
    capitalized(w) && i != 0 ==> {
        &&& evidence_or_new(st.candidates, w).0 < u32::MAX
        &&& (i + 1 < words.len() && capitalized(words[i + 1])) ==> count_or_zero(
            st.bigrams,
            bigram(w, words[i + 1]),
        ) < u32::MAX
    }
}

/// The first `n` words of a sentence recorded in order, stopping before the
/// first word whose count would overflow: the state reached, and whether all
/// `n` words were recorded.
pub open spec fn checked_words(st: ScanState, sentence: Seq<char>, words: Seq<Seq<char>>, n: int) -> (ScanState, bool)
    decreases n,
{
    if n <= 0 {
        (st, true)
    } else {
        let prev = checked_words(st, sentence, words, n - 1);
        if !prev.1 {
            prev
        } else if word_fits(prev.0, sentence, words, n - 1) {
            (scan_word(prev.0, sentence, words, n - 1), true)
        } else {
            (prev.0, false)
        }
    }
}

/// Sentences recorded in order, stopping before the first word whose count
/// would overflow.
pub open spec fn checked_sentences(st: ScanState, sentences: Seq<Seq<char>>) -> (ScanState, bool)
    decreases sentences.len(),
{
    if sentences.len() == 0 {
        (st, true)
    } else {
        let prev = checked_sentences(st, sentences.drop_last());
        if !prev.1 {
            prev
        } else {
            let s = sentences.last();
            checked_words(prev.0, s, words_of(s), words_of(s).len() as int)
        }
    }
}

/// A text scanned word by word, stopping before the first word whose count
/// would overflow: the state reached, and whether the whole text was scanned.
pub open spec fn checked_scan(st: ScanState, text: Seq<char>) -> (ScanState, bool) {
    checked_sentences(st, sentence_bounds(text))
}

/// Scanning `text` grows no count past `u32::MAX`.
pub open spec fn scan_fits(st: ScanState, text: Seq<char>) -> bool {
    checked_scan(st, text).1
}

/// Every candidate keeps as many examples as it has occurrences, up to
/// `MAX_SNIPPETS`.
pub open spec fn evidence_consistent(st: ScanState) -> bool {
    forall|k: Seq<char>| #[trigger]
        st.candidates.contains_key(k) ==> st.candidates[k].1.len() == if st.candidates[k].0
            < MAX_SNIPPETS {
            st.candidates[k].0 as int
        } else {
            MAX_SNIPPETS as int
        }
}

/// Candidates, two-word names and sentence starters are all capitalized.
pub open spec fn all_capitalized(st: ScanState) -> bool {
    &&& forall|k: Seq<char>| #[trigger] st.candidates.contains_key(k) ==> capitalized(k)
    &&& forall|k: Seq<char>| #[trigger] st.starters.contains(k) ==> capitalized(k)
}

/// The candidate names found in the text of a book, with their evidence.
pub struct EntityScanner {
    /// Words found inside sentences, with how often and where.
    pub candidates: CandidateTable,
    /// Two consecutive capitalized words inside sentences, with their counts.
    pub bigrams: BigramTable,
    /// Capitalized words seen at the start of a sentence.
    pub sentence_starters: WordSet,
}

impl View for EntityScanner {
    type V = ScanState;

    open spec fn view(&self) -> ScanState {
        ScanState {
            candidates: candidate_entries(self.candidates),
            bigrams: bigram_counts(self.bigrams),
            starters: word_set(self.sentence_starters),
        }
    }
}

/// Why a scan of an XML document stopped early.
#[derive(Debug, Clone, Copy, PartialEq, Eq, Structural)]
pub enum ScanError {
    /// The XML reader reported an error.
    Xml,
    /// Text inside a paragraph could not be decoded.
    Decode,
    /// A count would have grown past `u32::MAX`.
    Overflow,
}

/// The byte of the letter `p`.
pub const LETTER_P: u8 = 0x70;

/// Whether a tag name is `p`.
pub open spec fn is_paragraph_tag(name: Seq<u8>) -> bool {
    name == seq![LETTER_P]
}

/// The effect of one reader event on the scan: the state after it, whether
/// the scan is inside a paragraph afterwards, and the error that stops the
/// scan, if any. `<p>` opens a paragraph and `</p>` closes it; text inside a
/// paragraph is scanned (up to a word whose count would overflow) or, when
/// it could not be decoded, stops the scan; text outside paragraphs and all
/// other events are ignored.
pub open spec fn xml_step(st: ScanState, in_p: bool, e: XmlEvent) -> (ScanState, bool, Option<ScanError>) {
    match e {
        XmlEvent::Start(name) => (st, if is_paragraph_tag(name@) { true } else { in_p }, None),
        XmlEvent::End(name) => (st, if is_paragraph_tag(name@) { false } else { in_p }, None),
        XmlEvent::Text(t) => if !in_p {
            (st, in_p, None)
        } else {
            match t {
                None => (st, in_p, Some(ScanError::Decode)),
                Some(s) => if scan_fits(st, s@) {
                    (checked_scan(st, s@).0, true, None)
                } else {
                    (checked_scan(st, s@).0, true, Some(ScanError::Overflow))
                },
            }
        },
        XmlEvent::Other => (st, in_p, None),
    }
}

/// The effect of a sequence of reader events: the scan state where it ends,
/// and the error that stopped it, if any.
pub open spec fn xml_scan(st: ScanState, in_p: bool, events: Seq<XmlEvent>) -> (ScanState, Option<ScanError>)
    decreases events.len(),
{
    if events.len() == 0 {
        (st, None)
    } else {
        let step = xml_step(st, in_p, events[0]);
        if step.2 is Some {
            (step.0, step.2)
        } else {
            xml_scan(step.0, step.1, events.subrange(1, events.len() as int))
        }
    }
}

/// Whether the first character of `word` is uppercase.
pub fn starts_uppercase(word: &str) -> (r: bool)
    ensures
        r == capitalized(word@),
{
    if word.is_empty() {
        false
    } else {
        is_uppercase(word.get_char(0))
    }
}

impl EntityScanner {
    /// A scanner that has seen nothing.
    pub fn new() -> (r: EntityScanner)
        ensures
            r@.candidates.dom() == Set::<Seq<char>>::empty(),
            r@.bigrams.dom() == Set::<Seq<char>>::empty(),
            r@.starters == Set::<Seq<char>>::empty(),
            scan_invariant(r@),
    {
        proof {
            lemma_new_scanner_invariant(ScanState {
                candidates: Map::empty(),
                bigrams: Map::empty(),
                starters: Set::empty(),
            });
        }
        EntityScanner {
            candidates: CandidateTable::new(),
            bigrams: BigramTable::new(),
            sentence_starters: WordSet::new(),
        }
    }

    /// Records the `i`-th word of a sentence, unless a count it adds to is
    /// already `u32::MAX`; returns whether it did.
    fn scan_word_at(&mut self, sentence: &str, words: &Vec<&str>, i: usize) -> (r: bool)
        requires
            i < words@.len(),
        ensures
            r == word_fits(old(self)@, sentence@, str_views(words@), i as int),
            r ==> final(self)@ == scan_word(old(self)@, sentence@, str_views(words@), i as int),
            !r ==> final(self)@ == old(self)@,
            evidence_consistent(old(self)@) ==> evidence_consistent(final(self)@),
            all_capitalized(old(self)@) ==> all_capitalized(final(self)@),
    {
        let ghost st = self@;
        let ghost ws = str_views(words@);
        let word = words[i];
        assert(word@ == ws[i as int]);
        if !starts_uppercase(word) {
            return true;
        }
        if i == 0 {
            self.sentence_starters.insert(to_string(word));
            return true;
        }
        let seen: u32 = match self.candidates.get(word) {
            Some(e) => e.count,
            None => 0,
        };
        if seen == u32::MAX {
            return false;
        }
        let mut pair_count: Option<(String, u32)> = None;
        if i < words.len() - 1 {
            let next = words[i + 1];
            assert(next@ == ws[i + 1]);
            if starts_uppercase(next) {
                proof {
                    reveal_strlit(" ");
                }
                let mut pair = to_string(word);
                push_str(&mut pair, " ");
                push_str(&mut pair, next);
                assert(pair@ == bigram(word@, next@));
                let count = match self.bigrams.get(pair.as_str()) {
                    Some(c) => c,
                    None => 0,
                };
                if count == u32::MAX {
                    return false;
                }
                pair_count = Some((pair, count));
            }
        }
        let mut evidence = match self.candidates.remove(word) {
            Some(e) => e,
            None => EntityEvidence::new(),
        };
        assert(evidence_view(evidence) == evidence_or_new(st.candidates, word@));
        evidence.count = evidence.count + 1;
        if evidence.snippets.len() < MAX_SNIPPETS {
            let clean = replace_newlines(sentence);
            let snippet = to_string(trim(clean.as_str()));
            let ghost before = evidence.snippets@;
            evidence.snippets.push(snippet);
            assert(evidence.snippets@.map_values(|s: String| s@) == before.map_values(
                |s: String| s@,
            ).push(snippet@));
        }
        assert(evidence_view(evidence) == bump(evidence_or_new(st.candidates, word@), snippet_of(sentence@)));
        self.candidates.insert(to_string(word), evidence);
        assert(candidate_entries(self.candidates) == st.candidates.insert(
            word@,
            bump(evidence_or_new(st.candidates, word@), snippet_of(sentence@)),
        ));
        match pair_count {
            Some((pair, count)) => {
                self.bigrams.insert(pair, count + 1);
            },
            None => {},
        }
        true
    }

    /// Scans a text word by word, stopping before the first word whose count
    /// would overflow; returns whether the whole text was scanned.
    fn scan_checked(&mut self, text: &str) -> (r: bool)
        ensures
            (final(self)@, r) == checked_scan(old(self)@, text@),
            evidence_consistent(old(self)@) ==> evidence_consistent(final(self)@),
            all_capitalized(old(self)@) ==> all_capitalized(final(self)@),
    {
        let ghost st0 = self@;
        let ghost ss = sentence_bounds(text@);
        let sentences = split_sentences(text);
        let n = sentences.len();
        assert(ss.subrange(0, 0) == Seq::<Seq<char>>::empty());
        for si in 0..n
            invariant
                n == sentences@.len(),
                str_views(sentences@) == ss,
                ss == sentence_bounds(text@),
                st0 == old(self)@,
                checked_sentences(st0, ss.subrange(0, si as int)) == (self@, true),
                evidence_consistent(st0) ==> evidence_consistent(self@),
                all_capitalized(st0) ==> all_capitalized(self@),
        {
            let sentence = sentences[si];
            assert(sentence@ == ss[si as int]);
            let words = unicode_words(sentence);
            let ghost ws = str_views(words@);
            let ghost before = self@;
            let ghost prefix = ss.subrange(0, si + 1);
            assert(prefix.drop_last() == ss.subrange(0, si as int));
            assert(prefix.last() == ss[si as int]);
            let m = words.len();
            for i in 0..m
                invariant
                    m == words@.len(),
                    ws == str_views(words@),
                    ws == words_of(sentence@),
                    st0 == old(self)@,
                    ss == sentence_bounds(text@),
                    n == ss.len(),
                    si < n,
                    sentence@ == ss[si as int],
                    checked_sentences(st0, ss.subrange(0, si as int)) == (before, true),
                    checked_words(before, sentence@, ws, i as int) == (self@, true),
                    evidence_consistent(st0) ==> evidence_consistent(self@),
                    all_capitalized(st0) ==> all_capitalized(self@),
            {
                if !self.scan_word_at(sentence, &words, i) {
                    proof {
                        lemma_checked_words_stop(before, sentence@, ws, i as int + 1, m as int);
                        let pre = ss.subrange(0, si + 1);
                        assert(pre.drop_last() == ss.subrange(0, si as int));
                        assert(pre.last() == ss[si as int]);
                        assert(checked_sentences(st0, pre) == (self@, false));
                        lemma_checked_sentences_stop(st0, ss, si as int + 1);
                        assert(ss.subrange(0, ss.len() as int) == ss);
                    }
                    return false;
                }
            }
        }
        assert(ss.subrange(0, n as int) == ss);
        true
    }

    /// Scans a text: splits it into sentences and those into words, and
    /// records the capitalized words (see `scan_word`). No count may grow
    /// past `u32::MAX`.
    pub fn process_text(&mut self, text: &str)
        requires
            scan_fits(old(self)@, text@),
        ensures
            final(self)@ == scan_text(old(self)@, text@),
            evidence_consistent(old(self)@) ==> evidence_consistent(final(self)@),
            all_capitalized(old(self)@) ==> all_capitalized(final(self)@),
            scan_invariant(old(self)@) ==> scan_invariant(final(self)@) && grows(old(self)@, final(self)@),
    {
        let ghost st0 = self@;
        proof {
            lemma_checked_scan_complete(st0, text@);
            if scan_invariant(st0) {
                lemma_checked_scan_keeps_invariant(st0, text@);
            }
        }
        let _ = self.scan_checked(text);
    }

    /// Scans a text as `process_text` does, stopping before the first word
    /// whose count would grow past `u32::MAX`; returns whether the whole text
    /// was scanned. The words before the one that would overflow stay
    /// recorded.
    pub fn process_text_checked(&mut self, text: &str) -> (r: bool)
        ensures
            r == scan_fits(old(self)@, text@),
            final(self)@ == checked_scan(old(self)@, text@).0,
            r ==> final(self)@ == scan_text(old(self)@, text@),
            evidence_consistent(old(self)@) ==> evidence_consistent(final(self)@),
            all_capitalized(old(self)@) ==> all_capitalized(final(self)@),
            scan_invariant(old(self)@) ==> scan_invariant(final(self)@) && grows(old(self)@, final(self)@),
    {
        let ghost st0 = self@;
        proof {
            lemma_checked_scan_complete(st0, text@);
            if scan_invariant(st0) {
                lemma_checked_scan_keeps_invariant(st0, text@);
            }
        }
        self.scan_checked(text)
    }

    /// The candidates seen at least `q` times that never started a sentence,
    /// each once with its evidence, in the order the table yields them.
    pub fn get_top(&self, q: u32) -> (r: Vec<(&String, &EntityEvidence)>)
        ensures
            forall|i: int|
                #![trigger r@[i]]
                0 <= i < r@.len() ==> is_top(self@, r@[i].0@, q) && self@.candidates[r@[i].0@]
                    == evidence_view(*r@[i].1),
            forall|k: Seq<char>| #[trigger]
                is_top(self@, k, q) ==> exists|i: int| 0 <= i < r@.len() && (#[trigger] r@[i]).0@ == k,
            forall|i: int, j: int|
                0 <= i < r@.len() && 0 <= j < r@.len() && i != j ==> (#[trigger] r@[i]).0@ != (
                #[trigger] r@[j]).0@,
    {
        let all = self.candidates.entries();
        let mut r: Vec<(&String, &EntityEvidence)> = Vec::new();
        let ghost mut from: Seq<int> = Seq::empty();
        let n = all.len();
        for i in 0..n
            invariant
                n == all@.len(),
                forall|j: int|
                    #![trigger all@[j]]
                    0 <= j < all@.len() ==> candidate_entries(self.candidates).contains_key(all@[j].0@)
                        && candidate_entries(self.candidates)[all@[j].0@] == evidence_view(*all@[j].1),
                forall|a: int, b: int|
                    0 <= a < all@.len() && 0 <= b < all@.len() && a != b ==> (#[trigger] all@[a]).0@
                        != (#[trigger] all@[b]).0@,
                from.len() == r@.len(),
                forall|a: int|
                    #![trigger from[a]]
                    0 <= a < from.len() ==> 0 <= from[a] < i && r@[a] == all@[from[a]],
                forall|a: int, b: int| 0 <= a < b < from.len() ==> #[trigger] from[a] < #[trigger] from[b],
                forall|a: int| #![trigger r@[a]] 0 <= a < r@.len() ==> is_top(self@, r@[a].0@, q),
                forall|j: int|
                    #![trigger all@[j]]
                    0 <= j < i && is_top(self@, all@[j].0@, q) ==> exists|a: int|
                        0 <= a < from.len() && from[a] == j,
        {
            let entry = all[i];
            if entry.1.count >= q && !self.sentence_starters.contains(entry.0.as_str()) {
                assert(self@.candidates[all@[i as int].0@].0 == entry.1.count);
                r.push(entry);
                proof {
                    let old_from = from;
                    from = from.push(i as int);
                    assert forall|j: int|
                        #![trigger all@[j]]
                        0 <= j < i + 1 && is_top(self@, all@[j].0@, q) implies exists|a: int|
                            0 <= a < from.len() && from[a] == j by {
                        if j == i {
                            assert(from[from.len() - 1] == j);
                        } else {
                            let a = choose|a: int| 0 <= a < old_from.len() && old_from[a] == j;
                            assert(from[a] == j);
                        }
                    }
                }
            } else {
                proof {
                    if is_top(self@, all@[i as int].0@, q) {
                        assert(self@.candidates[all@[i as int].0@].0 == entry.1.count);
                    }
                }
            }
        }
        assert forall|i: int, j: int|
            0 <= i < r@.len() && 0 <= j < r@.len() && i != j implies (#[trigger] r@[i]).0@ != (
            #[trigger] r@[j]).0@ by {
            assert(from[i] != from[j]) by {
                if i < j {
                    assert(from[i] < from[j]);
                } else {
                    assert(from[j] < from[i]);
                }
            }
            assert(r@[i] == all@[from[i]]);
            assert(r@[j] == all@[from[j]]);
        }
        assert forall|k: Seq<char>| #[trigger]
            is_top(self@, k, q) implies exists|i: int| 0 <= i < r@.len() && (#[trigger] r@[i]).0@ == k by {
            let j = choose|j: int| 0 <= j < all@.len() && (#[trigger] all@[j]).0@ == k;
            let a = choose|a: int| 0 <= a < from.len() && from[a] == j;
            assert(r@[a] == all@[j]);
        }
        assert forall|i: int|
            #![trigger r@[i]]
            0 <= i < r@.len() implies self@.candidates[r@[i].0@] == evidence_view(*r@[i].1) by {
            assert(r@[i] == all@[from[i]]);
        }
        r
    }

    /// The candidates for a report: those of `get_top(min_freq)`, most
    /// frequent first, at most `REPORT_CANDIDATES`; any candidate left out
    /// is no more frequent than those shown.
    pub fn report_candidates(&self, min_freq: u32) -> (r: Vec<(&String, &EntityEvidence)>)
        ensures
            r@.len() <= REPORT_CANDIDATES,
            forall|i: int|
                #![trigger r@[i]]
                0 <= i < r@.len() ==> is_top(self@, r@[i].0@, min_freq) && self@.candidates[r@[i].0@]
                    == evidence_view(*r@[i].1),
            forall|i: int, j: int|
                0 <= i < j < r@.len() ==> (#[trigger] r@[i]).0@ != (#[trigger] r@[j]).0@
                    && r@[i].1.count >= r@[j].1.count,
            r@.len() < REPORT_CANDIDATES ==> forall|k: Seq<char>| #[trigger]
                is_top(self@, k, min_freq) ==> exists|i: int| 0 <= i < r@.len() && (#[trigger] r@[i]).0@ == k,
            forall|k: Seq<char>, i: int|
                #![trigger is_top(self@, k, min_freq), r@[i]]
                is_top(self@, k, min_freq) && 0 <= i < r@.len() && (forall|j: int|
                    0 <= j < r@.len() ==> (#[trigger] r@[j]).0@ != k) ==> self@.candidates[k].0
                    <= r@[i].1.count,
    {
        let top = self.get_top(min_freq);
        let n = top.len();
        let mut counts: Vec<u32> = Vec::new();
        for i in 0..n
            invariant
                n == top@.len(),
                counts@.len() == i,
                forall|j: int| 0 <= j < i ==> #[trigger] counts@[j] == top@[j].1.count,
        {
            counts.push(top[i].1.count);
        }
        let ranks = rank_by_count(&counts, REPORT_CANDIDATES);
        let mut r: Vec<(&String, &EntityEvidence)> = Vec::new();
        let m = ranks.len();
        for i in 0..m
            invariant
                m == ranks@.len(),
                n == top@.len(),
                counts@.len() == n,
                ranked(counts@, ranks@, REPORT_CANDIDATES as nat),
                r@.len() == i,
                forall|j: int| 0 <= j < i ==> #[trigger] r@[j] == top@[ranks@[j] as int],
        {
            r.push(top[ranks[i]]);
        }
        proof {
            assert forall|i: int|
                #![trigger r@[i]]
                0 <= i < r@.len() implies is_top(self@, r@[i].0@, min_freq) && self@.candidates[r@[i].0@]
                == evidence_view(*r@[i].1) by {
                assert(r@[i] == top@[ranks@[i] as int]);
            }
            assert forall|i: int, j: int| 0 <= i < j < r@.len() implies (#[trigger] r@[i]).0@ != (
            #[trigger] r@[j]).0@ && r@[i].1.count >= r@[j].1.count by {
                assert(r@[i] == top@[ranks@[i] as int]);
                assert(r@[j] == top@[ranks@[j] as int]);
                assert(ranks@[i] != ranks@[j]);
                assert(counts@[ranks@[i] as int] >= counts@[ranks@[j] as int]);
            }
            if r@.len() < REPORT_CANDIDATES {
                assert forall|k: Seq<char>| #[trigger]
                    is_top(self@, k, min_freq) implies exists|i: int| 0 <= i < r@.len() && (
                    #[trigger] r@[i]).0@ == k by {
                    let t = choose|t: int| 0 <= t < top@.len() && (#[trigger] top@[t]).0@ == k;
                    assert(ranks@.contains(t as usize));
                    let i = choose|i: int| 0 <= i < ranks@.len() && ranks@[i] == t as usize;
                    assert(r@[i] == top@[t]);
                }
            }
            assert forall|k: Seq<char>, i: int|
                #![trigger is_top(self@, k, min_freq), r@[i]]
                is_top(self@, k, min_freq) && 0 <= i < r@.len() && (forall|j: int|
                    0 <= j < r@.len() ==> (#[trigger] r@[j]).0@ != k) implies self@.candidates[k].0
                <= r@[i].1.count by {
                let t = choose|t: int| 0 <= t < top@.len() && (#[trigger] top@[t]).0@ == k;
                if ranks@.contains(t as usize) {
                    let j = choose|j: int| 0 <= j < ranks@.len() && ranks@[j] == t as usize;
                    assert(r@[j] == top@[t]);
                    assert(r@[j].0@ == k);
                }
                assert(!ranks@.contains(t as usize));
                assert(counts@[t] <= counts@[ranks@[i] as int]);
                assert(r@[i] == top@[ranks@[i] as int]);
            }
        }
        r
    }

    /// The two-word names for a report: those seen at least `min_freq`
    /// times, most frequent first, at most `REPORT_BIGRAMS`; any name left out
    /// is no more frequent than those shown.
    pub fn report_bigrams(&self, min_freq: u32) -> (r: Vec<(&String, u32)>)
        ensures
            r@.len() <= REPORT_BIGRAMS,
            forall|i: int|
                #![trigger r@[i]]
                0 <= i < r@.len() ==> self@.bigrams.contains_key(r@[i].0@) && self@.bigrams[r@[i].0@]
                    == r@[i].1 && r@[i].1 >= min_freq,
            forall|i: int, j: int|
                0 <= i < j < r@.len() ==> (#[trigger] r@[i]).0@ != (#[trigger] r@[j]).0@ && r@[i].1
                    >= r@[j].1,
            r@.len() < REPORT_BIGRAMS ==> forall|k: Seq<char>| #[trigger]
                self@.bigrams.contains_key(k) && self@.bigrams[k] >= min_freq ==> exists|i: int|
                    0 <= i < r@.len() && (#[trigger] r@[i]).0@ == k,
            forall|k: Seq<char>, i: int|
                #![trigger self@.bigrams.contains_key(k), r@[i]]
                self@.bigrams.contains_key(k) && self@.bigrams[k] >= min_freq && 0 <= i < r@.len()
                    && (forall|j: int| 0 <= j < r@.len() ==> (#[trigger] r@[j]).0@ != k)
                    ==> self@.bigrams[k] <= r@[i].1,
    {
        let all = self.bigrams.entries();
        let mut frequent: Vec<(&String, u32)> = Vec::new();
        let ghost mut from: Seq<int> = Seq::empty();
        let n = all.len();
        for i in 0..n
            invariant
                n == all@.len(),
                forall|j: int|
                    #![trigger all@[j]]
                    0 <= j < all@.len() ==> self@.bigrams.contains_key(all@[j].0@) && self@.bigrams[all@[j].0@]
                        == all@[j].1,
                forall|a: int, b: int|
                    0 <= a < all@.len() && 0 <= b < all@.len() && a != b ==> (#[trigger] all@[a]).0@
                        != (#[trigger] all@[b]).0@,
                from.len() == frequent@.len(),
                forall|a: int|
                    #![trigger from[a]]
                    0 <= a < from.len() ==> 0 <= from[a] < i && frequent@[a] == all@[from[a]]
                        && all@[from[a]].1 >= min_freq,
                forall|a: int, b: int| 0 <= a < b < from.len() ==> #[trigger] from[a] < #[trigger] from[b],
                forall|j: int|
                    #![trigger all@[j]]
                    0 <= j < i && all@[j].1 >= min_freq ==> exists|a: int|
                        0 <= a < from.len() && from[a] == j,
        {
            if all[i].1 >= min_freq {
                frequent.push(all[i]);
                proof {
                    let old_from = from;
                    from = from.push(i as int);
                    assert forall|j: int|
                        #![trigger all@[j]]
                        0 <= j < i + 1 && all@[j].1 >= min_freq implies exists|a: int|
                            0 <= a < from.len() && from[a] == j by {
                        if j == i {
                            assert(from[from.len() - 1] == j);
                        } else {
                            let a = choose|a: int| 0 <= a < old_from.len() && old_from[a] == j;
                            assert(from[a] == j);
                        }
                    }
                }
            }
        }
        proof {
            assert forall|a: int| #![trigger frequent@[a]] 0 <= a < frequent@.len() implies frequent@[a].1
                >= min_freq && self@.bigrams.contains_key(frequent@[a].0@) && self@.bigrams[frequent@[a].0@]
                == frequent@[a].1 by {
                assert(frequent@[a] == all@[from[a]]);
            }
            assert forall|a: int, b: int|
                0 <= a < b < frequent@.len() implies (#[trigger] frequent@[a]).0@ != (#[trigger] frequent@[b]).0@ by {
                assert(from[a] < from[b]);
                assert(frequent@[a] == all@[from[a]]);
                assert(frequent@[b] == all@[from[b]]);
            }
        }
        let m = frequent.len();
        let mut counts: Vec<u32> = Vec::new();
        for i in 0..m
            invariant
                m == frequent@.len(),
                counts@.len() == i,
                forall|j: int| 0 <= j < i ==> #[trigger] counts@[j] == frequent@[j].1,
        {
            counts.push(frequent[i].1);
        }
        let ranks = rank_by_count(&counts, REPORT_BIGRAMS);
        let mut r: Vec<(&String, u32)> = Vec::new();
        let c = ranks.len();
        for i in 0..c
            invariant
                c == ranks@.len(),
                m == frequent@.len(),
                counts@.len() == m,
                ranked(counts@, ranks@, REPORT_BIGRAMS as nat),
                r@.len() == i,
                forall|j: int| 0 <= j < i ==> #[trigger] r@[j] == frequent@[ranks@[j] as int],
        {
            r.push(frequent[ranks[i]]);
        }
        proof {
            assert forall|i: int, j: int| 0 <= i < j < r@.len() implies (#[trigger] r@[i]).0@ != (
            #[trigger] r@[j]).0@ && r@[i].1 >= r@[j].1 by {
                assert(r@[i] == frequent@[ranks@[i] as int]);
                assert(r@[j] == frequent@[ranks@[j] as int]);
                assert(ranks@[i] != ranks@[j]);
                assert(counts@[ranks@[i] as int] >= counts@[ranks@[j] as int]);
            }
            assert forall|i: int|
                #![trigger r@[i]]
                0 <= i < r@.len() implies self@.bigrams.contains_key(r@[i].0@) && self@.bigrams[r@[i].0@]
                == r@[i].1 && r@[i].1 >= min_freq by {
                assert(r@[i] == frequent@[ranks@[i] as int]);
            }
            if r@.len() < REPORT_BIGRAMS {
                assert forall|k: Seq<char>| #[trigger]
                    self@.bigrams.contains_key(k) && self@.bigrams[k] >= min_freq implies exists|i: int|
                    0 <= i < r@.len() && (#[trigger] r@[i]).0@ == k by {
                    let t = choose|t: int| 0 <= t < all@.len() && (#[trigger] all@[t]).0@ == k;
                    let a = choose|a: int| 0 <= a < from.len() && from[a] == t;
                    assert(frequent@[a] == all@[t]);
                    assert(ranks@.contains(a as usize));
                    let i = choose|i: int| 0 <= i < ranks@.len() && ranks@[i] == a as usize;
                    assert(r@[i] == frequent@[a]);
                }
            }
            assert forall|k: Seq<char>, i: int|
                #![trigger self@.bigrams.contains_key(k), r@[i]]
                self@.bigrams.contains_key(k) && self@.bigrams[k] >= min_freq && 0 <= i < r@.len()
                    && (forall|j: int| 0 <= j < r@.len() ==> (#[trigger] r@[j]).0@ != k) implies self@.bigrams[k]
                <= r@[i].1 by {
                let t = choose|t: int| 0 <= t < all@.len() && (#[trigger] all@[t]).0@ == k;
                let a = choose|a: int| 0 <= a < from.len() && from[a] == t;
                assert(frequent@[a] == all@[t]);
                if ranks@.contains(a as usize) {
                    let j = choose|j: int| 0 <= j < ranks@.len() && ranks@[j] == a as usize;
                    assert(r@[j] == frequent@[a]);
                    assert(r@[j].0@ == k);
                }
                assert(!ranks@.contains(a as usize));
                assert(counts@[a] <= counts@[ranks@[i] as int]);
                assert(r@[i] == frequent@[ranks@[i] as int]);
            }
        }
        r
    }

    /// Scans the paragraphs of an XML document: reads its events and scans
    /// the text inside `<p>` tags. Stops at the first error of the reader, at
    /// text inside a paragraph that cannot be decoded, or when a count would
    /// overflow; what was scanned before stays scanned.
    pub fn scan_xml(&mut self, xml: &[u8]) -> (r: Result<(), ScanError>)
        ensures
            final(self)@ == xml_scan(old(self)@, false, xml_events(xml@).0).0,
            r == match xml_scan(old(self)@, false, xml_events(xml@).0).1 {
                Some(err) => Err::<(), ScanError>(err),
                None => if xml_events(xml@).1 {
                    Err::<(), ScanError>(ScanError::Xml)
                } else {
                    Ok::<(), ScanError>(())
                },
            },
            evidence_consistent(old(self)@) ==> evidence_consistent(final(self)@),
            all_capitalized(old(self)@) ==> all_capitalized(final(self)@),
            scan_invariant(old(self)@) ==> scan_invariant(final(self)@) && grows(old(self)@, final(self)@),
    {
        let (events, failed) = read_events(xml);
        proof {
            if scan_invariant(self@) {
                lemma_xml_scan_keeps_invariant(self@, false, events@);
            }
        }
        let ghost evs = events@;
        let ghost st0 = self@;
        let mut in_p = false;
        let n = events.len();
        assert(evs.subrange(0, n as int) == evs);
        for i in 0..n
            invariant
                n == events@.len(),
                evs == events@,
                evs == xml_events(xml@).0,
                st0 == old(self)@,
                scan_invariant(st0) ==> scan_invariant(xml_scan(st0, false, evs).0) && grows(
                    st0,
                    xml_scan(st0, false, evs).0,
                ),
                xml_scan(st0, false, evs) == xml_scan(self@, in_p, evs.subrange(i as int, n as int)),
                evidence_consistent(st0) ==> evidence_consistent(self@),
                all_capitalized(st0) ==> all_capitalized(self@),
        {
            let ghost rest = evs.subrange(i as int, n as int);
            let ghost before = self@;
            let ghost was_in_p = in_p;
            assert(rest[0] == evs[i as int]);
            assert(rest.subrange(1, rest.len() as int) == evs.subrange(i + 1, n as int));
            match &events[i] {
                XmlEvent::Start(name) => {
                    if name.len() == 1 && name[0] == LETTER_P {
                        assert(name@ == seq![LETTER_P]);
                        in_p = true;
                    }
                },
                XmlEvent::End(name) => {
                    if name.len() == 1 && name[0] == LETTER_P {
                        assert(name@ == seq![LETTER_P]);
                        in_p = false;
                    }
                },
                XmlEvent::Text(t) => {
                    if in_p {
                        match t {
                            None => {
                                assert(xml_scan(before, was_in_p, rest) == (before, Some(ScanError::Decode)));
                                assert(self@ == before);
                                assert(xml_scan(st0, false, evs) == (self@, Some(ScanError::Decode)));
                                return Err(ScanError::Decode);
                            },
                            Some(s) => {
                                if !self.process_text_checked(s.as_str()) {
                                    assert(xml_scan(before, was_in_p, rest) == (self@, Some(ScanError::Overflow)));
                                    return Err(ScanError::Overflow);
                                }
                            },
                        }
                    }
                },
                XmlEvent::Other => {},
            }
        }
        assert(evs.subrange(n as int, n as int).len() == 0);
        if failed {
            Err(ScanError::Xml)
        } else {
            Ok(())
        }
    }
}

/// Every candidate and every two-word name was seen at least once, and
/// every two-word name joins two capitalized words.
pub open spec fn counts_positive(st: ScanState) -> bool {
    &&& forall|k: Seq<char>| #[trigger] st.candidates.contains_key(k) ==> st.candidates[k].0 >= 1
    &&& forall|k: Seq<char>| #[trigger]
        st.bigrams.contains_key(k) ==> st.bigrams[k] >= 1 && exists|w: Seq<char>, n: Seq<char>|
            capitalized(w) && capitalized(n) && k == #[trigger] bigram(w, n)
}

/// What holds of every scanner state reachable from a new scanner: the
/// examples kept match the counts, all names are capitalized, and every
/// count is positive.
pub open spec fn scan_invariant(st: ScanState) -> bool {
    &&& evidence_consistent(st)
    &&& all_capitalized(st)
    &&& counts_positive(st)
}

/// `b` keeps everything `a` has: no candidate, two-word name or sentence
/// starter is dropped, and no count decreases.
pub open spec fn grows(a: ScanState, b: ScanState) -> bool {
    &&& forall|k: Seq<char>| #[trigger]
        a.candidates.contains_key(k) ==> b.candidates.contains_key(k) && b.candidates[k].0 >= a.candidates[k].0
    &&& forall|k: Seq<char>| #[trigger]
        a.bigrams.contains_key(k) ==> b.bigrams.contains_key(k) && b.bigrams[k] >= a.bigrams[k]
    &&& forall|k: Seq<char>| #[trigger] a.starters.contains(k) ==> b.starters.contains(k)
}

proof fn lemma_grows_trans(a: ScanState, b: ScanState, c: ScanState)
    requires
        grows(a, b),
        grows(b, c),
    ensures
        grows(a, c),
{
}

proof fn lemma_scan_word_invariant(st: ScanState, sentence: Seq<char>, words: Seq<Seq<char>>, i: int)
    requires
        0 <= i < words.len(),
        scan_invariant(st),
        word_fits(st, sentence, words, i),
    ensures
        scan_invariant(scan_word(st, sentence, words, i)),
        grows(st, scan_word(st, sentence, words, i)),
{
    let st2 = scan_word(st, sentence, words, i);
    let w = words[i];
    if capitalized(w) && i != 0 {
        if i + 1 < words.len() && capitalized(words[i + 1]) {
            let b = bigram(w, words[i + 1]);
            assert forall|k: Seq<char>| #[trigger] st2.bigrams.contains_key(k) implies st2.bigrams[k] >= 1
                && exists|x: Seq<char>, y: Seq<char>| capitalized(x) && capitalized(y) && k == #[trigger] bigram(x, y) by {
                if k == b {
                    assert(capitalized(w) && capitalized(words[i + 1]) && k == bigram(w, words[i + 1]));
                } else {
                    assert(st.bigrams.contains_key(k));
                }
            }
        }
        assert(counts_positive(st2));
        assert(evidence_consistent(st2));
    }
}

proof fn lemma_checked_words_invariant(st: ScanState, sentence: Seq<char>, words: Seq<Seq<char>>, n: int)
    requires
        n <= words.len(),
        scan_invariant(st),
    ensures
        scan_invariant(checked_words(st, sentence, words, n).0),
        grows(st, checked_words(st, sentence, words, n).0),
    decreases n,
{
    if n > 0 {
        lemma_checked_words_invariant(st, sentence, words, n - 1);
        let prev = checked_words(st, sentence, words, n - 1);
        if prev.1 && word_fits(prev.0, sentence, words, n - 1) {
            lemma_scan_word_invariant(prev.0, sentence, words, n - 1);
            lemma_grows_trans(st, prev.0, scan_word(prev.0, sentence, words, n - 1));
        }
    }
}

proof fn lemma_checked_sentences_invariant(st: ScanState, ss: Seq<Seq<char>>)
    requires
        scan_invariant(st),
    ensures
        scan_invariant(checked_sentences(st, ss).0),
        grows(st, checked_sentences(st, ss).0),
    decreases ss.len(),
{
    if ss.len() > 0 {
        lemma_checked_sentences_invariant(st, ss.drop_last());
        let prev = checked_sentences(st, ss.drop_last());
        if prev.1 {
            let s = ss.last();
            lemma_checked_words_invariant(prev.0, s, words_of(s), words_of(s).len() as int);
            lemma_grows_trans(st, prev.0, checked_sentences(st, ss).0);
        }
    }
}

/// A word that cannot be recorded stops the scan of its sentence: the
/// later words change nothing.
proof fn lemma_checked_words_stop(st: ScanState, sentence: Seq<char>, words: Seq<Seq<char>>, j: int, n: int)
    requires
        0 <= j <= n,
        !checked_words(st, sentence, words, j).1,
    ensures
        checked_words(st, sentence, words, n) == checked_words(st, sentence, words, j),
    decreases n - j,
{
    if n > j {
        lemma_checked_words_stop(st, sentence, words, j, n - 1);
    }
}

/// A sentence whose scan stopped stops the scan of the text.
proof fn lemma_checked_sentences_stop(st: ScanState, ss: Seq<Seq<char>>, k: int)
    requires
        0 <= k <= ss.len(),
        !checked_sentences(st, ss.subrange(0, k)).1,
    ensures
        checked_sentences(st, ss) == checked_sentences(st, ss.subrange(0, k)),
    decreases ss.len() - k,
{
    if ss.len() > k {
        assert(ss.drop_last().subrange(0, k) == ss.subrange(0, k));
        lemma_checked_sentences_stop(st, ss.drop_last(), k);
    } else {
        assert(ss.subrange(0, k) == ss);
    }
}

proof fn lemma_checked_words_complete(st: ScanState, sentence: Seq<char>, words: Seq<Seq<char>>, n: int)
    requires
        checked_words(st, sentence, words, n).1,
    ensures
        checked_words(st, sentence, words, n).0 == scan_words(st, sentence, words, n),
    decreases n,
{
    if n > 0 {
        lemma_checked_words_complete(st, sentence, words, n - 1);
    }
}

proof fn lemma_checked_sentences_complete(st: ScanState, ss: Seq<Seq<char>>)
    requires
        checked_sentences(st, ss).1,
    ensures
        checked_sentences(st, ss).0 == scan_sentences(st, ss),
    decreases ss.len(),
{
    if ss.len() > 0 {
        lemma_checked_sentences_complete(st, ss.drop_last());
        let s = ss.last();
        lemma_checked_words_complete(
            checked_sentences(st, ss.drop_last()).0,
            s,
            words_of(s),
            words_of(s).len() as int,
        );
    }
}

/// A scan that grows no count past `u32::MAX` is the whole scan of the text.
pub proof fn lemma_checked_scan_complete(st: ScanState, text: Seq<char>)
    ensures
        scan_fits(st, text) ==> checked_scan(st, text).0 == scan_text(st, text),
{
    if scan_fits(st, text) {
        lemma_checked_sentences_complete(st, sentence_bounds(text));
    }
}

/// Only `<p>` opens a paragraph: after an opening tag the scan is inside a
/// paragraph exactly when the tag is `p` or it already was; nothing is
/// scanned and nothing stops.
pub proof fn lemma_start_tag_step(st: ScanState, in_p: bool, name: Vec<u8>)
    ensures
        xml_step(st, in_p, XmlEvent::Start(name)).0 == st,
        xml_step(st, in_p, XmlEvent::Start(name)).1 == (in_p || name@ == seq![LETTER_P]),
        xml_step(st, in_p, XmlEvent::Start(name)).2 is None,
{
}

/// Only `</p>` leaves a paragraph: after a closing tag the scan is inside a
/// paragraph exactly when it was before and the tag is not `p`; nothing is
/// scanned and nothing stops.
pub proof fn lemma_end_tag_step(st: ScanState, in_p: bool, name: Vec<u8>)
    ensures
        xml_step(st, in_p, XmlEvent::End(name)).0 == st,
        xml_step(st, in_p, XmlEvent::End(name)).1 == (in_p && name@ != seq![LETTER_P]),
        xml_step(st, in_p, XmlEvent::End(name)).2 is None,
{
}

/// Text after inline markup inside a paragraph is still scanned: after
/// `<p>`, an inline tag (any name but `p`) and its closing tag, decoded text
/// that fits is scanned as `scan_text` does, and the scan goes on inside
/// the paragraph.
pub proof fn lemma_text_after_inline_markup(st: ScanState, inline: Vec<u8>, inline_end: Vec<u8>, p_tag: Vec<u8>, text: String)
    requires
        p_tag@ == seq![LETTER_P],
        inline@ != seq![LETTER_P],
        inline_end@ == inline@,
        scan_fits(st, text@),
    ensures
        xml_scan(
            st,
            false,
            seq![XmlEvent::Start(p_tag), XmlEvent::Start(inline), XmlEvent::End(inline_end), XmlEvent::Text(Some(text))],
        ) == (scan_text(st, text@), Option::<ScanError>::None),
{
    let evs = seq![XmlEvent::Start(p_tag), XmlEvent::Start(inline), XmlEvent::End(inline_end), XmlEvent::Text(Some(text))];
    let r1 = evs.subrange(1, 4);
    let r2 = r1.subrange(1, 3);
    let r3 = r2.subrange(1, 2);
    assert(r1[0] == XmlEvent::Start(inline));
    assert(r2[0] == XmlEvent::End(inline_end));
    assert(r3[0] == XmlEvent::Text(Some(text)));
    assert(r3.subrange(1, 1) == Seq::<XmlEvent>::empty());
    lemma_checked_scan_complete(st, text@);
    assert(xml_scan(checked_scan(st, text@).0, true, Seq::<XmlEvent>::empty()) == (
        checked_scan(st, text@).0,
        Option::<ScanError>::None,
    ));
    assert(xml_scan(st, true, r3) == (scan_text(st, text@), Option::<ScanError>::None));
    assert(!is_paragraph_tag(inline_end@));
    assert(xml_scan(st, true, r2) == xml_scan(st, true, r3));
    assert(xml_scan(st, true, r1) == xml_scan(st, true, r2));
    assert(xml_scan(st, false, evs) == xml_scan(st, true, r1));
}

proof fn lemma_scan_words_keeps_starters(st: ScanState, sentence: Seq<char>, words: Seq<Seq<char>>, n: int)
    ensures
        forall|k: Seq<char>| st.starters.contains(k) ==> #[trigger] scan_words(st, sentence, words, n).starters.contains(k),
    decreases n,
{
    if n > 0 {
        lemma_scan_words_keeps_starters(st, sentence, words, n - 1);
        let prev = scan_words(st, sentence, words, n - 1);
        assert forall|k: Seq<char>| st.starters.contains(k) implies #[trigger] scan_words(
            st,
            sentence,
            words,
            n,
        ).starters.contains(k) by {
            assert(prev.starters.contains(k));
            assert(scan_words(st, sentence, words, n) == scan_word(prev, sentence, words, n - 1));
        }
    }
}

proof fn lemma_first_word_recorded(st: ScanState, sentence: Seq<char>, words: Seq<Seq<char>>, n: int)
    requires
        1 <= n <= words.len(),
        capitalized(words[0]),
    ensures
        scan_words(st, sentence, words, n).starters.contains(words[0]),
    decreases n,
{
    if n > 1 {
        lemma_first_word_recorded(st, sentence, words, n - 1);
    } else {
        assert(scan_words(st, sentence, words, 0) == st);
    }
}

proof fn lemma_scan_sentences_keeps_starters(st: ScanState, ss: Seq<Seq<char>>)
    ensures
        forall|k: Seq<char>| st.starters.contains(k) ==> #[trigger] scan_sentences(st, ss).starters.contains(k),
    decreases ss.len(),
{
    if ss.len() > 0 {
        lemma_scan_sentences_keeps_starters(st, ss.drop_last());
        let prev = scan_sentences(st, ss.drop_last());
        let last = ss.last();
        lemma_scan_words_keeps_starters(prev, last, words_of(last), words_of(last).len() as int);
    }
}

proof fn lemma_sentence_starter_in_sentences(st: ScanState, ss: Seq<Seq<char>>, j: int)
    requires
        0 <= j < ss.len(),
        words_of(ss[j]).len() > 0,
        capitalized(words_of(ss[j])[0]),
    ensures
        scan_sentences(st, ss).starters.contains(words_of(ss[j])[0]),
    decreases ss.len(),
{
    let prev = scan_sentences(st, ss.drop_last());
    let last = ss.last();
    if j == ss.len() - 1 {
        lemma_first_word_recorded(prev, last, words_of(last), words_of(last).len() as int);
    } else {
        assert(ss.drop_last()[j] == ss[j]);
        lemma_sentence_starter_in_sentences(st, ss.drop_last(), j);
        lemma_scan_words_keeps_starters(prev, last, words_of(last), words_of(last).len() as int);
    }
}

/// Every capitalized word that starts a sentence of the text is recorded as
/// a sentence starter, whatever the scanner held before (also when the word
/// is already a candidate), so it is never a top candidate afterwards.
pub proof fn lemma_sentence_starters_recorded(st: ScanState, text: Seq<char>, j: int, q: u32)
    requires
        0 <= j < sentence_bounds(text).len(),
        words_of(sentence_bounds(text)[j]).len() > 0,
        capitalized(words_of(sentence_bounds(text)[j])[0]),
    ensures
        scan_text(st, text).starters.contains(words_of(sentence_bounds(text)[j])[0]),
        !is_top(scan_text(st, text), words_of(sentence_bounds(text)[j])[0], q),
{
    lemma_sentence_starter_in_sentences(st, sentence_bounds(text), j);
}

/// Scanning never forgets a sentence starter.
pub proof fn lemma_scan_keeps_starters(st: ScanState, text: Seq<char>)
    ensures
        forall|k: Seq<char>| st.starters.contains(k) ==> #[trigger] scan_text(st, text).starters.contains(k),
{
    lemma_scan_sentences_keeps_starters(st, sentence_bounds(text));
}

/// What recording one word of a sentence does. A word that is not
/// capitalized changes nothing. A capitalized first word becomes a sentence
/// starter and nothing else changes. A capitalized word further on counts
/// once more as a candidate (one, when new), keeps the sentence (line feeds
/// as spaces, trimmed) as an example while it has fewer than
/// `MAX_SNIPPETS`, leaves every other candidate and the starters alone, and
/// when the next word is capitalized too, the pair joined by a space counts
/// once more (one, when new) while every other pair stays as it was.
pub proof fn lemma_word_effect(st: ScanState, sentence: Seq<char>, words: Seq<Seq<char>>, i: int)
    requires
        0 <= i < words.len(),
        word_fits(st, sentence, words, i),
    ensures
        !capitalized(words[i]) ==> scan_word(st, sentence, words, i) == st,
        capitalized(words[i]) && i == 0 ==> {
            &&& scan_word(st, sentence, words, i).candidates == st.candidates
            &&& scan_word(st, sentence, words, i).bigrams == st.bigrams
            &&& scan_word(st, sentence, words, i).starters == st.starters.insert(words[i])
        },
        capitalized(words[i]) && i > 0 ==> {
            let st2 = scan_word(st, sentence, words, i);
            let w = words[i];
            let example = trimmed(newlines_to_spaces(sentence));
            &&& st2.starters == st.starters
            &&& st2.candidates.contains_key(w)
            &&& st.candidates.contains_key(w) ==> st2.candidates[w].0 == st.candidates[w].0 + 1
                && st2.candidates[w].1 == if st.candidates[w].1.len() < MAX_SNIPPETS {
                st.candidates[w].1.push(example)
            } else {
                st.candidates[w].1
            }
            &&& !st.candidates.contains_key(w) ==> st2.candidates[w] == (1u32, seq![example])
            &&& forall|k: Seq<char>|
                k != w ==> (#[trigger] st2.candidates.contains_key(k) == st.candidates.contains_key(k)
                    && (st.candidates.contains_key(k) ==> st2.candidates[k] == st.candidates[k]))
        },
        capitalized(words[i]) && i > 0 && i + 1 < words.len() && capitalized(words[i + 1]) ==> {
            let st2 = scan_word(st, sentence, words, i);
            let pair = words[i] + seq![' '] + words[i + 1];
            &&& st2.bigrams.contains_key(pair)
            &&& st2.bigrams[pair] == if st.bigrams.contains_key(pair) { st.bigrams[pair] + 1 } else { 1 }
            &&& forall|k: Seq<char>|
                k != pair ==> (#[trigger] st2.bigrams.contains_key(k) == st.bigrams.contains_key(k) && (
                st.bigrams.contains_key(k) ==> st2.bigrams[k] == st.bigrams[k]))
        },
        capitalized(words[i]) && i > 0 && !(i + 1 < words.len() && capitalized(words[i + 1])) ==> scan_word(
            st,
            sentence,
            words,
            i,
        ).bigrams == st.bigrams,
{
    if capitalized(words[i]) && i > 0 {
        let w = words[i];
        let example = trimmed(newlines_to_spaces(sentence));
        if !st.candidates.contains_key(w) {
            assert(Seq::<Seq<char>>::empty().push(example) == seq![example]);
        }
    }
}

/// A new scanner satisfies the invariant.
pub proof fn lemma_new_scanner_invariant(st: ScanState)
    requires
        st.candidates.dom() == Set::<Seq<char>>::empty(),
        st.bigrams.dom() == Set::<Seq<char>>::empty(),
        st.starters == Set::<Seq<char>>::empty(),
    ensures
        scan_invariant(st),
{
    assert forall|k: Seq<char>| #[trigger] st.candidates.contains_key(k) implies false by {
        assert(st.candidates.dom().contains(k));
    }
    assert forall|k: Seq<char>| #[trigger] st.bigrams.contains_key(k) implies false by {
        assert(st.bigrams.dom().contains(k));
    }
}

/// Scanning a text keeps the invariant and drops nothing: no candidate,
/// two-word name or starter disappears and no count decreases, also where
/// the scan stops before a word whose count would overflow.
pub proof fn lemma_checked_scan_keeps_invariant(st: ScanState, text: Seq<char>)
    requires
        scan_invariant(st),
    ensures
        scan_invariant(checked_scan(st, text).0),
        grows(st, checked_scan(st, text).0),
{
    lemma_checked_sentences_invariant(st, sentence_bounds(text));
}

/// The same for a whole scan, when no count overflows.
pub proof fn lemma_scan_text_keeps_invariant(st: ScanState, text: Seq<char>)
    requires
        scan_invariant(st),
        scan_fits(st, text),
    ensures
        scan_invariant(scan_text(st, text)),
        grows(st, scan_text(st, text)),
{
    lemma_checked_scan_keeps_invariant(st, text);
    lemma_checked_scan_complete(st, text);
}

/// Scanning the events of an XML document keeps the invariant and drops
/// nothing, wherever it stops.
pub proof fn lemma_xml_scan_keeps_invariant(st: ScanState, in_p: bool, events: Seq<XmlEvent>)
    requires
        scan_invariant(st),
    ensures
        scan_invariant(xml_scan(st, in_p, events).0),
        grows(st, xml_scan(st, in_p, events).0),
    decreases events.len(),
{
    if events.len() > 0 {
        let step = xml_step(st, in_p, events[0]);
        if let XmlEvent::Text(Some(s)) = events[0] {
            if in_p {
                lemma_checked_scan_keeps_invariant(st, s@);
            }
        }
        if step.2 is None {
            lemma_xml_scan_keeps_invariant(step.0, step.1, events.subrange(1, events.len() as int));
            lemma_grows_trans(st, step.0, xml_scan(st, in_p, events).0);
        }
    }
}

} // verus!
