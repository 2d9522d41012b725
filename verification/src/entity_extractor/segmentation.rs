//! Unicode text segmentation (sentences and words, from
//! `unicode-segmentation`) and the character operations the scanner uses.
use vstd::prelude::*;
use unicode_segmentation::UnicodeSegmentation;
use crate::text::concat;

verus! {

/// The pieces that `split_sentence_bounds` cuts a text into (UAX #29
/// sentence boundaries).
pub uninterp spec fn sentence_bounds(text: Seq<char>) -> Seq<Seq<char>>;

/// The words that `unicode_words` finds in a text (UAX #29 word boundaries,
/// keeping the pieces with an alphabetic or numeric character).
pub uninterp spec fn words_of(text: Seq<char>) -> Seq<Seq<char>>;

/// Whether `char::is_uppercase` holds of a character.
pub uninterp spec fn char_is_uppercase(c: char) -> bool;

/// The views of a sequence of string slices.
pub open spec fn str_views(v: Seq<&str>) -> Seq<Seq<char>> {
    v.map_values(|s: &str| s@)
}

/// `UnicodeSegmentation::split_sentence_bounds`, collected. As its
/// documentation says, the pieces make up the text.
#[verifier::external_body]
pub(crate) fn split_sentences(text: &str) -> (r: Vec<&str>)
    ensures
        str_views(r@) == sentence_bounds(text@),
        concat(str_views(r@)) == text@,
{
    text.split_sentence_bounds().collect()
}

/// `UnicodeSegmentation::unicode_words`, collected. As its documentation
/// says, every word holds an alphanumeric character, so none is empty.
#[verifier::external_body]
pub(crate) fn unicode_words(text: &str) -> (r: Vec<&str>)
    ensures
        str_views(r@) == words_of(text@),
        forall|i: int| 0 <= i < r@.len() ==> (#[trigger] r@[i])@.len() > 0,
{
    text.unicode_words().collect()
}

/// `char::is_uppercase`.
#[verifier::external_body]
pub(crate) fn is_uppercase(c: char) -> (r: bool)
    ensures
        r == char_is_uppercase(c),
{
    c.is_uppercase()
}

/// `s` with every line feed replaced by a space.
pub open spec fn newlines_to_spaces(s: Seq<char>) -> Seq<char> {
    s.map_values(|c: char| if c == '\n' { ' ' } else { c })
}

/// `str::replace('\n', " ")`.
#[verifier::external_body]
pub(crate) fn replace_newlines(s: &str) -> (r: String)
    ensures
        r@ == newlines_to_spaces(s@),
{
    s.replace('\n', " ")
}

} // verus!
