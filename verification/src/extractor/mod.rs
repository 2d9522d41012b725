//! Turning the sections of a book into prompts for the extraction model.
use vstd::prelude::*;
use vstd::utf8::encode_utf8;
use crate::text::{trimmed, trim, byte_len, push_str, to_string};
use crate::fb2scan::Section;

verus! {

/// The context window the extraction model runs with.
pub const EXTRACTOR_LLM_CONTEXT: u32 = 16384;

/// The most tokens the extraction model may generate per section.
pub const EXTRACTOR_LLM_MAX_TOKENS: u32 = 4096;

/// Sections whose trimmed text has fewer bytes than this are skipped.
pub const MIN_SECTION_BYTES: usize = 42;

/// A section is worth a prompt when its trimmed text has at least
/// `MIN_SECTION_BYTES` bytes.
pub open spec fn section_substantial(text: Seq<char>) -> bool {
    encode_utf8(trimmed(text)).len() >= MIN_SECTION_BYTES
}

/// Whether a section is worth a prompt.
pub fn is_substantial(section: &Section) -> (r: bool)
    ensures
        r == section_substantial(section@.text),
{
    byte_len(trim(section.text())) >= MIN_SECTION_BYTES
}

/// The prompt for a section: the section's text between `begin` and `end`,
/// or nothing when the section is too short to be worth one.
pub fn section_prompt(section: &Section, begin: &str, end: &str) -> (r: Option<String>)
    ensures
        !section_substantial(section@.text) ==> r is None,
        section_substantial(section@.text) ==> (r matches Some(p) && p@ == begin@ + section@.text
            + end@),
{
    if !is_substantial(section) {
        return None;
    }
    let mut prompt = to_string(begin);
    push_str(&mut prompt, section.text());
    push_str(&mut prompt, end);
    Some(prompt)
}

} // verus!
