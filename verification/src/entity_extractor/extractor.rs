//! Preparing candidate names for classification by a language model, and
//! reading its answer: the prompt for a chunk of candidates, and the JSON
//! object cut out of the model's reply.
use vstd::prelude::*;
use crate::text::{concat, push_str, to_string, chars_of};
use super::tables::{EntityEvidence, evidence_view};

verus! {

/// The most tokens the model may generate for one chunk.
pub const MAX_OUTPUT_TOKENS: u32 = 500;

/// How many candidates go into one prompt.
pub const CHUNK_SIZE: usize = 8;

/// How often a word must occur to be a candidate.
pub const MIN_MENTIONS: u32 = 2;

/// The classification of an entity.
#[derive(Debug, Clone, Copy, PartialEq, Eq, Structural)]
pub enum EntityType {
    /// A specific character.
    Person,
    /// A race or biological species.
    Race,
    /// A place.
    Location,
    /// A group or structure.
    Organization,
    /// An important object.
    Object,
    /// An event, mission, operation or battle.
    Event,
    /// Anything else.
    Unknown,
}

impl Default for EntityType {
    fn default() -> (r: EntityType)
        ensures
            r == EntityType::Unknown,
    {
        EntityType::Unknown
    }
}

/// The model's verdict on one entity.
pub struct EntityVerdict {
    pub name: String,
    pub aliases: Vec<String>,
    pub entity_type: EntityType,
    pub description: String,
    /// From 1 to 10.
    pub importance: u8,
}

/// The model's answer for a chunk of candidates.
pub struct AnalysisResponse {
    pub entities: Vec<EntityVerdict>,
}

/// The instructions to the model that come before the candidates.
pub const PROMPT_HEAD: &'static str = r#"[INST] <<SYS>>
You are an advanced literary analysis engine. Classify entities extracted from text based on provided snippets.

EXTRACTION RULES:
1. NOMINATIVE CASE: All entity russian names MUST be converted to the Russian Nominative Case (Именительный падеж).
   Example: "Льву Абалкину" -> "Лев Абалкин", "Саракше" -> "Саракш".
2. ENTITY TYPES: Only use the following categories: [Person, Location, Organization, Object, Event, Unknown].
3. NO NOISE: Do not extract verbs, adjectives, or common nouns (e.g., "Выглядит", "Левой", "N").
4. DESCRIPTIONS: Provide a brief summary of the entity's role in the CURRENT text snippet.
5. IMPORTANCE: Rate from 1 to 10 based on the entity's relevance to the plot. Skip entities with importance < 4.
6. ZERO HALLUCINATION: Only use facts explicitly stated in the text. Do not add external information from your training data.

ENTITY TYPES:
- Person: Individual characters.
- Race: Sentient species, biological species, ethnic groups, or distinct types of beings.
- Location: Geographical places, structures, or coordinates.
- Organization: Named groups, factions, alliances, or institutional bodies.
- Object: Specific unique items, artifacts, or significant technologies.
- Event: Named incidents, codenamed operations (often in quotes), or specific historical missions.
- Unknown: Generic nouns, pronouns, or noise.

FILTERING:
- Ignore noise: single letters, verbs ("Выглядит"), directions ("Левой"), or partial names ("Вячеславович").

REQUIREMENTS:
- Output ONLY strictly valid JSON.
- The 'description' field MUST be in the same language as the snippets.
- 'importance' is an integer from 1 to 10.
- If a candidate is irrelevant, mark as 'Unknown'.

JSON SCHEMA:
{
  "entities": [
    {
      "name": "Full name in Nominative Case",
      "entity_type": "Person|Race|Location|Organization|Object|Event|Unknown",
      "description": "Brief context from the text",
      "importance": 1-10
    }
  ]
}
<</SYS>>

"#;

/// What follows the candidates in the prompt.
pub const PROMPT_TAIL: &'static str = "\n\n[/INST] JSON Output:\n";

/// One example sentence as a list item in quotes.
pub open spec fn snippet_line(s: Seq<char>) -> Seq<char> {
    "- \""@ + s + "\"\n"@
}

/// The example sentences as a list.
pub open spec fn snippet_lines(snippets: Seq<Seq<char>>) -> Seq<char> {
    concat(snippets.map_values(|s: Seq<char>| snippet_line(s)))
}

/// The part of the prompt for one candidate: its name and its examples.
pub open spec fn entity_block(name: Seq<char>, snippets: Seq<Seq<char>>) -> Seq<char> {
    "### Entity: "@ + name + "\nSnippets:\n"@ + snippet_lines(snippets)
}

/// The candidates of a chunk, each as its name and examples.
pub open spec fn chunk_entries(chunk: Seq<(&String, &EntityEvidence)>) -> Seq<(Seq<char>, Seq<Seq<char>>)> {
    chunk.map_values(|e: (&String, &EntityEvidence)| (e.0@, evidence_view(*e.1).1))
}

/// The prompt for a chunk of candidates: the instructions, then one block per
/// candidate, then the closing of the instruction.
pub open spec fn chunk_prompt(entries: Seq<(Seq<char>, Seq<Seq<char>>)>) -> Seq<char> {
    PROMPT_HEAD@ + concat(entries.map_values(|e: (Seq<char>, Seq<Seq<char>>)| entity_block(e.0, e.1)))
        + PROMPT_TAIL@
}

/// The prompt that asks the model to classify a chunk of candidates.
pub fn format_chunk_prompt(chunk: &[(&String, &EntityEvidence)]) -> (r: String)
    ensures
        r@ == chunk_prompt(chunk_entries(chunk@)),
{
    let ghost entries = chunk_entries(chunk@);
    let ghost blocks = entries.map_values(|e: (Seq<char>, Seq<Seq<char>>)| entity_block(e.0, e.1));
    let mut p = String::new();
    let n = chunk.len();
    for i in 0..n
        invariant
            n == chunk@.len(),
            entries == chunk_entries(chunk@),
            blocks == entries.map_values(|e: (Seq<char>, Seq<Seq<char>>)| entity_block(e.0, e.1)),
            p@ == concat(blocks.subrange(0, i as int)),
    {
        let (name, evidence) = chunk[i];
        let ghost start = p@;
        push_str(&mut p, "### Entity: ");
        push_str(&mut p, name.as_str());
        push_str(&mut p, "\nSnippets:\n");
        let ghost header = p@;
        let ghost lines = evidence_view(*evidence).1.map_values(|s: Seq<char>| snippet_line(s));
        let m = evidence.snippets.len();
        for j in 0..m
            invariant
                m == evidence.snippets@.len(),
                lines == evidence_view(*evidence).1.map_values(|s: Seq<char>| snippet_line(s)),
                p@ == header + concat(lines.subrange(0, j as int)),
        {
            let ghost before = p@;
            push_str(&mut p, "- \"");
            push_str(&mut p, evidence.snippets[j].as_str());
            push_str(&mut p, "\"\n");
            assert(lines.subrange(0, j + 1).drop_last() == lines.subrange(0, j as int));
            assert(lines[j as int] == snippet_line(evidence.snippets@[j as int]@));
        }
        assert(lines.subrange(0, m as int) == lines);
        assert(blocks[i as int] == entity_block(name@, evidence_view(*evidence).1));
        assert(blocks.subrange(0, i + 1).drop_last() == blocks.subrange(0, i as int));
    }
    assert(blocks.subrange(0, n as int) == blocks);
    let mut r = to_string(PROMPT_HEAD);
    push_str(&mut r, p.as_str());
    push_str(&mut r, PROMPT_TAIL);
    r
}

/// The prompts for a list of candidates, `CHUNK_SIZE` candidates per prompt,
/// in order; the last prompt takes the remainder.
pub fn chunk_prompts(candidates: &Vec<(&String, &EntityEvidence)>) -> (r: Vec<String>)
    ensures
        r@.len() == (candidates@.len() + CHUNK_SIZE - 1) / CHUNK_SIZE as int,
        forall|j: int|
            #![trigger r@[j]]
            0 <= j < r@.len() ==> r@[j]@ == chunk_prompt(
                chunk_entries(
                    candidates@.subrange(
                        j * CHUNK_SIZE,
                        if (j + 1) * CHUNK_SIZE <= candidates@.len() {
                            (j + 1) * CHUNK_SIZE
                        } else {
                            candidates@.len() as int
                        },
                    ),
                ),
            ),
{
    let n = candidates.len();
    let count = n / CHUNK_SIZE + if n % CHUNK_SIZE != 0 {
        1
    } else {
        0
    };
    let mut r: Vec<String> = Vec::new();
    for j in 0..count
        invariant
            n == candidates@.len(),
            count == (n + CHUNK_SIZE - 1) / CHUNK_SIZE as int,
            r@.len() == j,
            forall|i: int|
                #![trigger r@[i]]
                0 <= i < r@.len() ==> r@[i]@ == chunk_prompt(
                    chunk_entries(
                        candidates@.subrange(
                            i * CHUNK_SIZE,
                            if (i + 1) * CHUNK_SIZE <= candidates@.len() {
                                (i + 1) * CHUNK_SIZE
                            } else {
                                candidates@.len() as int
                            },
                        ),
                    ),
                ),
    {
        let start = j * CHUNK_SIZE;
        let end = if n - start >= CHUNK_SIZE {
            start + CHUNK_SIZE
        } else {
            n
        };
        let chunk = vstd::slice::slice_subrange(candidates.as_slice(), start, end);
        let prompt = format_chunk_prompt(chunk);
        r.push(prompt);
    }
    r
}

/// The first index of `c` in `s`.
pub open spec fn first_index_of(s: Seq<char>, c: char) -> Option<int>
    decreases s.len(),
{
    if s.len() == 0 {
        None
    } else if s[0] == c {
        Some(0)
    } else {
        match first_index_of(s.subrange(1, s.len() as int), c) {
            Some(i) => Some(i + 1),
            None => None,
        }
    }
}

/// The last index of `c` in `s`.
pub open spec fn last_index_of(s: Seq<char>, c: char) -> Option<int>
    decreases s.len(),
{
    if s.len() == 0 {
        None
    } else if s[s.len() - 1] == c {
        Some(s.len() - 1)
    } else {
        last_index_of(s.subrange(0, s.len() - 1), c)
    }
}

/// Where the JSON object of a reply starts: at its first `{`, or at the start.
pub open spec fn json_start(s: Seq<char>) -> int {
    match first_index_of(s, '{') {
        Some(i) => i,
        None => 0,
    }
}

/// Where the JSON object of a reply ends: after its last `}`, or at the end.
pub open spec fn json_end(s: Seq<char>) -> int {
    match last_index_of(s, '}') {
        Some(i) => i + 1,
        None => s.len() as int,
    }
}

/// The JSON span of a reply is a range: it does not start after it ends.
pub open spec fn json_span_valid(s: Seq<char>) -> bool {
    json_start(s) <= json_end(s)
}

/// The index of the first `c` in `chars`, searching from the front.
fn find_first(chars: &Vec<char>, c: char) -> (r: Option<usize>)
    ensures
        match first_index_of(chars@, c) {
            Some(i) => r == Some(i as usize),
            None => r is None,
        },
{
    let n = chars.len();
    let mut i: usize = 0;
    while i < n
        invariant
            n == chars@.len(),
            i <= n,
            forall|j: int| 0 <= j < i ==> chars@[j] != c,
        decreases n - i,
    {
        if chars[i] == c {
            proof {
                lemma_first_index_of(chars@, c, i as int);
            }
            return Some(i);
        }
        i = i + 1;
    }
    proof {
        lemma_first_index_of_none(chars@, c);
    }
    None
}

/// The index of the last `c` in `chars`, searching from the back.
fn find_last(chars: &Vec<char>, c: char) -> (r: Option<usize>)
    ensures
        r matches Some(i) ==> i < chars@.len(),
        match last_index_of(chars@, c) {
            Some(i) => r == Some(i as usize),
            None => r is None,
        },
{
    let n = chars.len();
    let mut i: usize = n;
    while i > 0
        invariant
            n == chars@.len(),
            i <= n,
            forall|j: int| i <= j < n ==> chars@[j] != c,
        decreases i,
    {
        if chars[i - 1] == c {
            proof {
                lemma_last_index_of(chars@, c, i - 1);
            }
            return Some(i - 1);
        }
        i = i - 1;
    }
    proof {
        lemma_last_index_of_none(chars@, c);
    }
    None
}

proof fn lemma_first_index_of(s: Seq<char>, c: char, i: int)
    requires
        0 <= i < s.len(),
        s[i] == c,
        forall|j: int| 0 <= j < i ==> s[j] != c,
    ensures
        first_index_of(s, c) == Some(i),
    decreases i,
{
    if i > 0 {
        lemma_first_index_of(s.subrange(1, s.len() as int), c, i - 1);
    }
}

proof fn lemma_first_index_of_none(s: Seq<char>, c: char)
    requires
        forall|j: int| 0 <= j < s.len() ==> s[j] != c,
    ensures
        first_index_of(s, c) is None,
    decreases s.len(),
{
    if s.len() > 0 {
        lemma_first_index_of_none(s.subrange(1, s.len() as int), c);
    }
}

proof fn lemma_last_index_of(s: Seq<char>, c: char, i: int)
    requires
        0 <= i < s.len(),
        s[i] == c,
        forall|j: int| i < j < s.len() ==> s[j] != c,
    ensures
        last_index_of(s, c) == Some(i),
    decreases s.len(),
{
    if i < s.len() - 1 {
        lemma_last_index_of(s.subrange(0, s.len() - 1), c, i);
    }
}

proof fn lemma_last_index_of_none(s: Seq<char>, c: char)
    requires
        forall|j: int| 0 <= j < s.len() ==> s[j] != c,
    ensures
        last_index_of(s, c) is None,
    decreases s.len(),
{
    if s.len() > 0 {
        lemma_last_index_of_none(s.subrange(0, s.len() - 1), c);
    }
}

proof fn lemma_first_index_bound(s: Seq<char>, c: char)
    ensures
        first_index_of(s, c) matches Some(i) ==> 0 <= i < s.len(),
    decreases s.len(),
{
    if s.len() > 0 {
        lemma_first_index_bound(s.subrange(1, s.len() as int), c);
    }
}

proof fn lemma_last_index_bound(s: Seq<char>, c: char)
    ensures
        last_index_of(s, c) matches Some(i) ==> 0 <= i < s.len(),
    decreases s.len(),
{
    if s.len() > 0 {
        lemma_last_index_bound(s.subrange(0, s.len() - 1), c);
    }
}

proof fn lemma_first_index_of_props(s: Seq<char>, c: char)
    ensures
        match first_index_of(s, c) {
            Some(i) => 0 <= i < s.len() && s[i] == c && forall|j: int| 0 <= j < i ==> s[j] != c,
            None => forall|j: int| 0 <= j < s.len() ==> s[j] != c,
        },
    decreases s.len(),
{
    if s.len() > 0 && s[0] != c {
        let rest = s.subrange(1, s.len() as int);
        lemma_first_index_of_props(rest, c);
        assert forall|j: int| 1 <= j < s.len() implies s[j] == rest[j - 1] by {}
    }
}

proof fn lemma_last_index_of_props(s: Seq<char>, c: char)
    ensures
        match last_index_of(s, c) {
            Some(i) => 0 <= i < s.len() && s[i] == c && forall|j: int| i < j < s.len() ==> s[j] != c,
            None => forall|j: int| 0 <= j < s.len() ==> s[j] != c,
        },
    decreases s.len(),
{
    if s.len() > 0 && s[s.len() - 1] != c {
        let rest = s.subrange(0, s.len() - 1);
        lemma_last_index_of_props(rest, c);
        assert forall|j: int| 0 <= j < s.len() - 1 implies s[j] == rest[j] by {}
    }
}

/// Where a reply is cut: the JSON span starts at the reply's first `{`
/// (nothing before it is a `{`), or at the start when there is none, and
/// ends just after its last `}` (nothing after it is a `}`), or at the end
/// when there is none.
pub proof fn lemma_json_cut(s: Seq<char>)
    ensures
        0 <= json_start(s) <= s.len(),
        0 <= json_end(s) <= s.len(),
        forall|j: int| 0 <= j < json_start(s) ==> s[j] != '{',
        forall|j: int| json_end(s) <= j < s.len() ==> s[j] != '}',
        (exists|j: int| 0 <= j < s.len() && s[j] == '{') ==> s[json_start(s)] == '{',
        (forall|j: int| 0 <= j < s.len() ==> s[j] != '{') ==> json_start(s) == 0,
        (exists|j: int| 0 <= j < s.len() && s[j] == '}') ==> json_end(s) > 0 && s[json_end(s) - 1] == '}',
        (forall|j: int| 0 <= j < s.len() ==> s[j] != '}') ==> json_end(s) == s.len(),
{
    lemma_first_index_of_props(s, '{');
    lemma_last_index_of_props(s, '}');
}

/// Cleaning a reply twice gives what cleaning it once gave: the JSON span
/// of a cleaned reply is the whole of it.
pub proof fn lemma_clean_json_idempotent(s: Seq<char>)
    requires
        json_span_valid(s),
    ensures
        json_span_valid(s.subrange(json_start(s), json_end(s))),
        json_start(s.subrange(json_start(s), json_end(s))) == 0,
        json_end(s.subrange(json_start(s), json_end(s))) == json_end(s) - json_start(s),
        s.subrange(json_start(s), json_end(s)).subrange(
            json_start(s.subrange(json_start(s), json_end(s))),
            json_end(s.subrange(json_start(s), json_end(s))),
        ) == s.subrange(json_start(s), json_end(s)),
{
    let a = json_start(s);
    let b = json_end(s);
    lemma_first_index_of_props(s, '{');
    lemma_last_index_of_props(s, '}');
    assert(0 <= a <= b <= s.len());
    let t = s.subrange(a, b);
    assert forall|j: int| 0 <= j < t.len() implies t[j] == s[a + j] by {}
    match first_index_of(s, '{') {
        Some(i) => {
            if t.len() > 0 {
                lemma_first_index_of(t, '{', 0);
            } else {
                lemma_first_index_of_none(t, '{');
            }
        },
        None => {
            lemma_first_index_of_none(t, '{');
        },
    }
    match last_index_of(s, '}') {
        Some(e) => {
            if t.len() > 0 {
                assert(t[t.len() - 1] == s[e]);
                lemma_last_index_of(t, '}', t.len() - 1);
            } else {
                lemma_last_index_of_none(t, '}');
            }
        },
        None => {
            lemma_last_index_of_none(t, '}');
        },
    }
    assert(t.subrange(0, t.len() as int) == t);
}

/// The character range of the JSON object in a reply.
fn json_span(raw: &str) -> (r: (usize, usize))
    ensures
        r.0 == json_start(raw@),
        r.1 == json_end(raw@),
        r.1 <= raw@.len(),
{
    proof {
        lemma_last_index_bound(raw@, '}');
        lemma_first_index_bound(raw@, '{');
    }
    let chars = chars_of(raw);
    let _n = chars.len();
    let start = match find_first(&chars, '{') {
        Some(i) => i,
        None => 0,
    };
    let end = match find_last(&chars, '}') {
        Some(i) => i + 1,
        None => chars.len(),
    };
    (start, end)
}

/// Whether `clean_json` applies to `raw`: its first `{` does not come after
/// the end of its last `}`.
pub fn clean_json_applies(raw: &str) -> (r: bool)
    ensures
        r == json_span_valid(raw@),
{
    let (start, end) = json_span(raw);
    start <= end
}

/// The JSON object in a model's reply: from its first `{` (or the start) to
/// its last `}` (or the end).
pub fn clean_json(raw: &str) -> (r: &str)
    requires
        json_span_valid(raw@),
    ensures
        r@ == raw@.subrange(json_start(raw@), json_end(raw@)),
{
    let (start, end) = json_span(raw);
    raw.substring_char(start, end)
}

} // verus!
