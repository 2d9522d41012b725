//! The hash tables of the entity scanner, kept in `hashbrown` collections.
//! Each table's contents are named as a mathematical map or set, and each
//! operation the scanner uses states what it does to them.
use vstd::prelude::*;

verus! {

/// What the scanner knows of a capitalized word.
pub struct EntityEvidence {
    /// How often the word was seen inside a sentence.
    pub count: u32,
    /// Example sentences in which the word occurs.
    pub snippets: Vec<String>,
}

/// A piece of evidence as plain values: its count and its snippets.
pub open spec fn evidence_view(e: EntityEvidence) -> (u32, Seq<Seq<char>>) {
    (e.count, e.snippets@.map_values(|s: String| s@))
}

impl Default for EntityEvidence {
    fn default() -> (r: EntityEvidence)
        ensures
            evidence_view(r) == (0u32, Seq::<Seq<char>>::empty()),
    {
        EntityEvidence::new()
    }
}

impl EntityEvidence {
    /// Evidence of a word not seen yet.
    pub fn new() -> (r: EntityEvidence)
        ensures
            evidence_view(r) == (0u32, Seq::<Seq<char>>::empty()),
    {
        EntityEvidence { count: 0, snippets: Vec::new() }
    }
}

/// Words and their evidence, in a `hashbrown::HashMap`.
#[verifier::external_body]
pub struct CandidateTable {
    table: hashbrown::HashMap<String, EntityEvidence>,
}

/// The contents of a candidate table: each word with its count and snippets.
pub uninterp spec fn candidate_entries(t: CandidateTable) -> Map<Seq<char>, (u32, Seq<Seq<char>>)>;

impl CandidateTable {
    /// `HashMap::new`: an empty table.
    #[verifier::external_body]
    pub(crate) fn new() -> (r: CandidateTable)
        ensures
            candidate_entries(r).dom() == Set::<Seq<char>>::empty(),
    {
        CandidateTable { table: hashbrown::HashMap::new() }
    }

    /// `HashMap::remove`: takes the evidence of `key` out of the table.
    #[verifier::external_body]
    pub(crate) fn remove(&mut self, key: &str) -> (r: Option<EntityEvidence>)
        ensures
            candidate_entries(*final(self)) == candidate_entries(*old(self)).remove(key@),
            r is Some <==> candidate_entries(*old(self)).contains_key(key@),
            r matches Some(e) ==> evidence_view(e) == candidate_entries(*old(self))[key@],
    {
        self.table.remove(key)
    }

    /// `HashMap::insert`: stores `value` as the evidence of `key`.
    #[verifier::external_body]
    pub(crate) fn insert(&mut self, key: String, value: EntityEvidence)
        ensures
            candidate_entries(*final(self)) == candidate_entries(*old(self)).insert(
                key@,
                evidence_view(value),
            ),
    {
        self.table.insert(key, value);
    }

    /// `HashMap::get`: the evidence of `key`, if it is in the table.
    #[verifier::external_body]
    pub fn get(&self, key: &str) -> (r: Option<&EntityEvidence>)
        ensures
            r is Some <==> candidate_entries(*self).contains_key(key@),
            r matches Some(e) ==> evidence_view(*e) == candidate_entries(*self)[key@],
    {
        self.table.get(key)
    }

    /// `HashMap::iter`: every entry once, in an order the table chooses.
    #[verifier::external_body]
    pub fn entries(&self) -> (r: Vec<(&String, &EntityEvidence)>)
        ensures
            forall|i: int|
                #![trigger r@[i]]
                0 <= i < r@.len() ==> candidate_entries(*self).contains_key(r@[i].0@)
                    && candidate_entries(*self)[r@[i].0@] == evidence_view(*r@[i].1),
            forall|k: Seq<char>|
                #[trigger] candidate_entries(*self).contains_key(k) ==> exists|i: int|
                    0 <= i < r@.len() && (#[trigger] r@[i]).0@ == k,
            forall|i: int, j: int|
                0 <= i < r@.len() && 0 <= j < r@.len() && i != j ==> (#[trigger] r@[i]).0@ != (
                #[trigger] r@[j]).0@,
    {
        self.table.iter().collect()
    }
}

/// Two-word names and how often they were seen, in a `hashbrown::HashMap`.
#[verifier::external_body]
pub struct BigramTable {
    table: hashbrown::HashMap<String, u32>,
}

/// The contents of a bigram table: each two-word name with its count.
pub uninterp spec fn bigram_counts(t: BigramTable) -> Map<Seq<char>, u32>;

impl BigramTable {
    /// `HashMap::new`: an empty table.
    #[verifier::external_body]
    pub(crate) fn new() -> (r: BigramTable)
        ensures
            bigram_counts(r).dom() == Set::<Seq<char>>::empty(),
    {
        BigramTable { table: hashbrown::HashMap::new() }
    }

    /// `HashMap::get`: the count of `key`, if it is in the table.
    #[verifier::external_body]
    pub fn get(&self, key: &str) -> (r: Option<u32>)
        ensures
            r is Some <==> bigram_counts(*self).contains_key(key@),
            r matches Some(c) ==> c == bigram_counts(*self)[key@],
    {
        self.table.get(key).copied()
    }

    /// `HashMap::insert`: stores `count` for `key`.
    #[verifier::external_body]
    pub(crate) fn insert(&mut self, key: String, count: u32)
        ensures
            bigram_counts(*final(self)) == bigram_counts(*old(self)).insert(key@, count),
    {
        self.table.insert(key, count);
    }

    /// `HashMap::iter`: every entry once, in an order the table chooses.
    #[verifier::external_body]
    pub fn entries(&self) -> (r: Vec<(&String, u32)>)
        ensures
            forall|i: int|
                #![trigger r@[i]]
                0 <= i < r@.len() ==> bigram_counts(*self).contains_key(r@[i].0@)
                    && bigram_counts(*self)[r@[i].0@] == r@[i].1,
            forall|k: Seq<char>|
                #[trigger] bigram_counts(*self).contains_key(k) ==> exists|i: int|
                    0 <= i < r@.len() && (#[trigger] r@[i]).0@ == k,
            forall|i: int, j: int|
                0 <= i < r@.len() && 0 <= j < r@.len() && i != j ==> (#[trigger] r@[i]).0@ != (
                #[trigger] r@[j]).0@,
    {
        self.table.iter().map(|(k, c)| (k, *c)).collect()
    }
}

/// A set of words, in a `hashbrown::HashSet`.
#[verifier::external_body]
pub struct WordSet {
    set: hashbrown::HashSet<String>,
}

/// The contents of a word set.
pub uninterp spec fn word_set(t: WordSet) -> Set<Seq<char>>;

impl WordSet {
    /// `HashSet::new`: an empty set.
    #[verifier::external_body]
    pub(crate) fn new() -> (r: WordSet)
        ensures
            word_set(r) == Set::<Seq<char>>::empty(),
    {
        WordSet { set: hashbrown::HashSet::new() }
    }

    /// `HashSet::insert`: adds `word`.
    #[verifier::external_body]
    pub(crate) fn insert(&mut self, word: String)
        ensures
            word_set(*final(self)) == word_set(*old(self)).insert(word@),
    {
        self.set.insert(word);
    }

    /// `HashSet::contains`: whether `word` is in the set.
    #[verifier::external_body]
    pub fn contains(&self, word: &str) -> (r: bool)
        ensures
            r == word_set(*self).contains(word@),
    {
        self.set.contains(word)
    }
}

} // verus!
