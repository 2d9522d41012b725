//! A batch of tokens for the decoder: what each slot holds, the capacity it
//! was allocated with, and which positions ask for output logits.
use vstd::prelude::*;
use super::errors::BatchAddError;

verus! {

/// One token of a batch.
pub struct BatchEntry {
    pub token: i32,
    /// Its position in the sequence.
    pub pos: i32,
    /// The sequences it belongs to.
    pub seq_ids: Vec<i32>,
    /// Whether the decoder computes logits for it.
    pub logits: bool,
}

/// A batch entry as plain values.
pub open spec fn entry_view(e: BatchEntry) -> (i32, i32, Seq<i32>, bool) {
    (e.token, e.pos, e.seq_ids@, e.logits)
}

/// The indices of the entries that ask for logits, in increasing order.
pub open spec fn logit_positions(entries: Seq<(i32, i32, Seq<i32>, bool)>) -> Seq<i32>
    decreases entries.len(),
{
    if entries.len() == 0 {
        Seq::empty()
    } else {
        let rest = logit_positions(entries.drop_last());
        if entries.last().3 {
            rest.push((entries.len() - 1) as i32)
        } else {
            rest
        }
    }
}

/// A batch as plain values.
pub struct BatchView {
    /// The number of tokens it was allocated for; 0 for a batch that borrows
    /// its tokens (`get_one`).
    pub allocated: nat,
    /// The number of sequences it was allocated for.
    pub n_seq_max: i32,
    pub entries: Seq<(i32, i32, Seq<i32>, bool)>,
    /// The indices of the entries whose logits the decoder computes.
    pub initialized_logits: Seq<i32>,
}

/// A batch of tokens.
pub struct Batch {
    allocated: usize,
    n_seq_max: i32,
    n_tokens: i32,
    entries: Vec<BatchEntry>,
    initialized_logits: Vec<i32>,
}

impl View for Batch {
    type V = BatchView;

    closed spec fn view(&self) -> BatchView {
        BatchView {
            allocated: self.allocated as nat,
            n_seq_max: self.n_seq_max,
            entries: self.entries@.map_values(|e: BatchEntry| entry_view(e)),
            initialized_logits: self.initialized_logits@,
        }
    }
}

/// The entries that `add_sequence` adds for `tokens`: positions from 0, the
/// one sequence, and logits for all of them or only the last.
pub open spec fn sequence_entries(tokens: Seq<i32>, seq_id: i32, logits_all: bool) -> Seq<
    (i32, i32, Seq<i32>, bool),
> {
    Seq::new(
        tokens.len(),
        |i: int| (tokens[i], i as i32, seq![seq_id], logits_all || i == tokens.len() - 1),
    )
}

/// The entries of a batch over borrowed tokens: positions from `pos`, the
/// one sequence, logits for the last token only.
pub open spec fn borrowed_entries(tokens: Seq<i32>, pos: i32, seq_id: i32) -> Seq<
    (i32, i32, Seq<i32>, bool),
> {
    Seq::new(
        tokens.len(),
        |i: int| (tokens[i], (pos + i) as i32, seq![seq_id], i == tokens.len() - 1),
    )
}

/// Appending one entry to a batch's entries.
pub proof fn lemma_logit_positions_push(
    entries: Seq<(i32, i32, Seq<i32>, bool)>,
    e: (i32, i32, Seq<i32>, bool),
)
    ensures
        logit_positions(entries.push(e)) == if e.3 {
            logit_positions(entries).push(entries.len() as i32)
        } else {
            logit_positions(entries)
        },
{
    assert(entries.push(e).drop_last() == entries);
}

/// The logit positions are indices of entries.
pub proof fn lemma_logit_positions_bounded(entries: Seq<(i32, i32, Seq<i32>, bool)>)
    requires
        entries.len() <= i32::MAX + 1,
    ensures
        forall|k: int|
            #![trigger logit_positions(entries)[k]]
            0 <= k < logit_positions(entries).len() ==> 0 <= logit_positions(entries)[k]
                < entries.len(),
    decreases entries.len(),
{
    if entries.len() > 0 {
        let rest = logit_positions(entries.drop_last());
        lemma_logit_positions_bounded(entries.drop_last());
        if entries.last().3 {
            assert(logit_positions(entries) == rest.push((entries.len() - 1) as i32));
            assert forall|k: int|
                #![trigger logit_positions(entries)[k]]
                0 <= k < logit_positions(entries).len() implies 0 <= logit_positions(entries)[k]
                < entries.len() by {
                if k < rest.len() {
                    assert(logit_positions(entries)[k] == rest[k]);
                }
            }
        } else {
            assert(logit_positions(entries) == rest);
        }
    }
}

impl Batch {
    #[verifier::type_invariant]
    spec fn wf(self) -> bool {
        &&& 0 <= self.n_tokens
        &&& self.entries@.len() == self.n_tokens
        &&& self.allocated <= i32::MAX
        &&& self.allocated == 0 || self.n_tokens <= self.allocated
        &&& self.initialized_logits@ == logit_positions(
            self.entries@.map_values(|e: BatchEntry| entry_view(e)),
        )
    }

    /// An empty batch with room for `n_tokens` tokens.
    pub fn new(n_tokens: usize, n_seq_max: i32) -> (r: Batch)
        requires
            n_tokens <= i32::MAX,
        ensures
            r@.allocated == n_tokens,
            r@.n_seq_max == n_seq_max,
            r@.entries.len() == 0,
            r@.initialized_logits.len() == 0,
    {
        let r = Batch {
            allocated: n_tokens,
            n_seq_max,
            n_tokens: 0,
            entries: Vec::new(),
            initialized_logits: Vec::new(),
        };
        assert(r.entries@.map_values(|e: BatchEntry| entry_view(e)) =~= Seq::empty());
        r
    }

    /// The number of sequences the batch was allocated for.
    pub fn n_seq_max(&self) -> (r: i32)
        ensures
            r == self@.n_seq_max,
    {
        self.n_seq_max
    }

    /// Empties the batch; its capacity is kept.
    pub fn clear(&mut self)
        ensures
            final(self)@.allocated == old(self)@.allocated,
            final(self)@.n_seq_max == old(self)@.n_seq_max,
            final(self)@.entries.len() == 0,
            final(self)@.initialized_logits.len() == 0,
    {
        proof {
            use_type_invariant(&*self);
        }
        let mut cleared = Batch::new(self.allocated, self.n_seq_max);
        std::mem::swap(self, &mut cleared);
    }

    /// Adds a token at position `pos` of the sequences `seq_ids`, asking for
    /// its logits or not; fails when the batch is full.
    pub fn add(&mut self, token: i32, pos: i32, seq_ids: &[i32], logits: bool) -> (r: Result<(), BatchAddError>)
        requires
            old(self)@.entries.len() < i32::MAX,
            seq_ids@.len() <= i32::MAX,
        ensures
            old(self)@.allocated < old(self)@.entries.len() + 1 ==> {
                &&& r == Err::<(), BatchAddError>(BatchAddError::InsufficientSpace(old(self)@.allocated as usize))
                &&& final(self)@ == old(self)@
            },
            old(self)@.allocated >= old(self)@.entries.len() + 1 ==> {
                &&& r is Ok
                &&& final(self)@.allocated == old(self)@.allocated
                &&& final(self)@.n_seq_max == old(self)@.n_seq_max
                &&& final(self)@.entries == old(self)@.entries.push((token, pos, seq_ids@, logits))
            },
    {
        proof {
            use_type_invariant(&*self);
        }
        if self.allocated < (self.n_tokens + 1) as usize {
            return Err(BatchAddError::InsufficientSpace(self.allocated));
        }
        let mut taken = Batch::new(0, 0);
        std::mem::swap(self, &mut taken);
        proof {
            use_type_invariant(&taken);
        }
        let Batch { allocated, n_seq_max, n_tokens, mut entries, mut initialized_logits } = taken;
        let offset = n_tokens;
        let ghost old_views = entries@.map_values(|e: BatchEntry| entry_view(e));
        let mut ids: Vec<i32> = Vec::new();
        for k in 0..seq_ids.len()
            invariant
                ids@ == seq_ids@.subrange(0, k as int),
        {
            ids.push(seq_ids[k]);
            assert(seq_ids@.subrange(0, k + 1) == seq_ids@.subrange(0, k as int).push(seq_ids@[k as int]));
        }
        assert(seq_ids@.subrange(0, seq_ids@.len() as int) == seq_ids@);
        proof {
            lemma_logit_positions_bounded(old_views);
        }
        if logits {
            initialized_logits.push(offset);
        } else {
            let ghost before = initialized_logits@;
            remove_position(&mut initialized_logits, offset);
            proof {
                lemma_filter_keeps_all(before, offset);
            }
        }
        let entry = BatchEntry { token, pos, seq_ids: ids, logits };
        entries.push(entry);
        proof {
            let e = (token, pos, seq_ids@, logits);
            assert(entries@.map_values(|e: BatchEntry| entry_view(e)) =~= old_views.push(e));
            lemma_logit_positions_push(old_views, e);
        }
        *self = Batch { allocated, n_seq_max, n_tokens: n_tokens + 1, entries, initialized_logits };
        Ok(())
    }

    /// Adds `tokens` at positions 0, 1, ... of the sequence `seq_id`, asking
    /// for the logits of all of them or only of the last; fails, adding
    /// nothing, when they do not all fit.
    pub fn add_sequence(&mut self, tokens: &[i32], seq_id: i32, logits_all: bool) -> (r: Result<(), BatchAddError>)
        requires
            old(self)@.entries.len() + tokens@.len() <= usize::MAX,
        ensures
            old(self)@.allocated < old(self)@.entries.len() + tokens@.len() ==> {
                &&& r == Err::<(), BatchAddError>(BatchAddError::InsufficientSpace(old(self)@.allocated as usize))
                &&& final(self)@ == old(self)@
            },
            old(self)@.allocated >= old(self)@.entries.len() + tokens@.len() ==> {
                &&& r is Ok
                &&& final(self)@.allocated == old(self)@.allocated
                &&& final(self)@.n_seq_max == old(self)@.n_seq_max
                &&& final(self)@.entries == old(self)@.entries + sequence_entries(tokens@, seq_id, logits_all)
            },
    {
        proof {
            use_type_invariant(&*self);
        }
        let n_tokens_0 = self.n_tokens as usize;
        let n_tokens = tokens.len();
        if self.allocated < n_tokens_0 + n_tokens {
            return Err(BatchAddError::InsufficientSpace(self.allocated));
        }
        let last_index: i32 = if n_tokens == 0 {
            0
        } else {
            (n_tokens - 1) as i32
        };
        let ghost entries0 = self@.entries;
        let ids = vec![seq_id];
        assert(ids@ == seq![seq_id]);
        for i in 0..n_tokens
            invariant
                n_tokens == tokens@.len(),
                n_tokens <= i32::MAX,
                last_index == if n_tokens == 0 { 0 } else { n_tokens - 1 },
                ids@ == seq![seq_id],
                self@.allocated >= entries0.len() + n_tokens,
                self@.allocated == old(self)@.allocated,
                self@.n_seq_max == old(self)@.n_seq_max,
                self@.entries == entries0 + sequence_entries(tokens@, seq_id, logits_all).subrange(
                    0,
                    i as int,
                ),
        {
            proof {
                use_type_invariant(&*self);
            }
            let pos = i as i32;
            let r = self.add(tokens[i], pos, ids.as_slice(), logits_all || pos == last_index);
            assert(r is Ok);
            assert(sequence_entries(tokens@, seq_id, logits_all).subrange(0, i + 1)
                == sequence_entries(tokens@, seq_id, logits_all).subrange(0, i as int).push(
                (tokens@[i as int], pos, seq![seq_id], logits_all || pos == last_index),
            ));
        }
        assert(sequence_entries(tokens@, seq_id, logits_all).subrange(0, n_tokens as int)
            == sequence_entries(tokens@, seq_id, logits_all));
        Ok(())
    }

    /// A batch over borrowed tokens at positions `pos`, `pos + 1`, ... of the
    /// sequence `seq_id`, with logits for the last one; fails on no tokens.
    pub fn get_one(tokens: &[i32], pos: i32, seq_id: i32) -> (r: Result<Batch, BatchAddError>)
        requires
            tokens@.len() <= i32::MAX,
            pos + tokens@.len() <= i32::MAX + 1,
        ensures
            tokens@.len() == 0 ==> r == Err::<Batch, BatchAddError>(BatchAddError::EmptyBuffer),
            tokens@.len() > 0 ==> (r matches Ok(b) && b@.allocated == 0 && b@.entries
                == borrowed_entries(tokens@, pos, seq_id) && b@.initialized_logits == seq![
                (tokens@.len() - 1) as i32,
            ]),
    {
        if tokens.len() == 0 {
            return Err(BatchAddError::EmptyBuffer);
        }
        let n = tokens.len();
        let mut entries: Vec<BatchEntry> = Vec::new();
        for i in 0..n
            invariant
                n == tokens@.len(),
                n <= i32::MAX,
                pos + n <= i32::MAX + 1,
                entries@.map_values(|e: BatchEntry| entry_view(e)) == borrowed_entries(
                    tokens@,
                    pos,
                    seq_id,
                ).subrange(0, i as int),
                logit_positions(entries@.map_values(|e: BatchEntry| entry_view(e))) == Seq::<
                    i32,
                >::empty(),
        {
            let ids = vec![seq_id];
            assert(ids@ == seq![seq_id]);
            let ghost before = entries@.map_values(|e: BatchEntry| entry_view(e));
            let e = BatchEntry { token: tokens[i], pos: pos + i as i32, seq_ids: ids, logits: i == n - 1 };
            let ghost ev = entry_view(e);
            entries.push(e);
            proof {
                assert(entries@.map_values(|e: BatchEntry| entry_view(e)) =~= before.push(ev));
                lemma_logit_positions_push(before, ev);
                assert(borrowed_entries(tokens@, pos, seq_id).subrange(0, i + 1) =~= borrowed_entries(
                    tokens@,
                    pos,
                    seq_id,
                ).subrange(0, i as int).push(ev));
                if i == n - 1 {
                    assert(logit_positions(entries@.map_values(|e: BatchEntry| entry_view(e))) == seq![
                        i as i32,
                    ]);
                }
            }
            if i == n - 1 {
                let last = (n - 1) as i32;
                let initialized_logits = vec![last];
                assert(initialized_logits@ == seq![last]);
                assert(borrowed_entries(tokens@, pos, seq_id).subrange(0, n as int) == borrowed_entries(
                    tokens@,
                    pos,
                    seq_id,
                ));
                return Ok(Batch { allocated: 0, n_seq_max: 1, n_tokens: n as i32, entries, initialized_logits });
            }
        }
        Err(BatchAddError::EmptyBuffer)
    }

    /// The number of tokens in the batch.
    pub fn n_tokens(&self) -> (r: i32)
        ensures
            r == self@.entries.len(),
    {
        proof {
            use_type_invariant(self);
        }
        self.n_tokens
    }

    /// The indices of the entries whose logits the decoder computes: exactly
    /// the entries that ask for logits, in order.
    pub fn initialized_logits(&self) -> (r: &Vec<i32>)
        ensures
            r@ == self@.initialized_logits,
            r@ == logit_positions(self@.entries),
    {
        proof {
            use_type_invariant(self);
        }
        &self.initialized_logits
    }

    /// The tokens of the batch, in order.
    pub fn entries(&self) -> (r: &Vec<BatchEntry>)
        ensures
            r@.map_values(|e: BatchEntry| entry_view(e)) == self@.entries,
    {
        &self.entries
    }
}

/// Filtering out a value that does not occur keeps everything.
proof fn lemma_filter_keeps_all(v: Seq<i32>, pos: i32)
    requires
        forall|k: int| 0 <= k < v.len() ==> #[trigger] v[k] != pos,
    ensures
        v.filter(|x: i32| x != pos) == v,
    decreases v.len(),
{
    reveal_with_fuel(Seq::<i32>::filter, 1);
    if v.len() > 0 {
        lemma_filter_keeps_all(v.drop_last(), pos);
        assert(v.drop_last().push(v.last()) == v);
    } else {
        assert(v.filter(|x: i32| x != pos) =~= v);
    }
}

/// Removes every occurrence of `pos` from `v`, keeping the order of the rest.
fn remove_position(v: &mut Vec<i32>, pos: i32)
    ensures
        final(v)@ == old(v)@.filter(|x: i32| x != pos),
{
    let mut kept: Vec<i32> = Vec::new();
    let n = v.len();
    for i in 0..n
        invariant
            n == v@.len(),
            kept@ == v@.subrange(0, i as int).filter(|x: i32| x != pos),
    {
        let ghost prefix = v@.subrange(0, i + 1);
        proof {
            reveal_with_fuel(Seq::<i32>::filter, 1);
            assert(prefix.drop_last() == v@.subrange(0, i as int));
            assert(prefix.last() == v@[i as int]);
            assert(prefix.filter(|x: i32| x != pos) == if prefix.last() != pos {
                prefix.drop_last().filter(|x: i32| x != pos).push(prefix.last())
            } else {
                prefix.drop_last().filter(|x: i32| x != pos)
            });
        }
        if v[i] != pos {
            kept.push(v[i]);
        }
    }
    assert(v@.subrange(0, n as int) == v@);
    *v = kept;
}

} // verus!
