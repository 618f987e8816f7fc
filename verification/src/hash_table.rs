use vstd::prelude::*;
use crate::score::AtomicScore;

verus! {

/// One slot of the evaluation cache: the low 16 bits of the key it was stored under and
/// the stored score.
#[derive(Clone, Copy)]
pub struct HashTableEntry {
    key: u16,
    score: AtomicScore,
}

impl HashTableEntry {
    pub closed spec fn spec_key(&self) -> u16 {
        self.key
    }

    pub closed spec fn spec_score(&self) -> AtomicScore {
        self.score
    }

    pub fn new() -> (r: HashTableEntry)
        ensures
            r.spec_key() == 0,
            r.spec_score() == AtomicScore(0, 0),
    {
        HashTableEntry { key: 0, score: AtomicScore::default() }
    }

    /// Overwrites the slot with a score and the low 16 bits of its key.
    pub fn replace(&mut self, key: u64, score: AtomicScore)
        ensures
            final(self).spec_key() == key as u16,
            final(self).spec_score() == score,
    {
        self.key = key as u16;
        self.score = score;
    }
}

/// Slot of `key` in a table of `len` slots: `key * len / 2^64`.
pub open spec fn slot_of(key: u64, len: nat) -> int {
    (key as int * len as int) / 0x1_0000_0000_0000_0000int
}

/// A fixed-size cache of evaluations, indexed by the hash key of the position.
pub struct HashTable {
    entries: Vec<HashTableEntry>,
}

impl HashTable {
    pub closed spec fn spec_entries(&self) -> Seq<HashTableEntry> {
        self.entries@
    }

    /// What a probe for `key` finds: the slot's score where the slot's key matches.
    pub open spec fn spec_probe(&self, key: u64) -> Option<AtomicScore> {
        let e = self.spec_entries()[slot_of(key, self.spec_entries().len())];
        if e.spec_key() == key as u16 {
            Some(e.spec_score())
        } else {
            None
        }
    }

    fn fresh_entries(size: usize) -> (r: Vec<HashTableEntry>)
        ensures
            r@.len() == size,
            forall|i: int| 0 <= i < size ==> #[trigger] r@[i].spec_key() == 0 && r@[i].spec_score() == AtomicScore(0, 0),
    {
        let mut entries: Vec<HashTableEntry> = Vec::new();
        let mut i: usize = 0;
        while i < size
            invariant
                i <= size,
                entries@.len() == i,
                forall|k: int| 0 <= k < i ==> #[trigger] entries@[k].spec_key() == 0 && entries@[k].spec_score() == AtomicScore(0, 0),
            decreases size - i,
        {
            entries.push(HashTableEntry::new());
            i = i + 1;
        }
        entries
    }

    /// A table of `size_in_bytes / 8` empty slots.
    pub fn new(size_in_bytes: usize) -> (r: HashTable)
        ensures
            r.spec_entries().len() == size_in_bytes / 8,
            forall|i: int| 0 <= i < size_in_bytes / 8 ==> #[trigger] r.spec_entries()[i].spec_key() == 0
                && r.spec_entries()[i].spec_score() == AtomicScore(0, 0),
    {
        HashTable { entries: Self::fresh_entries(size_in_bytes / 8) }
    }

    pub fn resize(&mut self, size_in_bytes: usize)
        ensures
            final(self).spec_entries().len() == size_in_bytes / 8,
            forall|i: int| 0 <= i < size_in_bytes / 8 ==> #[trigger] final(self).spec_entries()[i].spec_key() == 0
                && final(self).spec_entries()[i].spec_score() == AtomicScore(0, 0),
    {
        *self = HashTable::new(size_in_bytes);
    }

    /// Empties every slot; the size stays.
    pub fn clear(&mut self)
        ensures
            final(self).spec_entries().len() == old(self).spec_entries().len(),
            forall|i: int| 0 <= i < old(self).spec_entries().len() ==> #[trigger] final(self).spec_entries()[i].spec_key() == 0
                && final(self).spec_entries()[i].spec_score() == AtomicScore(0, 0),
    {
        let size = self.entries.len();
        self.entries = Self::fresh_entries(size);
    }

    pub fn len(&self) -> (r: usize)
        ensures
            r == self.spec_entries().len(),
    {
        self.entries.len()
    }

    /// Slot of `key`: the high 64 bits of `key * len`, always below `len`.
    fn index_of(&self, key: u64) -> (r: usize)
        requires
            self.spec_entries().len() > 0,
        ensures
            r == slot_of(key, self.spec_entries().len()),
            r < self.spec_entries().len(),
    {
        let len = self.entries.len();
        assert((key as int) * (len as int) <= u128::MAX) by (nonlinear_arith)
            requires
                0 <= key <= u64::MAX,
                0 <= len <= u64::MAX,
        ;
        let product: u128 = (key as u128) * (len as u128);
        let idx = product >> 64u128;
        proof {
            assert(product >> 64u128 == product / 0x1_0000_0000_0000_0000u128) by (bit_vector);
            lemma_slot_below(key, len as nat);
        }
        idx as usize
    }

    /// The stored score for `key`, where the slot holds that key's low 16 bits.
    pub fn probe(&self, key: u64) -> (r: Option<AtomicScore>)
        requires
            self.spec_entries().len() > 0,
        ensures
            r == self.spec_probe(key),
    {
        let idx = self.index_of(key);
        let entry = &self.entries[idx];
        if entry.key != key as u16 {
            return None;
        }
        Some(entry.score)
    }

    /// Stores a score under `key`, overwriting whatever the slot held.
    pub fn store(&mut self, key: u64, score: AtomicScore)
        requires
            old(self).spec_entries().len() > 0,
        ensures
            final(self).spec_entries() == old(self).spec_entries().update(
                slot_of(key, old(self).spec_entries().len()),
                final(self).spec_entries()[slot_of(key, old(self).spec_entries().len())],
            ),
            final(self).spec_entries()[slot_of(key, old(self).spec_entries().len())].spec_key() == key as u16,
            final(self).spec_entries()[slot_of(key, old(self).spec_entries().len())].spec_score() == score,
            final(self).spec_probe(key) == Some(score),
    {
        let idx = self.index_of(key);
        self.entries[idx].replace(key, score);
    }
}

/// `key * len / 2^64` is a slot of a table of `len` slots.
pub proof fn lemma_slot_below(key: u64, len: nat)
    requires
        len > 0,
    ensures
        0 <= slot_of(key, len) < len,
{
    let m = 0x1_0000_0000_0000_0000int;
    assert(key as int * len as int <= (m - 1) * len as int) by (nonlinear_arith)
        requires
            0 <= key < m,
            len > 0,
    ;
    assert(0 <= (key as int * len as int) / m < len) by (nonlinear_arith)
        requires
            0 <= key as int * len as int <= (m - 1) * len as int,
            m > 0,
            len > 0,
    ;
}

} // verus!
