//! The field values an object carries, as a sparse set of indexed words.
use vstd::prelude::*;

verus! {

/// Entries in ascending order of their index, each index once.
pub open spec fn increasing(s: Seq<(u16, u32)>) -> bool {
    forall|i: int, j: int| 0 <= i < j < s.len() ==> s[i].0 < s[j].0
}

/// The map that a sequence of entries spells out.
pub open spec fn entries_map(s: Seq<(u16, u32)>) -> Map<u16, u32>
    decreases s.len(),
{
    if s.len() == 0 {
        Map::empty()
    } else {
        entries_map(s.drop_last()).insert(s.last().0, s.last().1)
    }
}

proof fn lemma_entry_present(s: Seq<(u16, u32)>, k: int)
    requires
        increasing(s),
        0 <= k < s.len(),
    ensures
        entries_map(s).contains_key(s[k].0),
        entries_map(s)[s[k].0] == s[k].1,
    decreases s.len(),
{
    if k < s.len() - 1 {
        assert(increasing(s.drop_last()));
        lemma_entry_present(s.drop_last(), k);
    }
}

proof fn lemma_entry_absent(s: Seq<(u16, u32)>, index: u16)
    requires
        forall|k: int| 0 <= k < s.len() ==> s[k].0 != index,
    ensures
        !entries_map(s).contains_key(index),
    decreases s.len(),
{
    if s.len() > 0 {
        lemma_entry_absent(s.drop_last(), index);
    }
}

proof fn lemma_entry_exists(s: Seq<(u16, u32)>, index: u16)
    requires
        entries_map(s).contains_key(index),
    ensures
        exists|k: int| 0 <= k < s.len() && s[k].0 == index,
{
    if forall|k: int| 0 <= k < s.len() ==> s[k].0 != index {
        lemma_entry_absent(s, index);
    }
}

proof fn lemma_entries_len(s: Seq<(u16, u32)>)
    requires
        increasing(s),
    ensures
        entries_map(s).dom().finite(),
        entries_map(s).len() == s.len(),
    decreases s.len(),
{
    if s.len() > 0 {
        assert(increasing(s.drop_last()));
        lemma_entries_len(s.drop_last());
        lemma_entry_absent(s.drop_last(), s.last().0);
    }
}

/// Entries that hold exactly what a map holds spell that map out.
proof fn lemma_entries_are(s: Seq<(u16, u32)>, m: Map<u16, u32>)
    requires
        increasing(s),
        forall|k: int| 0 <= k < s.len() ==> m.contains_key(#[trigger] s[k].0) && m[s[k].0] == s[k].1,
        forall|q: u16| #[trigger]
            m.contains_key(q) ==> exists|k: int| 0 <= k < s.len() && s[k].0 == q,
    ensures
        entries_map(s) == m,
{
    assert forall|q: u16| #[trigger] entries_map(s).contains_key(q) implies m.contains_key(q)
        && m[q] == entries_map(s)[q] by {
        lemma_entry_exists(s, q);
        let k = choose|k: int| 0 <= k < s.len() && s[k].0 == q;
        lemma_entry_present(s, k);
    }
    assert forall|q: u16| #[trigger] m.contains_key(q) implies entries_map(s).contains_key(q) by {
        let k = choose|k: int| 0 <= k < s.len() && s[k].0 == q;
        lemma_entry_present(s, k);
    }
    assert(entries_map(s) =~= m);
}

/// The field values an object carries.
///
/// A bitmask on the wire selects which of an object's many fields are
/// present, so the set is sparse. Its view is the map from index to word.
#[derive(Debug)]
pub struct Fields {
    values: Vec<(u16, u32)>,
}

impl View for Fields {
    type V = Map<u16, u32>;

    closed spec fn view(&self) -> Map<u16, u32> {
        entries_map(self.values@)
    }
}

impl Default for Fields {
    fn default() -> (r: Self)
        ensures
            r@ == Map::<u16, u32>::empty(),
    {
        Fields { values: Vec::new() }
    }
}

impl Clone for Fields {
    fn clone(&self) -> (r: Self)
        ensures
            r@ == self@,
    {
        proof {
            use_type_invariant(self);
        }
        Fields { values: self.iter() }
    }
}

impl Fields {
    #[verifier::type_invariant]
    closed spec fn sorted(self) -> bool {
        increasing(self.values@)
    }

    fn search(&self, index: u16) -> (r: Result<usize, usize>)
        ensures
            match r {
                Ok(k) => k < self.values@.len() && self.values@[k as int].0 == index,
                Err(k) => k <= self.values@.len() && (forall|j: int|
                    0 <= j < k ==> #[trigger] self.values@[j].0 < index) && (forall|j: int|
                    k <= j < self.values@.len() ==> #[trigger] self.values@[j].0 > index),
            },
    {
        proof {
            use_type_invariant(self);
        }
        let mut low: usize = 0;
        let mut high: usize = self.values.len();
        while low < high
            invariant
                low <= high <= self.values@.len(),
                increasing(self.values@),
                forall|j: int| 0 <= j < low ==> #[trigger] self.values@[j].0 < index,
                forall|j: int|
                    high <= j < self.values@.len() ==> #[trigger] self.values@[j].0 > index,
            decreases high - low,
        {
            let middle: usize = low + (high - low) / 2;
            let at: u16 = self.values[middle].0;
            if at == index {
                return Ok(middle);
            }
            if at < index {
                low = middle + 1;
            } else {
                high = middle;
            }
        }
        Err(low)
    }

    /// The value of one field, where it is present.
    pub fn get(&self, index: u16) -> (r: Option<u32>)
        ensures
            r == self@.get(index),
    {
        proof {
            use_type_invariant(self);
        }
        match self.search(index) {
            Ok(found) => {
                proof {
                    lemma_entry_present(self.values@, found as int);
                }
                Some(self.values[found].1)
            },
            Err(_) => {
                proof {
                    lemma_entry_absent(self.values@, index);
                }
                None
            },
        }
    }

    /// Reads a pair of adjacent fields as one 64-bit value, which is how
    /// guids are stored. An absent high half reads as zero.
    pub fn get_u64(&self, index: u16) -> (r: Option<u64>)
        requires
            index < u16::MAX || !self@.contains_key(index),
        ensures
            r == guid_field(self@, index),
    {
        match self.get(index) {
            Some(low) => {
                let high: u32 = match self.get(index + 1) {
                    Some(high) => high,
                    None => 0,
                };
                Some(low as u64 + 0x1_0000_0000 * high as u64)
            },
            None => None,
        }
    }

    /// The value of one floating-point field, as its bit pattern.
    pub fn get_f32_bits(&self, index: u16) -> (r: Option<u32>)
        ensures
            r == self@.get(index),
    {
        self.get(index)
    }

    /// How many fields are present.
    pub fn len(&self) -> (r: usize)
        ensures
            r == self@.len(),
    {
        proof {
            use_type_invariant(self);
            lemma_entries_len(self.values@);
        }
        self.values.len()
    }

    /// Whether no field is present.
    pub fn is_empty(&self) -> (r: bool)
        ensures
            r == (self@ == Map::<u16, u32>::empty()),
    {
        proof {
            use_type_invariant(self);
            lemma_entries_len(self.values@);
            if self.values@.len() > 0 {
                lemma_entry_present(self.values@, 0);
            }
        }
        self.values.len() == 0
    }

    /// Every field that is present, in ascending order of index.
    pub fn iter(&self) -> (r: Vec<(u16, u32)>)
        ensures
            increasing(r@),
            entries_map(r@) == self@,
    {
        proof {
            use_type_invariant(self);
        }
        let mut out: Vec<(u16, u32)> = Vec::new();
        for i in 0..self.values.len()
            invariant
                out@ == self.values@.subrange(0, i as int),
        {
            out.push(self.values[i]);
            assert(out@ =~= self.values@.subrange(0, i + 1));
        }
        assert(out@ =~= self.values@);
        out
    }

    /// The set that entries in ascending order spell out.
    pub(crate) fn from_entries(values: Vec<(u16, u32)>) -> (r: Self)
        requires
            increasing(values@),
        ensures
            r@ == entries_map(values@),
    {
        Fields { values }
    }

    /// Writes one field.
    pub fn set(&mut self, index: u16, value: u32)
        ensures
            final(self)@ == old(self)@.insert(index, value),
    {
        proof {
            use_type_invariant(&*self);
        }
        let ghost before = self.values@;
        let ghost after = entries_map(before).insert(index, value);
        match self.search(index) {
            Ok(found) => {
                let ghost there = before.update(found as int, (index, value));
                proof {
                    assert forall|k: int| 0 <= k < there.len() implies after.contains_key(
                        #[trigger] there[k].0,
                    ) && after[there[k].0] == there[k].1 by {
                        lemma_entry_present(before, k);
                    }
                    assert forall|q: u16| #[trigger] after.contains_key(q) implies exists|k: int|
                        0 <= k < there.len() && there[k].0 == q by {
                        if q == index {
                            assert(there[found as int].0 == q);
                        } else {
                            lemma_entry_exists(before, q);
                            let k = choose|k: int| 0 <= k < before.len() && before[k].0 == q;
                            assert(there[k].0 == q);
                        }
                    }
                    lemma_entries_are(there, after);
                }
                let mut values: Vec<(u16, u32)> = Vec::new();
                core::mem::swap(&mut values, &mut self.values);
                values.set(found, (index, value));
                self.values = values;
            },
            Err(at) => {
                let ghost there = before.insert(at as int, (index, value));
                proof {
                    assert forall|k: int| 0 <= k < there.len() implies after.contains_key(
                        #[trigger] there[k].0,
                    ) && after[there[k].0] == there[k].1 by {
                        if k < at {
                            lemma_entry_present(before, k);
                        } else if k > at {
                            lemma_entry_present(before, k - 1);
                        }
                    }
                    assert forall|q: u16| #[trigger] after.contains_key(q) implies exists|k: int|
                        0 <= k < there.len() && there[k].0 == q by {
                        if q == index {
                            assert(there[at as int].0 == q);
                        } else {
                            lemma_entry_exists(before, q);
                            let k = choose|k: int| 0 <= k < before.len() && before[k].0 == q;
                            if k < at {
                                assert(there[k].0 == q);
                            } else {
                                assert(there[k + 1].0 == q);
                            }
                        }
                    }
                    lemma_entries_are(there, after);
                }
                let mut values: Vec<(u16, u32)> = Vec::new();
                core::mem::swap(&mut values, &mut self.values);
                values.insert(at, (index, value));
                self.values = values;
            },
        }
    }

    /// Folds a later update into this set: the fields it names take its
    /// values, and every other field stays as it was.
    pub fn merge(&mut self, newer: &Fields)
        ensures
            final(self)@ == old(self)@.union_prefer_right(newer@),
    {
        proof {
            use_type_invariant(&*self);
            use_type_invariant(newer);
        }
        let ghost both = self@.union_prefer_right(newer@);
        let mut merged: Vec<(u16, u32)> = Vec::new();
        let mut a: usize = 0;
        let mut b: usize = 0;
        while a < self.values.len() || b < newer.values.len()
            invariant
                a <= self.values@.len(),
                b <= newer.values@.len(),
                *self == *old(self),
                increasing(self.values@),
                increasing(newer.values@),
                both == entries_map(self.values@).union_prefer_right(entries_map(newer.values@)),
                increasing(merged@),
                forall|k: int|
                    0 <= k < merged@.len() ==> both.contains_key(#[trigger] merged@[k].0)
                        && both[merged@[k].0] == merged@[k].1,
                forall|k: int|
                    0 <= k < merged@.len() ==> (a < self.values@.len() ==> #[trigger] merged@[k].0
                        < self.values@[a as int].0) && (b < newer.values@.len() ==> merged@[k].0
                        < newer.values@[b as int].0),
                forall|i: int|
                    #![trigger self.values@[i]]
                    0 <= i < a ==> exists|k: int|
                        0 <= k < merged@.len() && merged@[k].0 == self.values@[i].0,
                forall|i: int|
                    #![trigger newer.values@[i]]
                    0 <= i < b ==> exists|k: int|
                        0 <= k < merged@.len() && merged@[k].0 == newer.values@[i].0,
            decreases (self.values@.len() - a) + (newer.values@.len() - b),
        {
            let ghost before = merged@;
            let take_old: bool = b >= newer.values.len() || (a < self.values.len()
                && self.values[a].0 < newer.values[b].0);
            if take_old {
                let entry: (u16, u32) = self.values[a];
                proof {
                    lemma_entry_present(self.values@, a as int);
                    lemma_absent_below(newer.values@, b as int, entry.0, before);
                }
                merged.push(entry);
                a += 1;
            } else {
                let entry: (u16, u32) = newer.values[b];
                proof {
                    lemma_entry_present(newer.values@, b as int);
                }
                merged.push(entry);
                if a < self.values.len() && self.values[a].0 == entry.0 {
                    a += 1;
                }
                b += 1;
            }
            assert(merged@[before.len() as int] == merged@.last());
            assert(forall|k: int| 0 <= k < before.len() ==> merged@[k] == before[k]);
        }
        proof {
            assert forall|q: u16| #[trigger] both.contains_key(q) implies exists|k: int|
                0 <= k < merged@.len() && merged@[k].0 == q by {
                if entries_map(newer.values@).contains_key(q) {
                    lemma_entry_exists(newer.values@, q);
                    let i = choose|i: int|
                        0 <= i < newer.values@.len() && newer.values@[i].0 == q;
                    assert(newer.values@[i].0 == q);
                } else {
                    lemma_entry_exists(self.values@, q);
                    let i = choose|i: int| 0 <= i < self.values@.len() && self.values@[i].0 == q;
                    assert(self.values@[i].0 == q);
                }
            }
            lemma_entries_are(merged@, both);
        }
        self.values = merged;
    }
}

/// A pair of adjacent fields as one 64-bit value.
pub open spec fn guid_field(fields: Map<u16, u32>, index: u16) -> Option<u64> {
    match fields.get(index) {
        Some(low) => {
            let high = match fields.get((index + 1) as u16) {
                Some(high) => high,
                None => 0,
            };
            Some((low + 0x1_0000_0000 * high) as u64)
        },
        None => None,
    }
}

/// An index that all entries from `b` on exceed, and that all entries before
/// fall short of, is not among the entries.
proof fn lemma_absent_below(s: Seq<(u16, u32)>, b: int, index: u16, done: Seq<(u16, u32)>)
    requires
        increasing(s),
        0 <= b <= s.len(),
        b < s.len() ==> index < s[b].0,
        forall|i: int|
            #![trigger s[i]]
            0 <= i < b ==> exists|k: int| 0 <= k < done.len() && done[k].0 == s[i].0,
        forall|k: int| 0 <= k < done.len() ==> #[trigger] done[k].0 < index,
    ensures
        !entries_map(s).contains_key(index),
{
    assert forall|k: int| 0 <= k < s.len() implies s[k].0 != index by {
        if k >= b {
            assert(s[b].0 <= s[k].0);
        }
    }
    lemma_entry_absent(s, index);
}

} // verus!
