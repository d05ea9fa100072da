use vstd::prelude::*;

verus! {

/// The map that `entries` stands for: a later entry overrides an earlier one
/// with the same key.
pub open spec fn map_of(entries: Seq<(String, usize)>) -> Map<Seq<char>, usize>
    decreases entries.len(),
{
    if entries.len() == 0 {
        Map::empty()
    } else {
        map_of(entries.drop_last()).insert(entries.last().0@, entries.last().1)
    }
}

pub open spec fn keys_distinct(entries: Seq<(String, usize)>) -> bool {
    forall|i: int, j: int|
        0 <= i < j < entries.len() ==> (#[trigger] entries[i]).0@ != (#[trigger] entries[j]).0@
}

/// A key is in the map exactly when some entry carries it.
proof fn lemma_map_of_keys(entries: Seq<(String, usize)>, k: Seq<char>)
    ensures
        map_of(entries).contains_key(k) <==> exists|j: int| 0 <= j < entries.len() && (#[trigger] entries[j]).0@ == k,
    decreases entries.len(),
{
    if entries.len() > 0 {
        let init = entries.drop_last();
        lemma_map_of_keys(init, k);
        if map_of(init).contains_key(k) {
            let j = choose|j: int| 0 <= j < init.len() && (#[trigger] init[j]).0@ == k;
            assert(entries[j] == init[j]);
        }
        if exists|j: int| 0 <= j < entries.len() && (#[trigger] entries[j]).0@ == k {
            let j = choose|j: int| 0 <= j < entries.len() && (#[trigger] entries[j]).0@ == k;
            if j < entries.len() - 1 {
                assert(init[j] == entries[j]);
            }
        }
    }
}

/// With distinct keys, each entry's key maps to that entry's weight.
proof fn lemma_map_of_entry(entries: Seq<(String, usize)>, i: int)
    requires
        keys_distinct(entries),
        0 <= i < entries.len(),
    ensures
        map_of(entries).contains_key(entries[i].0@),
        map_of(entries)[entries[i].0@] == entries[i].1,
    decreases entries.len(),
{
    let init = entries.drop_last();
    if i < entries.len() - 1 {
        assert(init[i] == entries[i]);
        assert(keys_distinct(init)) by {
            assert forall|a: int, b: int| 0 <= a < b < init.len() implies (#[trigger] init[a]).0@ != (#[trigger] init[b]).0@ by {
                assert(init[a] == entries[a] && init[b] == entries[b]);
            }
        }
        lemma_map_of_entry(init, i);
        assert(entries[i].0@ != entries.last().0@);
    }
}

/// Weights of field coordinates (`"Type.field"`); a coordinate that is not
/// in the map weighs one. Kept as a list of distinct keys: vstd specifies
/// `HashMap::get` only for key types that obey its key model, which it grants
/// to primitive types and not to `String`, so a lookup by coordinate in a
/// `HashMap<String, usize>` proves nothing.
pub struct CostMap {
    entries: Vec<(String, usize)>,
}

impl View for CostMap {
    type V = Map<Seq<char>, usize>;

    closed spec fn view(&self) -> Map<Seq<char>, usize> {
        map_of(self.entries@)
    }
}

/// The weight of coordinate `coord` under the map `m`.
pub open spec fn weight_of(m: Map<Seq<char>, usize>, coord: Seq<char>) -> nat {
    if m.contains_key(coord) {
        m[coord] as nat
    } else {
        1
    }
}

impl CostMap {
    #[verifier::type_invariant]
    spec fn inv(self) -> bool {
        keys_distinct(self.entries@)
    }

    /// A map with no coordinates.
    pub fn new() -> (r: CostMap)
        ensures
            r@ == Map::<Seq<char>, usize>::empty(),
    {
        CostMap { entries: Vec::new() }
    }

    /// Sets the weight of `coord`, replacing any earlier one.
    pub fn insert(&mut self, coord: String, weight: usize)
        ensures
            final(self)@ == old(self)@.insert(coord@, weight),
    {
        proof { use_type_invariant(&*self); }
        let mut i: usize = 0;
        while i < self.entries.len()
            invariant
                0 <= i <= self.entries@.len(),
                keys_distinct(self.entries@),
                self.entries@ == old(self).entries@,
                forall|j: int| 0 <= j < i ==> (#[trigger] self.entries@[j]).0@ != coord@,
            decreases self.entries@.len() - i,
        {
            if self.entries[i].0 == coord {
                let ghost before = self.entries@;
                let ghost key = coord@;
                let mut entries = Vec::new();
                std::mem::swap(&mut entries, &mut self.entries);
                entries.set(i, (coord, weight));
                let ghost after = entries@;
                proof {
                    assert(keys_distinct(after)) by {
                        assert forall|a: int, b: int| 0 <= a < b < after.len() implies (#[trigger] after[a]).0@ != (#[trigger] after[b]).0@ by {
                            assert(after[a].0@ == before[a].0@ && after[b].0@ == before[b].0@);
                        }
                    }
                    assert(map_of(after) =~= map_of(before).insert(key, weight)) by {
                        assert forall|k: Seq<char>| #![auto] map_of(after).contains_key(k) <==> map_of(before).insert(key, weight).contains_key(k) by {
                            lemma_map_of_keys(after, k);
                            lemma_map_of_keys(before, k);
                            if exists|j: int| 0 <= j < before.len() && (#[trigger] before[j]).0@ == k {
                                let j = choose|j: int| 0 <= j < before.len() && (#[trigger] before[j]).0@ == k;
                                assert(after[j].0@ == k);
                            }
                            if exists|j: int| 0 <= j < after.len() && (#[trigger] after[j]).0@ == k {
                                let j = choose|j: int| 0 <= j < after.len() && (#[trigger] after[j]).0@ == k;
                                assert(before[j].0@ == k);
                            }
                        }
                        assert forall|k: Seq<char>| #[trigger] map_of(after).contains_key(k) implies map_of(after)[k] == map_of(before).insert(key, weight)[k] by {
                            lemma_map_of_keys(after, k);
                            let j = choose|j: int| 0 <= j < after.len() && (#[trigger] after[j]).0@ == k;
                            lemma_map_of_entry(after, j);
                            if j != i {
                                assert(before[j] == after[j]);
                                lemma_map_of_entry(before, j);
                            }
                        }
                    }
                }
                self.entries = entries;
                return;
            }
            i = i + 1;
        }
        let ghost before = self.entries@;
        let ghost key = coord@;
        let mut entries = Vec::new();
        std::mem::swap(&mut entries, &mut self.entries);
        entries.push((coord, weight));
        proof {
            assert(entries@.drop_last() =~= before);
            assert(keys_distinct(entries@)) by {
                assert forall|a: int, b: int| 0 <= a < b < entries@.len() implies (#[trigger] entries@[a]).0@ != (#[trigger] entries@[b]).0@ by {
                    if b < before.len() {
                        assert(entries@[a] == before[a] && entries@[b] == before[b]);
                    } else {
                        assert(entries@[a] == before[a]);
                    }
                }
            }
        }
        self.entries = entries;
    }

    /// The weight stored for `coord`, if any.
    pub fn get(&self, coord: &String) -> (r: Option<usize>)
        ensures
            self@.contains_key(coord@) ==> r == Some(self@[coord@]),
            !self@.contains_key(coord@) ==> r is None,
    {
        proof { use_type_invariant(self); }
        let mut i: usize = 0;
        while i < self.entries.len()
            invariant
                0 <= i <= self.entries@.len(),
                keys_distinct(self.entries@),
                forall|j: int| 0 <= j < i ==> (#[trigger] self.entries@[j]).0@ != coord@,
            decreases self.entries@.len() - i,
        {
            if self.entries[i].0 == *coord {
                proof { lemma_map_of_entry(self.entries@, i as int); }
                return Some(self.entries[i].1);
            }
            i = i + 1;
        }
        proof { lemma_map_of_keys(self.entries@, coord@); }
        None
    }

    /// The weight of `coord`: the stored one, or one where none is stored.
    pub fn weight(&self, coord: &String) -> (r: usize)
        ensures
            r as nat == weight_of(self@, coord@),
    {
        match self.get(coord) {
            Some(w) => w,
            None => 1,
        }
    }
}

} // verus!
