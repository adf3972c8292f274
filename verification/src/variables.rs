use vstd::prelude::*;
use vstd::string::StringExecFns;
use crate::token::is_number_literal;

verus! {

/// A table from variable names to numbers. A number is held as its numeral
/// (the decimal text that writes it); each name occurs at most once.
pub struct VariableMap {
    entries: Vec<(String, String)>,
}

/// Whether the names of a list of entries are pairwise distinct.
pub open spec fn distinct_names(entries: Seq<(String, String)>) -> bool {
    forall|i: int, j: int|
        0 <= i < entries.len() && 0 <= j < entries.len() && i != j ==> #[trigger] entries[i].0@
            != #[trigger] entries[j].0@
}

/// Whether every value of a list of entries is a numeral.
pub open spec fn numeral_values(entries: Seq<(String, String)>) -> bool {
    forall|i: int| 0 <= i < entries.len() ==> is_number_literal(#[trigger] entries[i].1@)
}

/// Whether some entry is named `k`.
pub open spec fn has_name(entries: Seq<(String, String)>, k: Seq<char>) -> bool {
    exists|i: int| 0 <= i < entries.len() && #[trigger] entries[i].0@ == k
}

/// The map that a list of entries with distinct names denotes.
pub open spec fn entries_map(entries: Seq<(String, String)>) -> Map<Seq<char>, Seq<char>> {
    Map::new(
        |k: Seq<char>| has_name(entries, k),
        |k: Seq<char>|
            entries[choose|i: int| 0 <= i < entries.len() && #[trigger] entries[i].0@ == k].1@,
    )
}

/// With distinct names, the map sends each entry's name to its value.
pub proof fn lemma_entries_map_at(entries: Seq<(String, String)>, i: int)
    requires
        distinct_names(entries),
        0 <= i < entries.len(),
    ensures
        entries_map(entries).contains_key(entries[i].0@),
        entries_map(entries)[entries[i].0@] == entries[i].1@,
{
    let k = entries[i].0@;
    assert(has_name(entries, k));
    let j = choose|j: int| 0 <= j < entries.len() && #[trigger] entries[j].0@ == k;
    assert(j == i);
}

impl View for VariableMap {
    type V = Map<Seq<char>, Seq<char>>;

    closed spec fn view(&self) -> Map<Seq<char>, Seq<char>> {
        entries_map(self.entries@)
    }
}

impl VariableMap {
    #[verifier::type_invariant]
    closed spec fn names_are_distinct(self) -> bool {
        distinct_names(self.entries@) && numeral_values(self.entries@)
    }

    /// The empty table.
    pub fn new() -> (m: VariableMap)
        ensures
            m@ == Map::<Seq<char>, Seq<char>>::empty(),
    {
        let m = VariableMap { entries: Vec::new() };
        assert(m@ =~= Map::<Seq<char>, Seq<char>>::empty());
        m
    }

    /// The index of the entry named `name`, if any.
    fn find(&self, name: &String) -> (r: Option<usize>)
        ensures
            match r {
                Some(i) => i < self.entries.len() && self.entries@[i as int].0@ == name@,
                None => !has_name(self.entries@, name@),
            },
    {
        let mut i: usize = 0;
        while i < self.entries.len()
            invariant
                0 <= i <= self.entries.len(),
                forall|j: int| 0 <= j < i ==> #[trigger] self.entries@[j].0@ != name@,
            decreases self.entries.len() - i,
        {
            if self.entries[i].0 == *name {
                return Some(i);
            }
            i = i + 1;
        }
        None
    }

    /// The numeral stored under `name`, if any.
    pub fn get(&self, name: &str) -> (r: Option<String>)
        ensures
            match r {
                Some(v) => self@.contains_key(name@) && v@ == self@[name@] && is_number_literal(
                    v@,
                ),
                None => !self@.contains_key(name@),
            },
    {
        proof {
            use_type_invariant(self);
        }
        let key = String::from_str(name);
        match self.find(&key) {
            Some(i) => {
                proof {
                    lemma_entries_map_at(self.entries@, i as int);
                }
                Some(self.entries[i].1.clone())
            },
            None => None,
        }
    }

    /// Stores the numeral `value` under `name`, replacing any earlier value.
    pub fn insert(&mut self, name: &str, value: String)
        requires
            is_number_literal(value@),
        ensures
            final(self)@ == old(self)@.insert(name@, value@),
    {
        proof {
            use_type_invariant(&*self);
        }
        let key = String::from_str(name);
        let ghost old_entries = self.entries@;
        let found = self.find(&key);
        let mut entries: Vec<(String, String)> = Vec::new();
        core::mem::swap(&mut entries, &mut self.entries);
        match found {
            Some(i) => {
                entries.set(i, (key, value));
                proof {
                    let new_entries = entries@;
                    assert(distinct_names(new_entries));
                    assert(numeral_values(new_entries));
                    assert forall|k: Seq<char>|
                        #[trigger] entries_map(new_entries).contains_key(k) == entries_map(
                            old_entries,
                        ).insert(name@, value@).contains_key(k) by {
                        if has_name(new_entries, k) {
                            let j = choose|j: int|
                                0 <= j < new_entries.len() && #[trigger] new_entries[j].0@ == k;
                            assert(old_entries[j].0@ == k);
                        }
                        if has_name(old_entries, k) {
                            let j = choose|j: int|
                                0 <= j < old_entries.len() && #[trigger] old_entries[j].0@ == k;
                            assert(new_entries[j].0@ == k);
                        }
                        assert(new_entries[i as int].0@ == name@);
                    }
                    assert forall|k: Seq<char>|
                        #[trigger] entries_map(new_entries).contains_key(k) implies entries_map(
                        new_entries,
                    )[k] == entries_map(old_entries).insert(name@, value@)[k] by {
                        let j = choose|j: int|
                            0 <= j < new_entries.len() && #[trigger] new_entries[j].0@ == k;
                        lemma_entries_map_at(new_entries, j);
                        if j != i {
                            lemma_entries_map_at(old_entries, j);
                        }
                    }
                    assert(entries_map(new_entries) =~= entries_map(old_entries).insert(
                        name@,
                        value@,
                    ));
                }
            },
            None => {
                entries.push((key, value));
                proof {
                    let new_entries = entries@;
                    let n = old_entries.len() as int;
                    assert(numeral_values(new_entries));
                    assert forall|k: Seq<char>|
                        #[trigger] entries_map(new_entries).contains_key(k) == entries_map(
                            old_entries,
                        ).insert(name@, value@).contains_key(k) by {
                        if has_name(new_entries, k) {
                            let j = choose|j: int|
                                0 <= j < new_entries.len() && #[trigger] new_entries[j].0@ == k;
                            if j < n {
                                assert(old_entries[j].0@ == k);
                            }
                        }
                        if has_name(old_entries, k) {
                            let j = choose|j: int|
                                0 <= j < old_entries.len() && #[trigger] old_entries[j].0@ == k;
                            assert(new_entries[j].0@ == k);
                        }
                        assert(new_entries[n].0@ == name@);
                    }
                    assert forall|k: Seq<char>|
                        #[trigger] entries_map(new_entries).contains_key(k) implies entries_map(
                        new_entries,
                    )[k] == entries_map(old_entries).insert(name@, value@)[k] by {
                        let j = choose|j: int|
                            0 <= j < new_entries.len() && #[trigger] new_entries[j].0@ == k;
                        lemma_entries_map_at(new_entries, j);
                        if j < n {
                            lemma_entries_map_at(old_entries, j);
                        }
                    }
                    assert(entries_map(new_entries) =~= entries_map(old_entries).insert(
                        name@,
                        value@,
                    ));
                }
            },
        }
        self.entries = entries;
    }
}


impl VariableMap {
    /// Removes the entry named `name`, if there is one.
    pub fn remove(&mut self, name: &str)
        ensures
            final(self)@ == old(self)@.remove(name@),
    {
        proof {
            use_type_invariant(&*self);
        }
        let key = String::from_str(name);
        let ghost old_entries = self.entries@;
        match self.find(&key) {
            Some(i) => {
                let mut entries: Vec<(String, String)> = Vec::new();
                core::mem::swap(&mut entries, &mut self.entries);
                entries.remove(i);
                proof {
                    let new_entries = entries@;
                    assert forall|a: int, b: int|
                        0 <= a < new_entries.len() && 0 <= b < new_entries.len() && a != b
                            implies #[trigger] new_entries[a].0@ != #[trigger] new_entries[b].0@ by {
                        let oa = if a < i { a } else { a + 1 };
                        let ob = if b < i { b } else { b + 1 };
                        assert(new_entries[a] == old_entries[oa]);
                        assert(new_entries[b] == old_entries[ob]);
                    }
                    assert forall|a: int| 0 <= a < new_entries.len() implies is_number_literal(
                        #[trigger] new_entries[a].1@,
                    ) by {
                        let oa = if a < i { a } else { a + 1 };
                        assert(new_entries[a] == old_entries[oa]);
                    }
                    assert forall|k: Seq<char>|
                        #[trigger] entries_map(new_entries).contains_key(k) == entries_map(
                            old_entries,
                        ).remove(name@).contains_key(k) by {
                        if has_name(new_entries, k) {
                            let j = choose|j: int|
                                0 <= j < new_entries.len() && #[trigger] new_entries[j].0@ == k;
                            let oj = if j < i { j } else { j + 1 };
                            assert(new_entries[j] == old_entries[oj]);
                            assert(oj != i);
                        }
                        if has_name(old_entries, k) && k != name@ {
                            let j = choose|j: int|
                                0 <= j < old_entries.len() && #[trigger] old_entries[j].0@ == k;
                            assert(j != i);
                            let nj = if j < i { j } else { j - 1 };
                            assert(new_entries[nj] == old_entries[j]);
                        }
                    }
                    assert forall|k: Seq<char>|
                        #[trigger] entries_map(new_entries).contains_key(k) implies entries_map(
                        new_entries,
                    )[k] == entries_map(old_entries).remove(name@)[k] by {
                        let j = choose|j: int|
                            0 <= j < new_entries.len() && #[trigger] new_entries[j].0@ == k;
                        let oj = if j < i { j } else { j + 1 };
                        assert(new_entries[j] == old_entries[oj]);
                        lemma_entries_map_at(new_entries, j);
                        lemma_entries_map_at(old_entries, oj);
                    }
                    assert(entries_map(new_entries) =~= entries_map(old_entries).remove(name@));
                }
                self.entries = entries;
            },
            None => {
                assert(entries_map(old_entries) =~= entries_map(old_entries).remove(name@));
            },
        }
    }

    /// Removes every entry.
    pub fn clear(&mut self)
        ensures
            final(self)@ == Map::<Seq<char>, Seq<char>>::empty(),
    {
        self.entries = Vec::new();
        assert(entries_map(self.entries@) =~= Map::<Seq<char>, Seq<char>>::empty());
    }

    /// Whether the table has no entry.
    pub fn is_empty(&self) -> (b: bool)
        ensures
            b == (self@ =~= Map::<Seq<char>, Seq<char>>::empty()),
    {
        proof {
            use_type_invariant(self);
            if self.entries.len() > 0 {
                lemma_entries_map_at(self.entries@, 0);
            }
        }
        self.entries.len() == 0
    }

    /// The number of entries.
    pub fn len(&self) -> (n: usize)
        ensures
            n == self@.dom().len(),
    {
        proof {
            use_type_invariant(self);
            lemma_entries_map_len(self.entries@);
        }
        self.entries.len()
    }

    /// The names that have entries, each once.
    pub fn names(&self) -> (r: Vec<String>)
        ensures
            r.len() == self@.dom().len(),
            forall|i: int| 0 <= i < r.len() ==> self@.contains_key(#[trigger] r@[i]@),
            forall|k: Seq<char>|
                self@.contains_key(k) ==> exists|i: int| 0 <= i < r.len() && #[trigger] r@[i]@ == k,
    {
        proof {
            use_type_invariant(self);
            lemma_entries_map_len(self.entries@);
        }
        let mut r: Vec<String> = Vec::new();
        let mut i: usize = 0;
        while i < self.entries.len()
            invariant
                0 <= i <= self.entries.len(),
                distinct_names(self.entries@),
                r@.len() == i,
                forall|j: int| 0 <= j < i ==> #[trigger] r@[j]@ == self.entries@[j].0@,
            decreases self.entries.len() - i,
        {
            r.push(self.entries[i].0.clone());
            i = i + 1;
        }
        proof {
            assert forall|j: int| 0 <= j < r.len() implies self@.contains_key(#[trigger] r@[j]@) by {
                lemma_entries_map_at(self.entries@, j);
            }
            assert forall|k: Seq<char>| self@.contains_key(k) implies exists|j: int|
                0 <= j < r.len() && #[trigger] r@[j]@ == k by {
                let j = choose|j: int| 0 <= j < self.entries.len() && #[trigger] self.entries@[j].0@ == k;
                assert(r@[j]@ == k);
            }
        }
        r
    }

    /// A copy of the table.
    pub fn duplicate(&self) -> (m: VariableMap)
        ensures
            m@ == self@,
    {
        proof {
            use_type_invariant(self);
        }
        let mut entries: Vec<(String, String)> = Vec::new();
        let mut i: usize = 0;
        while i < self.entries.len()
            invariant
                0 <= i <= self.entries.len(),
                distinct_names(self.entries@),
                numeral_values(self.entries@),
                entries@.len() == i,
                forall|j: int|
                    0 <= j < i ==> #[trigger] entries@[j].0@ == self.entries@[j].0@
                        && entries@[j].1@ == self.entries@[j].1@,
            decreases self.entries.len() - i,
        {
            let k = self.entries[i].0.clone();
            let v = self.entries[i].1.clone();
            entries.push((k, v));
            i = i + 1;
        }
        proof {
            let a = entries@;
            let b = self.entries@;
            assert forall|k: Seq<char>| #[trigger]
                entries_map(a).contains_key(k) == entries_map(b).contains_key(k) by {
                if has_name(a, k) {
                    let j = choose|j: int| 0 <= j < a.len() && #[trigger] a[j].0@ == k;
                    assert(b[j].0@ == k);
                }
                if has_name(b, k) {
                    let j = choose|j: int| 0 <= j < b.len() && #[trigger] b[j].0@ == k;
                    assert(a[j].0@ == k);
                }
            }
            assert forall|k: Seq<char>| #[trigger]
                entries_map(a).contains_key(k) implies entries_map(a)[k] == entries_map(b)[k] by {
                let j = choose|j: int| 0 <= j < a.len() && #[trigger] a[j].0@ == k;
                lemma_entries_map_at(a, j);
                lemma_entries_map_at(b, j);
            }
            assert(entries_map(a) =~= entries_map(b));
            assert forall|j: int| 0 <= j < a.len() implies is_number_literal(#[trigger] a[j].1@) by {
                assert(a[j].0@ == b[j].0@);
                assert(is_number_literal(b[j].1@));
            }
        }
        VariableMap { entries }
    }
}

/// With distinct names, the map has as many keys as there are entries.
proof fn lemma_entries_map_len(entries: Seq<(String, String)>)
    requires
        distinct_names(entries),
    ensures
        entries_map(entries).dom().finite(),
        entries_map(entries).dom().len() == entries.len(),
    decreases entries.len(),
{
    let m = entries_map(entries);
    if entries.len() == 0 {
        assert(m.dom() =~= Set::<Seq<char>>::empty());
    } else {
        let rest = entries.drop_last();
        let k = entries.last().0@;
        assert(distinct_names(rest)) by {
            assert forall|a: int, b: int|
                0 <= a < rest.len() && 0 <= b < rest.len() && a != b implies #[trigger] rest[a].0@
                != #[trigger] rest[b].0@ by {
                assert(rest[a] == entries[a] && rest[b] == entries[b]);
            }
        }
        lemma_entries_map_len(rest);
        assert forall|x: Seq<char>| #[trigger] m.dom().contains(x) == entries_map(rest).dom().insert(
            k,
        ).contains(x) by {
            if has_name(entries, x) {
                let j = choose|j: int| 0 <= j < entries.len() && #[trigger] entries[j].0@ == x;
                if j < rest.len() {
                    assert(rest[j].0@ == x);
                }
            }
            if has_name(rest, x) {
                let j = choose|j: int| 0 <= j < rest.len() && #[trigger] rest[j].0@ == x;
                assert(entries[j].0@ == x);
            }
            assert(entries[entries.len() - 1].0@ == k);
        }
        assert(m.dom() =~= entries_map(rest).dom().insert(k));
        assert(!entries_map(rest).dom().contains(k)) by {
            if has_name(rest, k) {
                let j = choose|j: int| 0 <= j < rest.len() && #[trigger] rest[j].0@ == k;
                assert(entries[j].0@ == k);
            }
        }
    }
}

} // verus!
