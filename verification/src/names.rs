//! A map from names to values that keeps the order of insertion.
use vstd::prelude::*;

verus! {

/// A map from strings to values. Names are held in the order in which they
/// were first inserted.
pub struct NameMap<V> {
    entries: Vec<(String, V)>,
}

/// Whether `e` holds an entry for `k`.
spec fn has_entry<V>(e: Seq<(String, V)>, k: Seq<char>) -> bool {
    exists|i: int| 0 <= i < e.len() && (#[trigger] e[i]).0@ == k
}

/// The index of an entry for `k`.
spec fn entry_index<V>(e: Seq<(String, V)>, k: Seq<char>) -> int {
    choose|i: int| 0 <= i < e.len() && (#[trigger] e[i]).0@ == k
}

/// Whether no two entries have the same name.
spec fn distinct<V>(e: Seq<(String, V)>) -> bool {
    forall|i: int, j: int| 0 <= i < j < e.len() ==> (#[trigger] e[i]).0@ != (#[trigger] e[j]).0@
}

/// The map that the entries `e` stand for.
spec fn map_of<V>(e: Seq<(String, V)>) -> Map<Seq<char>, V> {
    Map::new(|k: Seq<char>| has_entry(e, k), |k: Seq<char>| e[entry_index(e, k)].1)
}

impl<V> View for NameMap<V> {
    type V = Map<Seq<char>, V>;

    closed spec fn view(&self) -> Map<Seq<char>, V> {
        map_of(self.entries@)
    }
}

impl<V: DeepView> DeepView for NameMap<V> {
    type V = Map<Seq<char>, V::V>;

    open spec fn deep_view(&self) -> Map<Seq<char>, V::V> {
        self@.map_values(|v: V| v.deep_view())
    }
}

proof fn lemma_entry<V>(e: Seq<(String, V)>, i: int)
    requires
        distinct(e),
        0 <= i < e.len(),
    ensures
        has_entry(e, e[i].0@),
        entry_index(e, e[i].0@) == i,
        map_of(e).dom().contains(e[i].0@),
        map_of(e)[e[i].0@] == e[i].1,
{
    let k = e[i].0@;
    assert(has_entry(e, k));
    let j = entry_index(e, k);
    assert(0 <= j < e.len() && e[j].0@ == k);
    if j < i {
        assert(e[j].0@ != e[i].0@);
    } else if i < j {
        assert(e[i].0@ != e[j].0@);
    }
}

/// Replacing the value of entry `i`.
proof fn lemma_update<V>(e: Seq<(String, V)>, f: Seq<(String, V)>, i: int)
    requires
        distinct(e),
        0 <= i < e.len(),
        f.len() == e.len(),
        f[i].0@ == e[i].0@,
        forall|j: int| 0 <= j < e.len() && j != i ==> f[j] == e[j],
    ensures
        distinct(f),
        map_of(f) == map_of(e).insert(e[i].0@, f[i].1),
{
    let k = e[i].0@;
    assert forall|a: int, b: int| 0 <= a < b < f.len() implies (#[trigger] f[a]).0@ != (
    #[trigger] f[b]).0@ by {
        assert(e[a].0@ != e[b].0@);
    }
    lemma_entry(f, i);
    let m = map_of(e).insert(k, f[i].1);
    assert forall|x: Seq<char>|
        #![trigger map_of(f).dom().contains(x)]
        map_of(f).dom().contains(x) == m.dom().contains(x) && (m.dom().contains(x) ==> map_of(
            f,
        )[x] == m[x]) by {
        if has_entry(f, x) {
            let j = entry_index(f, x);
            lemma_entry(f, j);
            lemma_entry(e, j);
        }
        if has_entry(e, x) {
            let j = entry_index(e, x);
            lemma_entry(e, j);
            lemma_entry(f, j);
        }
    }
    assert(map_of(f) =~= m);
}

/// Appending an entry with a new name.
proof fn lemma_push<V>(e: Seq<(String, V)>, x: (String, V))
    requires
        distinct(e),
        !has_entry(e, x.0@),
    ensures
        distinct(e.push(x)),
        map_of(e.push(x)) == map_of(e).insert(x.0@, x.1),
{
    let f = e.push(x);
    let m = map_of(e).insert(x.0@, x.1);
    assert forall|a: int, b: int| 0 <= a < b < f.len() implies (#[trigger] f[a]).0@ != (
    #[trigger] f[b]).0@ by {
        if b < e.len() {
            assert(e[a].0@ != e[b].0@);
        } else {
            assert(e[a].0@ == f[a].0@);
        }
    }
    assert forall|k: Seq<char>|
        #![trigger map_of(f).dom().contains(k)]
        map_of(f).dom().contains(k) == m.dom().contains(k) && (m.dom().contains(k) ==> map_of(
            f,
        )[k] == m[k]) by {
        lemma_entry(f, e.len() as int);
        if has_entry(f, k) {
            let j = entry_index(f, k);
            lemma_entry(f, j);
            if j < e.len() {
                lemma_entry(e, j);
            }
        }
        if has_entry(e, k) {
            let j = entry_index(e, k);
            lemma_entry(e, j);
            assert(f[j] == e[j]);
            lemma_entry(f, j);
        }
    }
    assert(map_of(f) =~= m);
}

/// Removing entry `i`.
proof fn lemma_remove<V>(e: Seq<(String, V)>, i: int)
    requires
        distinct(e),
        0 <= i < e.len(),
    ensures
        distinct(e.remove(i)),
        map_of(e.remove(i)) == map_of(e).remove(e[i].0@),
{
    let f = e.remove(i);
    let m = map_of(e).remove(e[i].0@);
    assert forall|a: int, b: int| 0 <= a < b < f.len() implies (#[trigger] f[a]).0@ != (
    #[trigger] f[b]).0@ by {
        let x = if a < i {
            a
        } else {
            a + 1
        };
        let y = if b < i {
            b
        } else {
            b + 1
        };
        assert(e[x].0@ != e[y].0@);
    }
    assert forall|k: Seq<char>|
        #![trigger map_of(f).dom().contains(k)]
        map_of(f).dom().contains(k) == m.dom().contains(k) && (m.dom().contains(k) ==> map_of(
            f,
        )[k] == m[k]) by {
        if has_entry(f, k) {
            let j = entry_index(f, k);
            lemma_entry(f, j);
            let x = if j < i {
                j
            } else {
                j + 1
            };
            assert(f[j] == e[x]);
            lemma_entry(e, x);
            lemma_entry(e, i);
        }
        if has_entry(e, k) && k != e[i].0@ {
            let j = entry_index(e, k);
            lemma_entry(e, j);
            let x = if j < i {
                j
            } else {
                j - 1
            };
            assert(f[x] == e[j]);
            lemma_entry(f, x);
        }
    }
    assert(map_of(f) =~= m);
}

/// Giving every entry the same value.
proof fn lemma_fill<V>(e: Seq<(String, V)>, f: Seq<(String, V)>, value: V)
    requires
        distinct(e),
        f.len() == e.len(),
        forall|j: int|
            0 <= j < e.len() ==> (#[trigger] f[j]).0@ == e[j].0@ && f[j].1 == value,
    ensures
        distinct(f),
        map_of(f) == map_of(e).map_values(|v: V| value),
{
    assert forall|a: int, b: int| 0 <= a < b < f.len() implies (#[trigger] f[a]).0@ != (
    #[trigger] f[b]).0@ by {
        assert(e[a].0@ != e[b].0@);
    }
    let m = map_of(e).map_values(|v: V| value);
    assert forall|x: Seq<char>|
        #![trigger map_of(f).dom().contains(x)]
        map_of(f).dom().contains(x) == m.dom().contains(x) && (m.dom().contains(x) ==> map_of(
            f,
        )[x] == m[x]) by {
        if has_entry(f, x) {
            let j = entry_index(f, x);
            lemma_entry(f, j);
            lemma_entry(e, j);
        }
        if has_entry(e, x) {
            let j = entry_index(e, x);
            lemma_entry(e, j);
            assert(f[j].0@ == x);
            lemma_entry(f, j);
        }
    }
    assert(map_of(f) =~= m);
}

impl<V> NameMap<V> {
    #[verifier::type_invariant]
    spec fn well_formed(self) -> bool {
        distinct(self.entries@)
    }

    /// The empty map.
    pub fn new() -> (r: Self)
        ensures
            r@ == Map::<Seq<char>, V>::empty(),
    {
        let r = NameMap { entries: Vec::new() };
        assert(r@ =~= Map::<Seq<char>, V>::empty());
        r
    }

    /// The index of the entry for `name`.
    fn position(&self, name: &str) -> (r: Option<usize>)
        ensures
            match r {
                Some(i) => i < self.entries@.len() && self.entries@[i as int].0@ == name@,
                None => !has_entry(self.entries@, name@),
            },
    {
        for i in 0..self.entries.len()
            invariant
                forall|j: int| 0 <= j < i ==> (#[trigger] self.entries@[j]).0@ != name@,
        {
            if *self.entries[i].0.as_str() == *name {
                return Some(i);
            }
        }
        None
    }

    /// The value of `name`.
    pub fn get(&self, name: &str) -> (r: Option<&V>)
        ensures
            match r {
                Some(v) => self@.dom().contains(name@) && *v == self@[name@],
                None => !self@.dom().contains(name@),
            },
    {
        match self.position(name) {
            Some(i) => {
                proof {
                    use_type_invariant(self);
                    lemma_entry(self.entries@, i as int);
                }
                Some(&self.entries[i].1)
            },
            None => None,
        }
    }

    /// Whether `name` has a value.
    pub fn contains_key(&self, name: &str) -> (r: bool)
        ensures
            r == self@.dom().contains(name@),
    {
        self.get(name).is_some()
    }

    /// Gives `name` the value `value`.
    pub fn insert(&mut self, name: String, value: V)
        ensures
            final(self)@ == old(self)@.insert(name@, value),
    {
        let found = self.position(name.as_str());
        proof {
            use_type_invariant(&*self);
        }
        let mut entries: Vec<(String, V)> = Vec::new();
        core::mem::swap(&mut entries, &mut self.entries);
        let ghost before = entries@;
        match found {
            Some(i) => {
                entries[i] = (name, value);
                proof {
                    lemma_update(before, entries@, i as int);
                }
            },
            None => {
                proof {
                    lemma_push(before, (name, value));
                }
                entries.push((name, value));
            },
        }
        self.entries = entries;
    }

    /// Takes `name` out of the map.
    pub fn remove(&mut self, name: &str)
        ensures
            final(self)@ == old(self)@.remove(name@),
    {
        let found = self.position(name);
        proof {
            use_type_invariant(&*self);
        }
        let mut entries: Vec<(String, V)> = Vec::new();
        core::mem::swap(&mut entries, &mut self.entries);
        match found {
            Some(i) => {
                proof {
                    lemma_remove(entries@, i as int);
                }
                let _gone = entries.remove(i);
            },
            None => {
                assert(map_of(entries@) =~= map_of(entries@).remove(name@));
            },
        }
        self.entries = entries;
    }

    /// Gives every name of the map the value `value`.
    pub fn fill(&mut self, value: V) where V: Copy
        ensures
            final(self)@ == old(self)@.map_values(|v: V| value),
    {
        proof {
            use_type_invariant(&*self);
        }
        let mut entries: Vec<(String, V)> = Vec::new();
        core::mem::swap(&mut entries, &mut self.entries);
        let ghost before = entries@;
        let mut filled: Vec<(String, V)> = Vec::new();
        for i in 0..entries.len()
            invariant
                entries@ == before,
                filled@.len() == i,
                forall|j: int|
                    0 <= j < i ==> (#[trigger] filled@[j]).0@ == before[j].0@ && filled@[j].1
                        == value,
        {
            filled.push((entries[i].0.clone(), value));
        }
        proof {
            lemma_fill(before, filled@, value);
        }
        self.entries = filled;
    }

    /// Takes out of the map the names that `keep` does not hold.
    pub fn retain_names<W>(&mut self, keep: &NameMap<W>)
        ensures
            final(self)@ == old(self)@.restrict(keep@.dom()),
    {
        let names = self.keys();
        let ghost all = names.deep_view();
        let ghost before = self@;
        for i in 0..names.len()
            invariant
                all == names.deep_view(),
                forall|k: Seq<char>| #[trigger] before.dom().contains(k) <==> all.contains(k),
                forall|k: Seq<char>|
                    #![trigger self@.dom().contains(k)]
                    self@.dom().contains(k) <==> before.dom().contains(k) && (
                    keep@.dom().contains(k) || !all.take(i as int).contains(k)),
                forall|k: Seq<char>|
                    #[trigger] self@.dom().contains(k) ==> self@[k] == before[k],
        {
            let ghost done = all.take(i as int);
            let ghost next = all.take(i + 1);
            let ghost name = all[i as int];
            assert(name == names@[i as int]@);
            if !keep.contains_key(names[i].as_str()) {
                self.remove(names[i].as_str());
            }
            proof {
                assert(next =~= done.push(name));
                assert forall|k: Seq<char>| #[trigger] next.contains(k) <==> done.contains(k) || k
                    == name by {
                    assert(next[i as int] == name);
                    if done.contains(k) {
                        let j = choose|j: int| 0 <= j < done.len() && done[j] == k;
                        assert(next[j] == k);
                    }
                }
            }
        }
        proof {
            assert(all.take(all.len() as int) =~= all);
            assert(self@ =~= before.restrict(keep@.dom()));
        }
    }

    /// Gives `name` the value `value`, unless it has one.
    pub fn insert_new(&mut self, name: &String, value: V)
        ensures
            final(self)@ == if old(self)@.dom().contains(name@) {
                old(self)@
            } else {
                old(self)@.insert(name@, value)
            },
    {
        if !self.contains_key(name.as_str()) {
            self.insert(name.clone(), value);
        }
    }

    /// Whether the map holds no name.
    pub fn is_empty(&self) -> (r: bool)
        ensures
            r == (self@ == Map::<Seq<char>, V>::empty()),
    {
        let r = self.entries.len() == 0;
        proof {
            use_type_invariant(self);
            if self.entries@.len() > 0 {
                lemma_entry(self.entries@, 0);
            } else {
                assert(self@ =~= Map::<Seq<char>, V>::empty());
            }
        }
        r
    }

    /// The names of the map, each once.
    pub fn keys(&self) -> (r: Vec<String>)
        ensures
            r.deep_view().no_duplicates(),
            forall|k: Seq<char>|
                #[trigger] self@.dom().contains(k) <==> r.deep_view().contains(k),
    {
        proof {
            use_type_invariant(self);
        }
        let ghost e = self.entries@;
        let mut r: Vec<String> = Vec::new();
        for i in 0..self.entries.len()
            invariant
                e == self.entries@,
                r@.len() == i,
                forall|j: int| 0 <= j < i ==> (#[trigger] r@[j])@ == e[j].0@,
        {
            r.push(self.entries[i].0.clone());
        }
        proof {
            let d = r.deep_view();
            assert forall|a: int, b: int| 0 <= a < b < d.len() implies d[a] != d[b] by {
                assert(d[a] == r@[a]@ && d[b] == r@[b]@);
                assert(e[a].0@ != e[b].0@);
            }
            assert forall|k: Seq<char>|
                #[trigger] self@.dom().contains(k) <==> d.contains(k) by {
                if has_entry(e, k) {
                    let j = entry_index(e, k);
                    assert(d[j] == r@[j]@);
                }
                if d.contains(k) {
                    let j = choose|j: int| 0 <= j < d.len() && d[j] == k;
                    assert(d[j] == r@[j]@);
                    assert(e[j].0@ == k);
                }
            }
        }
        r
    }
}

impl<V: DeepView> NameMap<V> {
    /// The value of `name`.
    pub fn look_up(&self, name: &str) -> (r: Option<&V>)
        ensures
            match r {
                Some(v) => self.deep_view().dom().contains(name@) && v.deep_view()
                    == self.deep_view()[name@],
                None => !self.deep_view().dom().contains(name@),
            },
    {
        self.get(name)
    }

    /// Gives `name` the value `value`.
    pub fn put(&mut self, name: String, value: V)
        ensures
            final(self).deep_view() == old(self).deep_view().insert(name@, value.deep_view()),
    {
        self.insert(name, value);
        assert(self.deep_view() =~= old(self).deep_view().insert(name@, value.deep_view()));
    }
}

} // verus!
