//! A map keyed by names, kept in the order in which the names were first inserted.

use vstd::prelude::*;

use crate::text::same_text;

verus! {

/// The map that a list of named values collects into: a later value replaces an earlier one
/// of the same name.
pub open spec fn collect<T>(pairs: Seq<(Seq<char>, T)>) -> Map<Seq<char>, T>
    decreases pairs.len(),
{
    if pairs.len() == 0 {
        Map::empty()
    } else {
        collect(pairs.drop_last()).insert(pairs.last().0, pairs.last().1)
    }
}

/// No name occurs twice.
pub open spec fn distinct_names<T>(pairs: Seq<(Seq<char>, T)>) -> bool {
    forall|i: int, j: int|
        0 <= i < j < pairs.len() ==> (#[trigger] pairs[i]).0 != (#[trigger] pairs[j]).0
}

/// Position `i` of `pairs` carries the name `k`.
pub open spec fn named_at<T>(pairs: Seq<(Seq<char>, T)>, k: Seq<char>, i: int) -> bool {
    0 <= i < pairs.len() && pairs[i].0 == k
}

/// A name is in the collected map exactly where some pair carries it.
pub proof fn lemma_collect_domain<T>(pairs: Seq<(Seq<char>, T)>, k: Seq<char>)
    ensures
        collect(pairs).contains_key(k) <==> exists|i: int| named_at(pairs, k, i),
    decreases pairs.len(),
{
    if pairs.len() > 0 {
        let init = pairs.drop_last();
        lemma_collect_domain(init, k);
        if collect(pairs).contains_key(k) {
            if pairs.last().0 == k {
                assert(named_at(pairs, k, pairs.len() - 1));
            } else {
                let i = choose|i: int| named_at(init, k, i);
                assert(named_at(pairs, k, i));
            }
        }
        if exists|i: int| named_at(pairs, k, i) {
            let i = choose|i: int| named_at(pairs, k, i);
            if i < pairs.len() - 1 {
                assert(named_at(init, k, i));
            }
        }
    }
}

/// The collected value of a name is the one that its last pair holds.
pub proof fn lemma_collect_value<T>(pairs: Seq<(Seq<char>, T)>, i: int)
    requires
        0 <= i < pairs.len(),
        forall|j: int| i < j < pairs.len() ==> (#[trigger] pairs[j]).0 != pairs[i].0,
    ensures
        collect(pairs).contains_key(pairs[i].0),
        collect(pairs)[pairs[i].0] == pairs[i].1,
    decreases pairs.len(),
{
    if i < pairs.len() - 1 {
        let init = pairs.drop_last();
        assert forall|j: int| i < j < init.len() implies (#[trigger] init[j]).0 != init[i].0 by {
            assert(init[j] == pairs[j]);
        }
        lemma_collect_value(init, i);
        assert(pairs.last() == pairs[pairs.len() - 1]);
    }
}

/// Replacing the value of a name in place is inserting it into the collected map.
proof fn lemma_collect_update<T>(pairs: Seq<(Seq<char>, T)>, i: int, v: T)
    requires
        0 <= i < pairs.len(),
        distinct_names(pairs),
    ensures
        collect(pairs.update(i, (pairs[i].0, v))) == collect(pairs).insert(pairs[i].0, v),
        distinct_names(pairs.update(i, (pairs[i].0, v))),
{
    let after = pairs.update(i, (pairs[i].0, v));
    assert(distinct_names(after)) by {
        assert forall|a: int, b: int| 0 <= a < b < after.len() implies (#[trigger] after[a]).0 != (
        #[trigger] after[b]).0 by {
            assert(pairs[a].0 != pairs[b].0);
        }
    }
    let want = collect(pairs).insert(pairs[i].0, v);
    assert forall|k: Seq<char>|
        #![trigger collect(after).dom().contains(k)]
        #![trigger want.dom().contains(k)]
        #![trigger collect(after)[k]]
        #![trigger want[k]]
        collect(after).contains_key(k) == want.contains_key(k) && (want.contains_key(k) ==> collect(
            after,
        )[k] == want[k]) by {
        lemma_collect_domain(after, k);
        lemma_collect_domain(pairs, k);
        if want.contains_key(k) {
            let p = if k == pairs[i].0 {
                i
            } else {
                choose|p: int| named_at(pairs, k, p)
            };
            assert(named_at(after, k, p));
            lemma_collect_value(after, p);
            lemma_collect_value(pairs, p);
        }
        if exists|p: int| named_at(after, k, p) {
            let p = choose|p: int| named_at(after, k, p);
            assert(named_at(pairs, k, p));
        }
    }
    assert(collect(after).dom() =~= want.dom());
    assert(collect(after) =~= want);
}

/// Taking one pair out of a list without repeated names removes its name.
proof fn lemma_collect_remove<T>(pairs: Seq<(Seq<char>, T)>, i: int)
    requires
        0 <= i < pairs.len(),
        distinct_names(pairs),
    ensures
        collect(pairs.remove(i)) == collect(pairs).remove(pairs[i].0),
        distinct_names(pairs.remove(i)),
{
    let after = pairs.remove(i);
    assert(distinct_names(after)) by {
        assert forall|a: int, b: int| 0 <= a < b < after.len() implies (#[trigger] after[a]).0 != (
        #[trigger] after[b]).0 by {
            let pa = if a < i {
                a
            } else {
                a + 1
            };
            let pb = if b < i {
                b
            } else {
                b + 1
            };
            assert(pairs[pa].0 != pairs[pb].0);
        }
    }
    let want = collect(pairs).remove(pairs[i].0);
    assert forall|k: Seq<char>|
        #![trigger collect(after).dom().contains(k)]
        #![trigger want.dom().contains(k)]
        #![trigger collect(after)[k]]
        #![trigger want[k]]
        collect(after).contains_key(k) == want.contains_key(k) && (want.contains_key(k) ==> collect(
            after,
        )[k] == want[k]) by {
        lemma_collect_domain(after, k);
        lemma_collect_domain(pairs, k);
        if want.contains_key(k) {
            let p = choose|p: int| named_at(pairs, k, p);
            let q = if p < i {
                p
            } else {
                p - 1
            };
            assert(named_at(after, k, q));
            lemma_collect_value(after, q);
            lemma_collect_value(pairs, p);
        }
        if exists|q: int| named_at(after, k, q) {
            let q = choose|q: int| named_at(after, k, q);
            let p = if q < i {
                q
            } else {
                q + 1
            };
            assert(named_at(pairs, k, p));
            assert(pairs[p].0 != pairs[i].0);
        }
    }
    assert(collect(after).dom() =~= want.dom());
    assert(collect(after) =~= want);
}

/// A map from names to values. Its view is the mathematical map; `pairs` adds the order in
/// which the names were first inserted.
pub struct FieldMap<T> {
    entries: Vec<(String, T)>,
}

impl<T> View for FieldMap<T> {
    type V = Map<Seq<char>, T>;

    closed spec fn view(&self) -> Map<Seq<char>, T> {
        collect(self.pairs())
    }
}

impl<T> FieldMap<T> {
    /// The names with their values, in order of first insertion.
    pub closed spec fn pairs(&self) -> Seq<(Seq<char>, T)> {
        self.entries@.map_values(|e: (String, T)| (e.0@, e.1))
    }

    #[verifier::type_invariant]
    spec fn names_are_distinct(&self) -> bool {
        distinct_names(self.pairs())
    }

    /// An empty map.
    pub fn new() -> (m: Self)
        ensures
            m@ == Map::<Seq<char>, T>::empty(),
            m.pairs() == Seq::<(Seq<char>, T)>::empty(),
    {
        let m = FieldMap { entries: Vec::new() };
        assert(m.pairs() =~= Seq::<(Seq<char>, T)>::empty());
        m
    }

    /// Position of `name`, if the map holds it.
    fn position(&self, name: &str) -> (found: Option<usize>)
        ensures
            match found {
                Some(i) => named_at(self.pairs(), name@, i as int),
                None => forall|i: int| !named_at(self.pairs(), name@, i),
            },
    {
        let mut i: usize = 0;
        while i < self.entries.len()
            invariant
                i <= self.entries@.len(),
                forall|j: int| 0 <= j < i ==> !named_at(self.pairs(), name@, j),
            decreases self.entries@.len() - i,
        {
            if same_text(self.entries[i].0.as_str(), name) {
                return Some(i);
            }
            i += 1;
        }
        None
    }

    /// The value of `name`.
    pub fn get(&self, name: &str) -> (value: Option<&T>)
        ensures
            match value {
                Some(v) => self@.contains_key(name@) && *v == self@[name@],
                None => !self@.contains_key(name@),
            },
    {
        proof {
            use_type_invariant(self);
            lemma_collect_domain(self.pairs(), name@);
        }
        match self.position(name) {
            Some(i) => {
                proof {
                    assert(named_at(self.pairs(), name@, i as int));
                    lemma_collect_value(self.pairs(), i as int);
                }
                Some(&self.entries[i].1)
            },
            None => None,
        }
    }

    /// Whether the map holds `name`.
    pub fn contains_key(&self, name: &str) -> (held: bool)
        ensures
            held == self@.contains_key(name@),
    {
        self.get(name).is_some()
    }

    /// Sets the value of `name`, replacing the one it had.
    pub fn insert(&mut self, name: String, value: T)
        ensures
            final(self)@ == old(self)@.insert(name@, value),
            old(self)@.contains_key(name@) ==> final(self).pairs().len() == old(self).pairs().len(),
            !old(self)@.contains_key(name@) ==> final(self).pairs() == old(self).pairs().push(
                (name@, value),
            ),
    {
        proof {
            use_type_invariant(&*self);
            lemma_collect_domain(self.pairs(), name@);
        }
        let ghost before = self.pairs();
        match self.position(name.as_str()) {
            Some(i) => {
                proof {
                    assert(named_at(before, name@, i as int));
                    lemma_collect_update(before, i as int, value);
                }
                let mut entries: Vec<(String, T)> = Vec::new();
                std::mem::swap(&mut entries, &mut self.entries);
                entries[i] = (name, value);
                assert(entries@.map_values(|e: (String, T)| (e.0@, e.1)) =~= before.update(
                    i as int,
                    (name@, value),
                ));
                self.entries = entries;
            },
            None => {
                let mut entries: Vec<(String, T)> = Vec::new();
                std::mem::swap(&mut entries, &mut self.entries);
                entries.push((name, value));
                proof {
                    let after = before.push((name@, value));
                    assert(entries@.map_values(|e: (String, T)| (e.0@, e.1)) =~= after);
                    assert(after.drop_last() =~= before);
                    assert forall|a: int, b: int| 0 <= a < b < after.len() implies (
                    #[trigger] after[a]).0 != (#[trigger] after[b]).0 by {
                        assert(!named_at(before, name@, a));
                        if b < before.len() {
                            assert(before[a].0 != before[b].0);
                        }
                    }
                }
                self.entries = entries;
            },
        }
    }

    /// Takes `name` out of the map and returns the value it had.
    pub fn remove(&mut self, name: &str) -> (value: Option<T>)
        ensures
            final(self)@ == old(self)@.remove(name@),
            match value {
                Some(v) => old(self)@.contains_key(name@) && v == old(self)@[name@],
                None => !old(self)@.contains_key(name@),
            },
    {
        proof {
            use_type_invariant(&*self);
            lemma_collect_domain(self.pairs(), name@);
        }
        let ghost before = self.pairs();
        match self.position(name) {
            Some(i) => {
                proof {
                    assert(named_at(before, name@, i as int));
                    lemma_collect_remove(before, i as int);
                    lemma_collect_value(before, i as int);
                }
                let mut entries: Vec<(String, T)> = Vec::new();
                std::mem::swap(&mut entries, &mut self.entries);
                let (_, value) = entries.remove(i);
                assert(entries@.map_values(|e: (String, T)| (e.0@, e.1)) =~= before.remove(
                    i as int,
                ));
                self.entries = entries;
                Some(value)
            },
            None => {
                assert(self@.remove(name@) =~= self@);
                None
            },
        }
    }

    /// Number of names. Each name stands in `pairs` once, with its value.
    pub fn len(&self) -> (n: usize)
        ensures
            n == self.pairs().len(),
            distinct_names(self.pairs()),
            self@ == collect(self.pairs()),
    {
        proof {
            use_type_invariant(self);
        }
        self.entries.len()
    }

    /// Name number `i`, in order of first insertion.
    pub fn name_at(&self, i: usize) -> (name: &str)
        requires
            i < self.pairs().len(),
        ensures
            name@ == self.pairs()[i as int].0,
    {
        self.entries[i].0.as_str()
    }

    /// Value number `i`, in order of first insertion.
    pub fn value_at(&self, i: usize) -> (value: &T)
        requires
            i < self.pairs().len(),
        ensures
            *value == self.pairs()[i as int].1,
    {
        &self.entries[i].1
    }
}

/// The same names, each without a value.
pub open spec fn emptied<T>(map: Map<Seq<char>, Option<T>>) -> Map<Seq<char>, Option<T>> {
    Map::new(|k: Seq<char>| map.contains_key(k), |k: Seq<char>| None)
}

/// These names, each without a value.
pub open spec fn blank<T>(names: Seq<Seq<char>>) -> Map<Seq<char>, Option<T>> {
    Map::new(|k: Seq<char>| names.contains(k), |k: Seq<char>| None)
}

/// These names, each without a value.
pub fn blank_map<T>(names: &Vec<String>) -> (map: FieldMap<Option<T>>)
    ensures
        map@ == blank::<T>(crate::types::texts(names@)),
{
    let mut map: FieldMap<Option<T>> = FieldMap::new();
    let ghost all = crate::types::texts(names@);
    let mut i: usize = 0;
    assert(map@ =~= blank::<T>(all.take(0)));
    while i < names.len()
        invariant
            i <= names@.len(),
            all == crate::types::texts(names@),
            map@ == blank::<T>(all.take(i as int)),
        decreases names@.len() - i,
    {
        let ghost before = all.take(i as int);
        map.insert(names[i].clone(), None);
        proof {
            let after = all.take(i + 1);
            assert(after =~= before.push(all[i as int]));
            assert forall|k: Seq<char>| #[trigger] after.contains(k) <==> before.contains(k) || k
                == all[i as int] by {
                if before.contains(k) {
                    let j = choose|j: int| 0 <= j < before.len() && before[j] == k;
                    assert(after[j] == k);
                }
                if k == all[i as int] {
                    assert(after[i as int] == k);
                }
            }
            assert(map@ =~= blank::<T>(after));
        }
        i += 1;
    }
    assert(all.take(i as int) =~= all);
    map
}

proof fn lemma_emptied_insert<T>(map: Map<Seq<char>, Option<T>>, k: Seq<char>, v: Option<T>)
    ensures
        emptied(map.insert(k, v)) == emptied(map).insert(k, None),
{
    assert(emptied(map.insert(k, v)) =~= emptied(map).insert(k, None));
}

/// The same names, each without a value.
pub fn empty_all<T>(map: &FieldMap<Option<T>>) -> (out: FieldMap<Option<T>>)
    ensures
        out@ == emptied(map@),
{
    let n: usize = map.len();
    let ghost pairs = map.pairs();
    let mut out: FieldMap<Option<T>> = FieldMap::new();
    let mut i: usize = 0;
    proof {
        assert(pairs.take(0) =~= Seq::empty());
        assert(out@ =~= emptied(collect(pairs.take(0))));
    }
    while i < n
        invariant
            n == map.pairs().len(),
            pairs == map.pairs(),
            i <= n,
            out@ == emptied(collect(pairs.take(i as int))),
        decreases n - i,
    {
        out.insert(map.name_at(i).to_owned(), None);
        proof {
            assert(pairs.take(i + 1).drop_last() =~= pairs.take(i as int));
            lemma_emptied_insert(
                collect(pairs.take(i as int)),
                pairs[i as int].0,
                pairs[i as int].1,
            );
        }
        i += 1;
    }
    assert(pairs.take(i as int) =~= pairs);
    out
}

} // verus!
