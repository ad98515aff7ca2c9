//! A small map from names to values.

use crate::text;
use vstd::prelude::*;
use vstd::string::*;

verus! {

/// The entries of a map, each name once.
pub open spec fn names_are_unique<V>(entries: Seq<(String, V)>) -> bool {
    forall|i: int, j: int|
        0 <= i < j < entries.len() ==> (#[trigger] entries[i]).0@ != (#[trigger] entries[j]).0@
}

/// The map that a list of entries stands for.
pub open spec fn entry_map<V>(entries: Seq<(String, V)>) -> Map<Seq<char>, V>
    decreases entries.len(),
{
    if entries.len() == 0 {
        Map::empty()
    } else {
        entry_map(entries.drop_last()).insert(entries.last().0@, entries.last().1)
    }
}

proof fn lemma_entry_map<V>(entries: Seq<(String, V)>)
    requires
        names_are_unique(entries),
    ensures
        forall|i: int|
            0 <= i < entries.len() ==> entry_map(entries).dom().contains(
                (#[trigger] entries[i]).0@,
            ) && entry_map(entries)[entries[i].0@] == entries[i].1,
        forall|k: Seq<char>| #[trigger]
            entry_map(entries).dom().contains(k) ==> exists|i: int|
                0 <= i < entries.len() && (#[trigger] entries[i]).0@ == k,
    decreases entries.len(),
{
    if entries.len() > 0 {
        let front = entries.drop_last();
        lemma_entry_map(front);
        assert forall|i: int| 0 <= i < entries.len() implies entry_map(entries).dom().contains(
            (#[trigger] entries[i]).0@,
        ) && entry_map(entries)[entries[i].0@] == entries[i].1 by {
            if i < front.len() {
                assert(front[i] == entries[i]);
            }
        }
        assert forall|k: Seq<char>| #[trigger] entry_map(entries).dom().contains(k) implies exists|
            i: int,
        |
            0 <= i < entries.len() && (#[trigger] entries[i]).0@ == k by {
            if k != entries.last().0@ {
                assert(entry_map(front).dom().contains(k));
                let i = choose|i: int| 0 <= i < front.len() && (#[trigger] front[i]).0@ == k;
                assert(entries[i].0@ == k);
            } else {
                assert(entries[entries.len() - 1].0@ == k);
            }
        }
    }
}

/// A map from names to values, in which a later insert under a name replaces the
/// earlier value.
#[derive(Debug)]
pub struct IdMap<V> {
    entries: Vec<(String, V)>,
}

impl<V> View for IdMap<V> {
    type V = Map<Seq<char>, V>;

    closed spec fn view(&self) -> Map<Seq<char>, V> {
        entry_map(self.entries@)
    }
}

impl<V> IdMap<V> {
    #[verifier::type_invariant]
    spec fn each_name_once(self) -> bool {
        names_are_unique(self.entries@)
    }

    /// An empty map.
    pub fn new() -> (r: Self)
        ensures
            r@ == Map::<Seq<char>, V>::empty(),
    {
        IdMap { entries: Vec::new() }
    }

    fn position(&self, name: &str) -> (r: Option<usize>)
        ensures
            match r {
                Some(i) => i < self.entries.len() && self.entries@[i as int].0@ == name@,
                None => !self@.dom().contains(name@) && forall|i: int|
                    0 <= i < self.entries.len() ==> (#[trigger] self.entries@[i]).0@ != name@,
            },
    {
        proof {
            use_type_invariant(self);
        }
        let mut i: usize = 0;
        while i < self.entries.len()
            invariant
                i <= self.entries.len(),
                forall|k: int| 0 <= k < i ==> (#[trigger] self.entries@[k]).0@ != name@,
            decreases self.entries.len() - i,
        {
            if text::same_text(self.entries[i].0.as_str(), name) {
                return Some(i);
            }
            i = i + 1;
        }
        proof {
            lemma_entry_map(self.entries@);
        }
        None
    }

    /// The value under `name`.
    pub fn get(&self, name: &str) -> (r: Option<&V>)
        ensures
            match r {
                Some(v) => self@.dom().contains(name@) && *v == self@[name@],
                None => !self@.dom().contains(name@),
            },
    {
        proof {
            use_type_invariant(self);
        }
        match self.position(name) {
            Some(i) => {
                proof {
                    lemma_entry_map(self.entries@);
                }
                Some(&self.entries[i].1)
            },
            None => None,
        }
    }

    /// Puts `value` under `name`, in place of what stood there.
    pub fn insert(&mut self, name: String, value: V)
        ensures
            final(self)@ == old(self)@.insert(name@, value),
    {
        proof {
            use_type_invariant(&*self);
        }
        let ghost before = self.entries@;
        match self.position(name.as_str()) {
            Some(i) => {
                let ghost key = name@;
                let mut entries: Vec<(String, V)> = Vec::new();
                std::mem::swap(&mut entries, &mut self.entries);
                entries[i] = (name, value);
                proof {
                    let after = entries@;
                    assert(after == before.update(i as int, (name, value)));
                    assert forall|a: int, b: int| 0 <= a < b < after.len() implies (
                    #[trigger] after[a]).0@ != (#[trigger] after[b]).0@ by {
                        assert(after[a].0@ == before[a].0@);
                        assert(after[b].0@ == before[b].0@);
                    }
                    lemma_entry_map(before);
                    lemma_entry_map(after);
                    assert(entry_map(after) =~= entry_map(before).insert(key, value)) by {
                        assert forall|k: Seq<char>| entry_map(after).dom().contains(k)
                            <==> entry_map(before).insert(key, value).dom().contains(k) by {
                            if entry_map(after).dom().contains(k) {
                                let a = choose|a: int|
                                    0 <= a < after.len() && (#[trigger] after[a]).0@ == k;
                                assert(before[a].0@ == k);
                            }
                            if entry_map(before).dom().contains(k) {
                                let a = choose|a: int|
                                    0 <= a < before.len() && (#[trigger] before[a]).0@ == k;
                                assert(after[a].0@ == k);
                            }
                            assert(after[i as int].0@ == key);
                        }
                        assert forall|k: Seq<char>| entry_map(after).dom().contains(
                            k,
                        ) implies entry_map(after)[k] == entry_map(before).insert(key, value)[k] by {
                            let a = choose|a: int|
                                0 <= a < after.len() && (#[trigger] after[a]).0@ == k;
                            assert(before[a].0@ == k);
                            if a != i {
                                assert(after[a] == before[a]);
                                assert(after[i as int].0@ == key);
                            }
                        }
                    }
                }
                self.entries = entries;
            },
            None => {
                let mut entries: Vec<(String, V)> = Vec::new();
                std::mem::swap(&mut entries, &mut self.entries);
                entries.push((name, value));
                assert(entries@.drop_last() =~= before);
                self.entries = entries;
            },
        }
    }

    /// All the names, each once and in ascending order.
    pub fn sorted_names(&self) -> (r: Vec<String>)
        ensures
            ascending(text::strings(r@)),
            text::strings(r@).to_set() == self@.dom(),
    {
        proof {
            use_type_invariant(self);
        }
        let mut r: Vec<String> = Vec::new();
        let mut i: usize = 0;
        assert(text::strings(r@).to_set() =~= entry_map(self.entries@.take(0)).dom());
        while i < self.entries.len()
            invariant
                i <= self.entries.len(),
                names_are_unique(self.entries@),
                ascending(text::strings(r@)),
                text::strings(r@).to_set() == entry_map(self.entries@.take(i as int)).dom(),
            decreases self.entries.len() - i,
        {
            let name: &String = &self.entries[i].0;
            proof {
                let front = self.entries@.take(i as int);
                lemma_entry_map(front);
                assert(self.entries@.take(i + 1).drop_last() =~= front);
                if text::strings(r@).contains(name@) {
                    assert(text::strings(r@).to_set().contains(name@));
                    let k = choose|k: int|
                        0 <= k < front.len() && (#[trigger] front[k]).0@ == name@;
                    assert(self.entries@[k].0@ != self.entries@[i as int].0@);
                }
            }
            insert_sorted(&mut r, name.clone());
            i = i + 1;
        }
        assert(self.entries@.take(i as int) =~= self.entries@);
        r
    }
}

/// Texts in strictly ascending order, so that none stands twice.
pub open spec fn ascending(names: Seq<Seq<char>>) -> bool {
    forall|i: int, j: int|
        0 <= i < j < names.len() ==> text::text_less(#[trigger] names[i], #[trigger] names[j])
}

fn insert_sorted(names: &mut Vec<String>, name: String)
    requires
        ascending(text::strings(old(names)@)),
        !text::strings(old(names)@).contains(name@),
    ensures
        ascending(text::strings(final(names)@)),
        text::strings(final(names)@).to_set() == text::strings(old(names)@).to_set().insert(name@),
{
    let ghost before = text::strings(names@);
    let ghost key = name@;
    let mut at: usize = 0;
    while at < names.len() && text::stands_before(names[at].as_str(), name.as_str())
        invariant
            at <= names.len(),
            before == text::strings(names@),
            forall|a: int| 0 <= a < at ==> text::text_less(#[trigger] before[a], name@),
        decreases names.len() - at,
    {
        assert(before[at as int] == names@[at as int]@);
        at = at + 1;
    }
    assert(at < names.len() ==> before[at as int] == names@[at as int]@);
    names.insert(at, name);
    let ghost after = text::strings(names@);
    proof {
        assert(after =~= before.insert(at as int, key));
        assert forall|i: int, j: int| 0 <= i < j < after.len() implies text::text_less(
            #[trigger] after[i],
            #[trigger] after[j],
        ) by {
            let fi = if i < at {
                i
            } else {
                i - 1
            };
            let fj = if j < at {
                j
            } else {
                j - 1
            };
            if i == at {
                assert(after[j] == before[fj]);
                assert(before.contains(before[at as int]));
                text::text_order_is_total(key, before[at as int], before[fj]);
            } else if j == at {
                assert(after[i] == before[fi]);
            } else {
                assert(after[i] == before[fi] && after[j] == before[fj]);
            }
        }
        assert forall|k: Seq<char>| after.to_set().contains(k) <==> before.to_set().insert(
            key,
        ).contains(k) by {
            if after.contains(k) {
                let i = choose|i: int| 0 <= i < after.len() && after[i] == k;
                if i < at {
                    assert(before[i] == k);
                } else if i > at {
                    assert(before[i - 1] == k);
                }
            }
            if before.contains(k) {
                let i = choose|i: int| 0 <= i < before.len() && before[i] == k;
                if i < at {
                    assert(after[i] == k);
                } else {
                    assert(after[i + 1] == k);
                }
            }
            assert(after[at as int] == key);
        }
        assert(after.to_set() =~= before.to_set().insert(key));
    }
}

/// There is only one way to list a set of names in ascending order.
pub proof fn ascending_list_is_unique(a: Seq<Seq<char>>, b: Seq<Seq<char>>)
    requires
        ascending(a),
        ascending(b),
        a.to_set() == b.to_set(),
    ensures
        a == b,
    decreases a.len(),
{
    if a.len() == 0 {
        if b.len() > 0 {
            assert(b.to_set().contains(b[0]));
            assert(a.contains(b[0]));
        }
        assert(a =~= b);
    } else {
        assert(a.to_set().contains(a[0]));
        assert(b.contains(a[0]));
        assert(b.to_set().contains(b[0]));
        assert(a.contains(b[0]));
        let j = choose|j: int| 0 <= j < b.len() && b[j] == a[0];
        let i = choose|i: int| 0 <= i < a.len() && a[i] == b[0];
        text::text_order_is_total(a[0], b[0], a[0]);
        assert(a[0] == b[0]);
        let at = a.drop_first();
        let bt = b.drop_first();
        assert forall|k: Seq<char>| at.to_set().contains(k) <==> bt.to_set().contains(k) by {
            if at.contains(k) {
                let n = choose|n: int| 0 <= n < at.len() && at[n] == k;
                assert(a[n + 1] == k);
                assert(a.to_set().contains(k));
                assert(b.contains(k));
                let m = choose|m: int| 0 <= m < b.len() && b[m] == k;
                text::text_order_is_total(k, k, k);
                assert(m > 0);
                assert(bt[m - 1] == k);
            }
            if bt.contains(k) {
                let n = choose|n: int| 0 <= n < bt.len() && bt[n] == k;
                assert(b[n + 1] == k);
                assert(b.to_set().contains(k));
                assert(a.contains(k));
                let m = choose|m: int| 0 <= m < a.len() && a[m] == k;
                text::text_order_is_total(k, k, k);
                assert(m > 0);
                assert(at[m - 1] == k);
            }
        }
        assert(at.to_set() =~= bt.to_set());
        ascending_list_is_unique(at, bt);
        assert(a =~= seq![a[0]] + at);
        assert(b =~= seq![b[0]] + bt);
    }
}

proof fn lemma_ascending_chain(names: Seq<Seq<char>>, i: int, j: int)
    requires
        0 <= i < j < names.len(),
        forall|k: int|
            0 <= k < names.len() - 1 ==> text::text_less(#[trigger] names[k], names[k + 1]),
    ensures
        text::text_less(names[i], names[j]),
    decreases j - i,
{
    assert(text::text_less(names[j - 1], names[j - 1 + 1]));
    if i < j - 1 {
        lemma_ascending_chain(names, i, j - 1);
        text::text_order_is_total(names[i], names[j - 1], names[j]);
    }
}

/// Names ascend exactly where each stands before its successor, and then none stands
/// twice.
pub proof fn names_ascend_where_neighbours_do(names: Seq<Seq<char>>)
    ensures
        ascending(names) <==> forall|k: int|
            0 <= k < names.len() - 1 ==> text::text_less(#[trigger] names[k], names[k + 1]),
        ascending(names) ==> names.no_duplicates(),
{
    if forall|k: int|
        0 <= k < names.len() - 1 ==> text::text_less(#[trigger] names[k], names[k + 1]) {
        assert forall|i: int, j: int| 0 <= i < j < names.len() implies text::text_less(
            #[trigger] names[i],
            #[trigger] names[j],
        ) by {
            lemma_ascending_chain(names, i, j);
        }
    }
    if ascending(names) {
        assert forall|i: int, j: int|
            0 <= i < names.len() && 0 <= j < names.len() && i != j implies names[i] != names[j] by {
            text::text_order_is_total(names[i], names[j], names[i]);
            if i < j {
                assert(text::text_less(names[i], names[j]));
            } else {
                assert(text::text_less(names[j], names[i]));
            }
        }
    }
}

} // verus!
