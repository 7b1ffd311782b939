use crate::tokens::{chars_eq, copy_range};
use vstd::prelude::*;

verus! {

/// A finite map from names to values, kept as a list of entries in which no
/// name occurs twice. Entries stay in the order in which their names were
/// first inserted.
#[derive(Debug)]
pub struct NameMap<V> {
    entries: Vec<(Vec<char>, V)>,
}

/// Whether no two entries of `entries` have the same name.
pub open spec fn names_distinct<V>(entries: Seq<(Vec<char>, V)>) -> bool {
    forall|i: int, j: int|
        0 <= i < entries.len() && 0 <= j < entries.len() && i != j ==> (#[trigger] entries[i]).0@
            != (#[trigger] entries[j]).0@
}

/// Whether some entry of `entries` has the name `name`.
pub open spec fn has_name<V>(entries: Seq<(Vec<char>, V)>, name: Seq<char>) -> bool {
    exists|i: int| 0 <= i < entries.len() && (#[trigger] entries[i]).0@ == name
}

/// The place of an entry of `entries` that has the name `name`.
pub open spec fn place_of<V>(entries: Seq<(Vec<char>, V)>, name: Seq<char>) -> int {
    choose|i: int| 0 <= i < entries.len() && (#[trigger] entries[i]).0@ == name
}

/// The map that a list of entries stands for.
pub open spec fn entries_map<V: DeepView>(entries: Seq<(Vec<char>, V)>) -> Map<Seq<char>, V::V> {
    Map::new(
        |name: Seq<char>| has_name(entries, name),
        |name: Seq<char>| entries[place_of(entries, name)].1.deep_view(),
    )
}

impl<V: DeepView> View for NameMap<V> {
    type V = Map<Seq<char>, V::V>;

    closed spec fn view(&self) -> Map<Seq<char>, V::V> {
        entries_map(self.entries@)
    }
}

impl<V> NameMap<V> {
    #[verifier::type_invariant]
    spec fn names_are_distinct(self) -> bool {
        names_distinct(self.entries@)
    }
}

impl<V: DeepView> NameMap<V> {
    /// The empty map.
    pub fn new() -> (r: Self)
        ensures
            r@ == Map::<Seq<char>, V::V>::empty(),
    {
        let r = NameMap { entries: Vec::new() };
        assert(r@ =~= Map::<Seq<char>, V::V>::empty());
        r
    }

    /// The place of the entry named `name`, if there is one.
    fn find(&self, name: &Vec<char>) -> (r: Option<usize>)
        ensures
            match r {
                Some(i) => i < self.entries.len() && self.entries[i as int].0@ == name@,
                None => !has_name(self.entries@, name@),
            },
    {
        let mut i: usize = 0;
        while i < self.entries.len()
            invariant
                i <= self.entries.len(),
                forall|j: int| 0 <= j < i ==> (#[trigger] self.entries[j]).0@ != name@,
            decreases self.entries.len() - i,
        {
            if chars_eq(&self.entries[i].0, name) {
                return Some(i);
            }
            i = i + 1;
        }
        None
    }

    /// The value bound to `name`, if there is one.
    pub fn get(&self, name: &Vec<char>) -> (r: Option<&V>)
        ensures
            match r {
                Some(v) => self@.contains_key(name@) && self@[name@] == v.deep_view(),
                None => !self@.contains_key(name@),
            },
    {
        proof {
            use_type_invariant(self);
        }
        match self.find(name) {
            Some(i) => {
                assert(has_name(self.entries@, name@));
                Some(&self.entries[i].1)
            },
            None => None,
        }
    }

    /// Whether `name` is bound.
    pub fn contains_key(&self, name: &Vec<char>) -> (r: bool)
        ensures
            r == self@.contains_key(name@),
    {
        self.get(name).is_some()
    }

    /// The map that binds `name` to `value`, in place of what it was bound to
    /// before, and is otherwise as this one.
    pub fn insert(self, name: Vec<char>, value: V) -> (r: Self)
        ensures
            r@ == self@.insert(name@, value.deep_view()),
    {
        proof {
            use_type_invariant(&self);
        }
        let ghost before = self.entries@;
        let ghost entry = (name, value);
        let found = self.find(&name);
        let mut entries = self.entries;
        match found {
            Some(i) => {
                entries[i] = (name, value);
                proof {
                    assert(entries@ == before.update(i as int, entry));
                    lemma_entries_map_update(before, i as int, entry);
                }
            },
            None => {
                entries.push((name, value));
                proof {
                    lemma_entries_map_push(before, entry);
                }
            },
        }
        NameMap { entries }
    }

    /// The entries of the map, each name once.
    pub fn entries(&self) -> (r: &Vec<(Vec<char>, V)>)
        ensures
            names_distinct(r@),
            self@ == entries_map(r@),
    {
        proof {
            use_type_invariant(self);
        }
        &self.entries
    }
}

impl<V: DeepView + Clone> NameMap<V> {
    /// A copy of the map, for a value type whose clones have the value of
    /// what they were made from.
    pub fn duplicate(&self) -> (r: Self)
        requires
            forall|a: V, b: V| cloned(a, b) ==> a.deep_view() == b.deep_view(),
        ensures
            r@ == self@,
    {
        proof {
            use_type_invariant(self);
        }
        let mut entries: Vec<(Vec<char>, V)> = Vec::new();
        let mut i: usize = 0;
        while i < self.entries.len()
            invariant
                i <= self.entries.len(),
                entries.len() == i,
                forall|a: V, b: V| cloned(a, b) ==> a.deep_view() == b.deep_view(),
                forall|j: int|
                    0 <= j < i ==> (#[trigger] entries[j]).0@ == self.entries[j].0@
                        && entries[j].1.deep_view() == self.entries[j].1.deep_view(),
            decreases self.entries.len() - i,
        {
            let name = copy_range(&self.entries[i].0, 0, self.entries[i].0.len());
            assert(name@ =~= self.entries[i as int].0@);
            let value = self.entries[i].1.clone();
            assert(cloned(self.entries[i as int].1, value));
            entries.push((name, value));
            i = i + 1;
        }
        proof {
            lemma_entries_map_same(self.entries@, entries@);
        }
        NameMap { entries }
    }
}

/// Two lists of entries with the same names and values, place by place,
/// stand for the same map.
pub proof fn lemma_entries_map_same<V: DeepView>(
    a: Seq<(Vec<char>, V)>,
    b: Seq<(Vec<char>, V)>,
)
    requires
        names_distinct(a),
        a.len() == b.len(),
        forall|j: int|
            0 <= j < a.len() ==> (#[trigger] b[j]).0@ == a[j].0@ && b[j].1.deep_view()
                == a[j].1.deep_view(),
    ensures
        names_distinct(b),
        entries_map(a) == entries_map(b),
{
    assert forall|i: int, j: int| 0 <= i < b.len() && 0 <= j < b.len() && i != j implies (
    #[trigger] b[i]).0@ != (#[trigger] b[j]).0@ by {
        assert(a[i].0@ == b[i].0@);
        assert(a[j].0@ == b[j].0@);
    }
    let m1 = entries_map(a);
    let m2 = entries_map(b);
    assert forall|name: Seq<char>| m1.contains_key(name) <==> m2.contains_key(name) by {
        if has_name(a, name) {
            let p = place_of(a, name);
            assert(b[p].0@ == name);
        }
        if has_name(b, name) {
            let p = place_of(b, name);
            assert(a[p].0@ == name);
        }
    }
    assert forall|name: Seq<char>| m1.contains_key(name) implies m1[name] == m2[name] by {
        let p = place_of(a, name);
        lemma_entries_map_at(a, p);
        assert(b[p].0@ == name);
        lemma_entries_map_at(b, p);
    }
    assert(m1 =~= m2);
}

/// In a list of distinct names, the entry at place `i` is what its name is
/// bound to.
pub proof fn lemma_entries_map_at<V: DeepView>(entries: Seq<(Vec<char>, V)>, i: int)
    requires
        names_distinct(entries),
        0 <= i < entries.len(),
    ensures
        entries_map(entries).contains_key(entries[i].0@),
        entries_map(entries)[entries[i].0@] == entries[i].1.deep_view(),
{
    let name = entries[i].0@;
    assert(has_name(entries, name));
    let p = place_of(entries, name);
    assert(p == i);
}

/// Replacing the entry at place `i` by one of the same name rebinds the name.
pub proof fn lemma_entries_map_update<V: DeepView>(
    entries: Seq<(Vec<char>, V)>,
    i: int,
    entry: (Vec<char>, V),
)
    requires
        names_distinct(entries),
        0 <= i < entries.len(),
        entries[i].0@ == entry.0@,
    ensures
        names_distinct(entries.update(i, entry)),
        entries_map(entries.update(i, entry)) == entries_map(entries).insert(
            entry.0@,
            entry.1.deep_view(),
        ),
{
    let after = entries.update(i, entry);
    assert forall|a: int, b: int|
        0 <= a < after.len() && 0 <= b < after.len() && a != b implies (#[trigger] after[a]).0@ != (
    #[trigger] after[b]).0@ by {
        assert(entries[a].0@ == after[a].0@);
        assert(entries[b].0@ == after[b].0@);
    }
    let m1 = entries_map(after);
    let m2 = entries_map(entries).insert(entry.0@, entry.1.deep_view());
    assert forall|name: Seq<char>| m1.contains_key(name) <==> m2.contains_key(name) by {
        if has_name(after, name) {
            let p = place_of(after, name);
            assert(entries[p].0@ == name);
        }
        if has_name(entries, name) {
            let p = place_of(entries, name);
            assert(after[p].0@ == name);
        }
        assert(after[i].0@ == entry.0@);
    }
    assert forall|name: Seq<char>| m1.contains_key(name) implies m1[name] == m2[name] by {
        let p = place_of(after, name);
        lemma_entries_map_at(after, p);
        if p != i {
            assert(entries[p] == after[p]);
            lemma_entries_map_at(entries, p);
        }
    }
    assert(m1 =~= m2);
}

/// Adding an entry with a new name binds the name.
pub proof fn lemma_entries_map_push<V: DeepView>(
    entries: Seq<(Vec<char>, V)>,
    entry: (Vec<char>, V),
)
    requires
        names_distinct(entries),
        !has_name(entries, entry.0@),
    ensures
        names_distinct(entries.push(entry)),
        entries_map(entries.push(entry)) == entries_map(entries).insert(
            entry.0@,
            entry.1.deep_view(),
        ),
{
    let after = entries.push(entry);
    assert forall|a: int, b: int|
        0 <= a < after.len() && 0 <= b < after.len() && a != b implies (#[trigger] after[a]).0@ != (
    #[trigger] after[b]).0@ by {
        if a < entries.len() {
            assert(entries[a].0@ == after[a].0@);
        }
        if b < entries.len() {
            assert(entries[b].0@ == after[b].0@);
        }
    }
    let m1 = entries_map(after);
    let m2 = entries_map(entries).insert(entry.0@, entry.1.deep_view());
    assert forall|name: Seq<char>| m1.contains_key(name) <==> m2.contains_key(name) by {
        if has_name(after, name) {
            let p = place_of(after, name);
            if p < entries.len() {
                assert(entries[p].0@ == name);
            }
        }
        if has_name(entries, name) {
            let p = place_of(entries, name);
            assert(after[p].0@ == name);
        }
        assert(after[entries.len() as int].0@ == entry.0@);
    }
    assert forall|name: Seq<char>| m1.contains_key(name) implies m1[name] == m2[name] by {
        let p = place_of(after, name);
        lemma_entries_map_at(after, p);
        if p < entries.len() {
            assert(entries[p] == after[p]);
            lemma_entries_map_at(entries, p);
        }
    }
    assert(m1 =~= m2);
}

} // verus!
