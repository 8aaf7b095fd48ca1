use vstd::prelude::*;

verus! {

/// A finite map from names to values of type `V`, kept as a list of bindings
/// in the order in which the names were first bound.
#[derive(Debug)]
pub struct Table<V> {
    entries: Vec<(String, V)>,
}

/// Entry `i` of `s` is the first one that binds `name`.
pub open spec fn bound_at<V>(s: Seq<(String, V)>, name: Seq<char>, i: int) -> bool {
    &&& 0 <= i < s.len()
    &&& s[i].0@ == name
    &&& forall|j: int| 0 <= j < i ==> s[j].0@ != name
}

/// The map that a list of bindings stands for: each name that occurs in it,
/// with the value of the first entry that binds it.
pub open spec fn bindings<V>(s: Seq<(String, V)>) -> Map<Seq<char>, V> {
    Map::new(
        |name: Seq<char>| exists|i: int| bound_at(s, name, i),
        |name: Seq<char>| s[choose|i: int| bound_at(s, name, i)].1,
    )
}

proof fn lemma_bindings_at<V>(s: Seq<(String, V)>, name: Seq<char>, i: int)
    requires
        bound_at(s, name, i),
    ensures
        bindings(s).contains_key(name),
        bindings(s)[name] == s[i].1,
{
    let j = choose|j: int| bound_at(s, name, j);
    assert(j == i);
}

proof fn lemma_first_binding<V>(s: Seq<(String, V)>, name: Seq<char>, i: int) -> (first: int)
    requires
        0 <= i < s.len(),
        s[i].0@ == name,
    ensures
        bound_at(s, name, first),
        first <= i,
    decreases i,
{
    if exists|j: int| 0 <= j < i && s[j].0@ == name {
        let j = choose|j: int| 0 <= j < i && s[j].0@ == name;
        lemma_first_binding(s, name, j)
    } else {
        i
    }
}

proof fn lemma_bindings_push<V>(s: Seq<(String, V)>, name: String, value: V)
    requires
        forall|i: int| 0 <= i < s.len() ==> s[i].0@ != name@,
    ensures
        bindings(s.push((name, value))) == bindings(s).insert(name@, value),
{
    let t = s.push((name, value));
    let goal = bindings(s).insert(name@, value);
    assert forall|k: Seq<char>| #[trigger] bindings(t).contains_key(k) == goal.contains_key(k) by {
        if bindings(t).contains_key(k) {
            let i = choose|i: int| bound_at(t, k, i);
            if i < s.len() {
                assert forall|j: int| 0 <= j < i implies s[j].0@ != k by {
                    assert(t[j].0@ != k);
                }
                assert(bound_at(s, k, i));
            }
        }
        if bindings(s).contains_key(k) {
            let i = choose|i: int| bound_at(s, k, i);
            assert forall|j: int| 0 <= j < i implies t[j].0@ != k by {
                assert(s[j].0@ != k);
            }
            assert(bound_at(t, k, i));
        }
        if k == name@ {
            assert forall|j: int| 0 <= j < s.len() implies t[j].0@ != k by {
                assert(s[j].0@ != k);
            }
            assert(bound_at(t, k, s.len() as int));
        }
    }
    assert forall|k: Seq<char>| #[trigger] bindings(t).contains_key(k) implies bindings(t)[k]
        == goal[k] by {
        let i = choose|i: int| bound_at(t, k, i);
        lemma_bindings_at(t, k, i);
        if i < s.len() {
            assert forall|j: int| 0 <= j < i implies s[j].0@ != k by {
                assert(t[j].0@ != k);
            }
            assert(bound_at(s, k, i));
            lemma_bindings_at(s, k, i);
        }
    }
    assert(bindings(t) =~= goal);
}

proof fn lemma_bindings_update<V>(s: Seq<(String, V)>, at: int, name: String, value: V)
    requires
        bound_at(s, name@, at),
    ensures
        bindings(s.update(at, (name, value))) == bindings(s).insert(name@, value),
{
    let t = s.update(at, (name, value));
    let goal = bindings(s).insert(name@, value);
    assert forall|k: Seq<char>, i: int| bound_at(t, k, i) == bound_at(s, k, i) by {
        if bound_at(t, k, i) {
            assert forall|j: int| 0 <= j < i implies s[j].0@ != k by {
                assert(t[j].0@ != k);
            }
        }
        if bound_at(s, k, i) {
            assert forall|j: int| 0 <= j < i implies t[j].0@ != k by {
                assert(s[j].0@ != k);
            }
        }
    }
    assert forall|k: Seq<char>| #[trigger] bindings(t).contains_key(k) == goal.contains_key(k) by {
        if bindings(t).contains_key(k) {
            let i = choose|i: int| bound_at(t, k, i);
            assert(bound_at(s, k, i));
        }
        if bindings(s).contains_key(k) {
            let i = choose|i: int| bound_at(s, k, i);
            assert(bound_at(t, k, i));
        }
        if k == name@ {
            assert(bound_at(t, k, at));
        }
    }
    assert forall|k: Seq<char>| #[trigger] bindings(t).contains_key(k) implies bindings(t)[k]
        == goal[k] by {
        let i = choose|i: int| bound_at(t, k, i);
        lemma_bindings_at(t, k, i);
        assert(bound_at(s, k, i));
        lemma_bindings_at(s, k, i);
    }
    assert(bindings(t) =~= goal);
}

impl<V> View for Table<V> {
    type V = Map<Seq<char>, V>;

    closed spec fn view(&self) -> Map<Seq<char>, V> {
        bindings(self.entries@)
    }
}

impl<V> Table<V> {
    /// The names that the state binds, in the order in which they were bound.
    pub closed spec fn names(&self) -> Seq<Seq<char>> {
        Seq::new(self.entries@.len(), |i: int| self.entries@[i].0@)
    }

    proof fn lemma_names(&self)
        ensures
            forall|name: Seq<char>|
                #![trigger self@.contains_key(name)]
                #![trigger self.names().contains(name)]
                self@.contains_key(name) <==> self.names().contains(name),
    {
        let s = self.entries@;
        assert forall|name: Seq<char>| self@.contains_key(name) <==> self.names().contains(
            name,
        ) by {
            if self@.contains_key(name) {
                let i = choose|i: int| bound_at(s, name, i);
                assert(self.names()[i] == name);
            }
            if self.names().contains(name) {
                let i = choose|i: int| 0 <= i < self.names().len() && self.names()[i] == name;
                let first = lemma_first_binding(s, name, i);
            }
        }
    }

    /// The state that binds no name.
    pub fn new() -> (res: Self)
        ensures
            res@ == Map::<Seq<char>, V>::empty(),
            res.names().len() == 0,
    {
        let res = Table { entries: Vec::new() };
        assert(res@ =~= Map::<Seq<char>, V>::empty()) by {
            assert forall|name: Seq<char>| !res@.contains_key(name) by {
                if res@.contains_key(name) {
                    let i = choose|i: int| bound_at(res.entries@, name, i);
                }
            }
        }
        res
    }

    fn find(&self, name: &String) -> (res: Option<usize>)
        ensures
            match res {
                Some(i) => bound_at(self.entries@, name@, i as int),
                None => forall|i: int| 0 <= i < self.entries@.len() ==> self.entries@[i].0@
                    != name@,
            },
    {
        let mut i: usize = 0;
        while i < self.entries.len()
            invariant
                i <= self.entries.len(),
                forall|j: int| 0 <= j < i ==> self.entries@[j].0@ != name@,
            decreases self.entries.len() - i,
        {
            if self.entries[i].0 == *name {
                return Some(i);
            }
            i += 1;
        }
        None
    }

    /// The value bound to `name`, if any.
    pub fn get(&self, name: &String) -> (res: Option<&V>)
        ensures
            match res {
                Some(v) => self@.contains_key(name@) && *v == self@[name@],
                None => !self@.contains_key(name@),
            },
    {
        match self.find(name) {
            Some(i) => {
                proof {
                    lemma_bindings_at(self.entries@, name@, i as int);
                }
                Some(&self.entries[i].1)
            },
            None => {
                proof {
                    if self@.contains_key(name@) {
                        let i = choose|i: int| bound_at(self.entries@, name@, i);
                    }
                }
                None
            },
        }
    }

    /// Binds `name` to `value`, in place of what it was bound to before.
    pub fn insert(&mut self, name: String, value: V)
        ensures
            final(self)@ == old(self)@.insert(name@, value),
    {
        match self.find(&name) {
            Some(i) => {
                proof {
                    lemma_bindings_update(self.entries@, i as int, name, value);
                }
                self.entries.set(i, (name, value));
            },
            None => {
                proof {
                    lemma_bindings_push(self.entries@, name, value);
                }
                self.entries.push((name, value));
            },
        }
    }

    /// The number of entries of the list of bound names. Every name that the
    /// state binds is in that list.
    pub fn len(&self) -> (res: usize)
        ensures
            res == self.names().len(),
            forall|name: Seq<char>|
                #![trigger self@.contains_key(name)]
                #![trigger self.names().contains(name)]
                self@.contains_key(name) <==> self.names().contains(name),
    {
        proof {
            self.lemma_names();
        }
        self.entries.len()
    }

    /// The `i`-th name of the list of bound names.
    pub fn name_at(&self, i: usize) -> (res: &String)
        requires
            i < self.names().len(),
        ensures
            res@ == self.names()[i as int],
            self@.contains_key(res@),
    {
        proof {
            let first = lemma_first_binding(self.entries@, self.entries@[i as int].0@, i as int);
        }
        &self.entries[i].0
    }
}

} // verus!
