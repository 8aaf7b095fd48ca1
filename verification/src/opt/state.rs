use vstd::prelude::*;
use crate::opt::lattice::{Value, join, value_clone, value_eq, value_join};
use crate::opt::table::Table;

verus! {

/// What is known of each identifier at one program point: a finite map from
/// identifier names to abstract values. An identifier without a binding
/// counts as `Undefined`.
pub type State = Table<Value>;

/// The value that a state holds for a name: the bound value, or `Undefined`
/// where the name has no binding.
pub open spec fn lookup(m: Map<Seq<char>, Value>, name: Seq<char>) -> Value {
    if m.contains_key(name) {
        m[name]
    } else {
        Value::Undefined
    }
}

/// The pointwise join of two states. A name bound in neither is bound in
/// neither afterwards.
pub open spec fn join_states(a: Map<Seq<char>, Value>, b: Map<Seq<char>, Value>) -> Map<
    Seq<char>,
    Value,
> {
    Map::new(
        |name: Seq<char>| a.contains_key(name) || b.contains_key(name),
        |name: Seq<char>| join(lookup(a, name), lookup(b, name)),
    )
}

impl Table<Value> {
    /// Whether two states bind the same names to the same values.
    pub fn equals(&self, other: &State) -> (res: bool)
        ensures
            res == (self@ == other@),
    {
        let n = self.len();
        let mut i: usize = 0;
        while i < n
            invariant
                i <= n,
                n == self.names().len(),
                forall|name: Seq<char>|
                #![trigger self@.contains_key(name)]
                #![trigger self.names().contains(name)]
                self@.contains_key(name) <==> self.names().contains(name),
                forall|j: int|
                    0 <= j < i ==> other@.contains_key(#[trigger] self.names()[j])
                        && other@[self.names()[j]] == self@[self.names()[j]],
            decreases n - i,
        {
            let name = self.name_at(i);
            match (self.get(name), other.get(name)) {
                (Some(a), Some(b)) => {
                    if !value_eq(a, b) {
                        return false;
                    }
                },
                _ => {
                    return false;
                },
            }
            i += 1;
        }
        let m = other.len();
        let mut k: usize = 0;
        while k < m
            invariant
                k <= m,
                m == other.names().len(),
                forall|name: Seq<char>|
                    #![trigger other@.contains_key(name)]
                    #![trigger other.names().contains(name)]
                    other@.contains_key(name) <==> other.names().contains(name),
                forall|j: int| 0 <= j < k ==> self@.contains_key(#[trigger] other.names()[j]),
            decreases m - k,
        {
            let name = other.name_at(k);
            if self.get(name).is_none() {
                return false;
            }
            k += 1;
        }
        proof {
            assert forall|name: Seq<char>| self@.contains_key(name) implies other@.contains_key(
                name,
            ) && other@[name] == self@[name] by {
                let j = choose|j: int| 0 <= j < self.names().len() && self.names()[j] == name;
                assert(other@.contains_key(self.names()[j]));
            }
            assert forall|name: Seq<char>| other@.contains_key(name) implies self@.contains_key(
                name,
            ) by {
                let j = choose|j: int| 0 <= j < other.names().len() && other.names()[j] == name;
                assert(self@.contains_key(other.names()[j]));
            }
            assert(self@ =~= other@);
        }
        true
    }

    /// Joins `other` into this state, name by name.
    pub fn join_with(&mut self, other: &State)
        ensures
            final(self)@ == join_states(old(self)@, other@),
    {
        let n = other.len();
        let mut i: usize = 0;
        while i < n
            invariant
                i <= n,
                n == other.names().len(),
                forall|name: Seq<char>|
                    #![trigger other@.contains_key(name)]
                    #![trigger other.names().contains(name)]
                    other@.contains_key(name) <==> other.names().contains(name),
                forall|name: Seq<char>|
                    self@.contains_key(name) <==> old(self)@.contains_key(name)
                        || other.names().take(i as int).contains(name),
                forall|name: Seq<char>| #[trigger]
                    self@.contains_key(name) ==> self@[name] == (if other.names().take(
                        i as int,
                    ).contains(name) {
                        join(lookup(old(self)@, name), other@[name])
                    } else {
                        old(self)@[name]
                    }),
            decreases n - i,
        {
            let name = other.name_at(i);
            let theirs = match other.get(name) {
                Some(v) => value_clone(v),
                None => Value::Undefined,
            };
            let ours = match self.get(name) {
                Some(v) => value_clone(v),
                None => Value::Undefined,
            };
            let ghost before = self@;
            let ghost key = name@;
            proof {
                if other.names().take(i as int).contains(key) {
                    crate::opt::lattice::lemma_join_associative(lookup(old(self)@, key), theirs, theirs);
                    crate::opt::lattice::lemma_join_idempotent(theirs);
                }
                assert(other.names().take(i as int + 1) =~= other.names().take(i as int).push(
                    key,
                ));
            }
            self.insert(name.clone(), value_join(ours, theirs));
            proof {
                assert forall|k: Seq<char>|
                    other.names().take(i as int + 1).contains(k) <==> other.names().take(
                        i as int,
                    ).contains(k) || k == key by {
                    vstd::seq_lib::lemma_seq_contains_after_push(
                        other.names().take(i as int),
                        key,
                        k,
                    );
                }
            }
            i += 1;
        }
        proof {
            assert(other.names().take(n as int) =~= other.names());
            assert(self@ =~= join_states(old(self)@, other@));
        }
    }

    /// A copy of the state.
    pub fn duplicate(&self) -> (res: Self)
        ensures
            res@ == self@,
    {
        let mut res: State = Table::new();
        let n = self.len();
        let mut i: usize = 0;
        while i < n
            invariant
                i <= n,
                n == self.names().len(),
                forall|name: Seq<char>|
                    #![trigger self@.contains_key(name)]
                    #![trigger self.names().contains(name)]
                    self@.contains_key(name) <==> self.names().contains(name),
                forall|name: Seq<char>|
                    #![trigger res@.contains_key(name)]
                    #![trigger self.names().take(i as int).contains(name)]
                    res@.contains_key(name) <==> self.names().take(i as int).contains(name),
                forall|name: Seq<char>| #[trigger]
                    res@.contains_key(name) ==> res@[name] == self@[name],
            decreases n - i,
        {
            let name = self.name_at(i);
            let ghost key = name@;
            let value = match self.get(name) {
                Some(v) => value_clone(v),
                None => Value::Undefined,
            };
            let ghost before = res@;
            res.insert(name.clone(), value);
            proof {
                assert(res@ == before.insert(key, self@[key]));
                assert(self.names().take(i as int + 1) =~= self.names().take(i as int).push(key));
                assert forall|k: Seq<char>|
                    res@.contains_key(k) <==> self.names().take(i as int + 1).contains(k) by {
                    vstd::seq_lib::lemma_seq_contains_after_push(
                        self.names().take(i as int),
                        key,
                        k,
                    );
                    assert(before.contains_key(k) <==> self.names().take(i as int).contains(k));
                }
            }
            i += 1;
        }
        proof {
            assert(self.names().take(n as int) =~= self.names());
            assert(res@ =~= self@);
        }
        res
    }
}

} // verus!
