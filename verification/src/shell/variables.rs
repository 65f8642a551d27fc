//! Named values: the variables of the shell and the environment of the
//! process.

use vstd::prelude::*;

verus! {

/// The value that a list of `(name, value)` pairs gives to `name`: that of the
/// first pair with this name.
pub open spec fn lookup(pairs: Seq<(Seq<char>, Seq<char>)>, name: Seq<char>) -> Option<Seq<char>>
    decreases pairs.len(),
{
    if pairs.len() == 0 {
        None
    } else if pairs[0].0 == name {
        Some(pairs[0].1)
    } else {
        lookup(pairs.drop_first(), name)
    }
}

/// A name that no pair of the first `n` carries is looked up in the others.
pub proof fn lemma_lookup_skip(pairs: Seq<(Seq<char>, Seq<char>)>, name: Seq<char>, n: int)
    requires
        0 <= n <= pairs.len(),
        forall|i: int| 0 <= i < n ==> pairs[i].0 != name,
    ensures
        lookup(pairs, name) == lookup(pairs.skip(n), name),
    decreases n,
{
    if n == 0 {
        assert(pairs.skip(0) == pairs);
    } else {
        let rest = pairs.drop_first();
        assert forall|i: int| 0 <= i < n - 1 implies rest[i].0 != name by {
        }
        lemma_lookup_skip(rest, name, n - 1);
        assert(rest.skip(n - 1) == pairs.skip(n));
    }
}

/// Replacing the value of the first pair named `name` changes what `name`
/// stands for and nothing else.
pub proof fn lemma_lookup_update(
    pairs: Seq<(Seq<char>, Seq<char>)>,
    at: int,
    name: Seq<char>,
    value: Seq<char>,
    other: Seq<char>,
)
    requires
        0 <= at < pairs.len(),
        pairs[at].0 == name,
        forall|i: int| 0 <= i < at ==> pairs[i].0 != name,
    ensures
        lookup(pairs.update(at, (name, value)), other) == if other == name {
            Some(value)
        } else {
            lookup(pairs, other)
        },
    decreases at,
{
    let updated = pairs.update(at, (name, value));
    if at == 0 {
        assert(updated.drop_first() == pairs.drop_first());
    } else {
        let rest = pairs.drop_first();
        assert forall|i: int| 0 <= i < at - 1 implies rest[i].0 != name by {
        }
        lemma_lookup_update(rest, at - 1, name, value, other);
        assert(updated.drop_first() == rest.update(at - 1, (name, value)));
    }
}

/// A pair added at the end gives its name a value only where the name had
/// none.
pub proof fn lemma_lookup_push(
    pairs: Seq<(Seq<char>, Seq<char>)>,
    name: Seq<char>,
    value: Seq<char>,
    other: Seq<char>,
)
    ensures
        lookup(pairs.push((name, value)), other) == if lookup(pairs, other).is_some() {
            lookup(pairs, other)
        } else if other == name {
            Some(value)
        } else {
            None
        },
    decreases pairs.len(),
{
    let pushed = pairs.push((name, value));
    if pairs.len() == 0 {
        assert(lookup(pushed.drop_first(), other).is_none());
    } else {
        assert(pushed.drop_first() == pairs.drop_first().push((name, value)));
        lemma_lookup_push(pairs.drop_first(), name, value, other);
    }
}

/// Index of the first pair named `name`, if there is one.
pub fn position(pairs: &Vec<(String, String)>, name: &str) -> (at: Option<usize>)
    ensures
        match at {
            Some(i) => {
                &&& i < pairs.len()
                &&& pairs[i as int].0@ == name@
                &&& forall|j: int| 0 <= j < i ==> pairs[j].0@ != name@
                &&& lookup(pairs.deep_view(), name@) == Some(pairs[i as int].1@)
            },
            None => {
                &&& forall|j: int| 0 <= j < pairs.len() ==> pairs[j].0@ != name@
                &&& lookup(pairs.deep_view(), name@).is_none()
            },
        },
{
    let wanted = name.to_string();
    let ghost model = pairs.deep_view();
    let mut i: usize = 0;
    while i < pairs.len()
        invariant
            i <= pairs.len(),
            wanted@ == name@,
            model == pairs.deep_view(),
            forall|j: int| 0 <= j < i ==> pairs[j].0@ != name@,
        decreases pairs.len() - i,
    {
        if pairs[i].0 == wanted {
            proof {
                assert forall|j: int| 0 <= j < i implies model[j].0 != name@ by {
                }
                lemma_lookup_skip(model, name@, i as int);
            }
            return Some(i);
        }
        i += 1;
    }
    proof {
        assert forall|j: int| 0 <= j < i implies model[j].0 != name@ by {
        }
        lemma_lookup_skip(model, name@, i as int);
    }
    None
}

/// The value that the first pair named `name` gives it.
pub fn value_of<'a>(pairs: &'a Vec<(String, String)>, name: &str) -> (value: Option<&'a String>)
    ensures
        match value {
            Some(v) => lookup(pairs.deep_view(), name@) == Some(v@),
            None => lookup(pairs.deep_view(), name@).is_none(),
        },
{
    match position(pairs, name) {
        Some(i) => Some(&pairs[i].1),
        None => None,
    }
}

/// The variables of the shell: a value for each of some names.
#[derive(Debug, Clone, PartialEq, Eq)]
pub struct Variables {
    entries: Vec<(String, String)>,
}

impl View for Variables {
    type V = Map<Seq<char>, Seq<char>>;

    closed spec fn view(&self) -> Map<Seq<char>, Seq<char>> {
        Map::new(
            |name: Seq<char>| lookup(self.entries.deep_view(), name).is_some(),
            |name: Seq<char>| lookup(self.entries.deep_view(), name).unwrap(),
        )
    }
}

impl Variables {
    /// No variables.
    pub fn new() -> (variables: Variables)
        ensures
            variables@ == Map::<Seq<char>, Seq<char>>::empty(),
    {
        let variables = Variables { entries: Vec::new() };
        variables
    }

    /// The value of the variable `name`, if it has one.
    pub fn get(&self, name: &str) -> (value: Option<&String>)
        ensures
            match value {
                Some(v) => self@.contains_key(name@) && self@[name@] == v@,
                None => !self@.contains_key(name@),
            },
    {
        value_of(&self.entries, name)
    }

    /// Gives the variable `name` the value `value`, whether or not it had one.
    pub fn insert(&mut self, name: String, value: String)
        ensures
            final(self)@ == old(self)@.insert(name@, value@),
    {
        let ghost before = self.entries.deep_view();
        match position(&self.entries, name.as_str()) {
            Some(i) => {
                self.entries[i] = (name, value);
                proof {
                    assert(self.entries.deep_view() == before.update(i as int, (name@, value@)));
                    assert forall|other: Seq<char>|
                        lookup(self.entries.deep_view(), other) == if other == name@ {
                            Some(value@)
                        } else {
                            lookup(before, other)
                        } by {
                        lemma_lookup_update(before, i as int, name@, value@, other);
                    }
                }
            },
            None => {
                self.entries.push((name, value));
                proof {
                    assert(self.entries.deep_view() == before.push((name@, value@)));
                    assert forall|other: Seq<char>|
                        lookup(self.entries.deep_view(), other) == if other == name@ {
                            Some(value@)
                        } else {
                            lookup(before, other)
                        } by {
                        lemma_lookup_push(before, name@, value@, other);
                    }
                }
            },
        }
    }
}

} // verus!
