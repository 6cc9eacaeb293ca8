//! The named parameters of a run, ordered by name.
use vstd::prelude::*;

use crate::text::{
    lemma_text_less_total, lemma_text_less_trans, opt_view, text_eq, text_less, text_lt,
};

verus! {

/// Parameter names with their values; each name occurs once and names are in order.
#[derive(Debug)]
pub struct Params {
    entries: Vec<(String, String)>,
}

spec fn ordered(entries: Seq<(String, String)>) -> bool {
    forall|i: int, j: int|
        0 <= i < j < entries.len() ==> text_less(#[trigger] entries[i].0@, #[trigger] entries[j].0@)
}

spec fn has_name(entries: Seq<(String, String)>, name: Seq<char>) -> bool {
    exists|i: int| 0 <= i < entries.len() && #[trigger] entries[i].0@ == name
}

spec fn position(entries: Seq<(String, String)>, name: Seq<char>) -> int {
    choose|i: int| 0 <= i < entries.len() && #[trigger] entries[i].0@ == name
}

spec fn value_of(entries: Seq<(String, String)>, name: Seq<char>) -> Seq<char> {
    entries[position(entries, name)].1@
}

spec fn as_map(entries: Seq<(String, String)>) -> Map<Seq<char>, Seq<char>> {
    Map::new(|name: Seq<char>| has_name(entries, name), |name: Seq<char>| value_of(entries, name))
}

impl View for Params {
    type V = Map<Seq<char>, Seq<char>>;

    closed spec fn view(&self) -> Map<Seq<char>, Seq<char>> {
        as_map(self.entries@)
    }
}

proof fn lemma_entry(entries: Seq<(String, String)>, i: int)
    requires
        ordered(entries),
        0 <= i < entries.len(),
    ensures
        as_map(entries).contains_pair(entries[i].0@, entries[i].1@),
{
    let name = entries[i].0@;
    let k = position(entries, name);
    assert(0 <= k < entries.len() && entries[k].0@ == name);
    if k != i {
        lemma_text_less_total(entries[i].0@, entries[k].0@);
        if i < k {
            assert(text_less(entries[i].0@, entries[k].0@));
        } else {
            assert(text_less(entries[k].0@, entries[i].0@));
        }
    }
}

/// The parameters with one more, where it has a value.
pub open spec fn put_opt(
    params: Map<Seq<char>, Seq<char>>,
    name: Seq<char>,
    value: Option<Seq<char>>,
) -> Map<Seq<char>, Seq<char>> {
    match value {
        Some(v) => params.insert(name, v),
        None => params,
    }
}

impl Params {
    #[verifier::type_invariant]
    spec fn well_formed(self) -> bool {
        ordered(self.entries@)
    }

    /// The parameters in order.
    pub closed spec fn sorted(self) -> Seq<(Seq<char>, Seq<char>)> {
        Seq::new(self.entries@.len(), |i: int| (self.entries@[i].0@, self.entries@[i].1@))
    }

    /// No parameters.
    pub fn new() -> (params: Params)
        ensures
            params@ == Map::<Seq<char>, Seq<char>>::empty(),
    {
        let params = Params { entries: Vec::new() };
        assert(params@ =~= Map::<Seq<char>, Seq<char>>::empty());
        params
    }

    /// The value of a parameter.
    pub fn get(&self, name: &str) -> (value: Option<&String>)
        ensures
            match value {
                Some(v) => self@.contains_pair(name@, v@),
                None => !self@.contains_key(name@),
            },
    {
        proof {
            use_type_invariant(self);
        }
        let mut i: usize = 0;
        while i < self.entries.len()
            invariant
                i <= self.entries.len(),
                ordered(self.entries@),
                forall|j: int| 0 <= j < i ==> #[trigger] self.entries@[j].0@ != name@,
            decreases self.entries.len() - i,
        {
            if text_eq(self.entries[i].0.as_str(), name) {
                proof {
                    lemma_entry(self.entries@, i as int);
                }
                return Some(&self.entries[i].1);
            }
            i += 1;
        }
        assert(!has_name(self.entries@, name@));
        None
    }

    /// Sets a parameter.
    pub fn insert(&mut self, name: &str, value: String)
        ensures
            final(self)@ == old(self)@.insert(name@, value@),
    {
        proof {
            use_type_invariant(&*self);
        }
        let ghost before = self.entries@;
        let mut entries: Vec<(String, String)> = Vec::new();
        std::mem::swap(&mut entries, &mut self.entries);
        let mut i: usize = 0;
        while i < entries.len() && text_lt(entries[i].0.as_str(), name)
            invariant
                i <= entries.len(),
                ordered(entries@),
                entries@ == before,
                forall|j: int| 0 <= j < i ==> text_less(#[trigger] entries@[j].0@, name@),
            decreases entries.len() - i,
        {
            i += 1;
        }
        let ghost at = i as int;
        if i < entries.len() && text_eq(entries[i].0.as_str(), name) {
            let entry = (name.to_owned(), value);
            entries.set(i, entry);
            proof {
                assert(entries@ =~= before.update(at, entry));
                assert forall|j: int, k: int| 0 <= j < k < entries@.len() implies text_less(
                    #[trigger] entries@[j].0@,
                    #[trigger] entries@[k].0@,
                ) by {
                    assert(entries@[j].0@ == before[j].0@);
                    assert(entries@[k].0@ == before[k].0@);
                }
                lemma_replaced(before, entries@, at, name@, value@);
            }
        } else {
            let entry = (name.to_owned(), value);
            proof {
                if at < before.len() {
                    lemma_text_less_total(before[at].0@, name@);
                }
                assert forall|k: int| at <= k < before.len() implies text_less(
                    name@,
                    #[trigger] before[k].0@,
                ) by {
                    if k > at {
                        lemma_text_less_trans(name@, before[at].0@, before[k].0@);
                    }
                }
            }
            entries.insert(i, entry);
            proof {
                assert(entries@ =~= before.insert(at, entry));
                assert forall|j: int, k: int| 0 <= j < k < entries@.len() implies text_less(
                    #[trigger] entries@[j].0@,
                    #[trigger] entries@[k].0@,
                ) by {
                    if j < at && k > at {
                        lemma_text_less_trans(before[j].0@, name@, before[k - 1].0@);
                    } else if j == at {
                        assert(entries@[k] == before[k - 1]);
                    } else if j > at {
                        assert(entries@[k] == before[k - 1]);
                        assert(entries@[j] == before[j - 1]);
                    }
                }
                lemma_inserted(before, entries@, at, name@, value@);
            }
        }
        self.entries = entries;
    }

    /// Sets a parameter, where it has a value.
    pub fn insert_opt(&mut self, name: &str, value: Option<String>)
        ensures
            final(self)@ == put_opt(old(self)@, name@, opt_view(value)),
    {
        match value {
            Some(v) => self.insert(name, v),
            None => {},
        }
    }

    /// The number of parameters. Every name of the map stands at some position.
    pub fn len(&self) -> (n: usize)
        ensures
            n == self.sorted().len(),
            forall|name: Seq<char>|
                self@.contains_key(name) ==> exists|i: int|
                    0 <= i < n && #[trigger] self.sorted()[i].0 == name,
    {
        assert forall|name: Seq<char>| self@.contains_key(name) implies exists|i: int|
            0 <= i < self.entries@.len() && #[trigger] self.sorted()[i].0 == name by {
            let i = position(self.entries@, name);
            assert(self.sorted()[i].0 == name);
        }
        self.entries.len()
    }

    /// The parameter at a position: names come in strictly increasing order.
    pub fn entry(&self, at: usize) -> (pair: (&String, &String))
        requires
            at < self.sorted().len(),
        ensures
            (pair.0@, pair.1@) == self.sorted()[at as int],
            self@.contains_pair(pair.0@, pair.1@),
            forall|i: int| 0 <= i < at ==> text_less(#[trigger] self.sorted()[i].0, pair.0@),
    {
        proof {
            use_type_invariant(self);
            lemma_entry(self.entries@, at as int);
        }
        (&self.entries[at].0, &self.entries[at].1)
    }
}

impl Clone for Params {
    fn clone(&self) -> (params: Params)
        ensures
            params@ == self@,
            params.sorted() == self.sorted(),
    {
        proof {
            use_type_invariant(self);
        }
        let mut entries: Vec<(String, String)> = Vec::new();
        let mut i: usize = 0;
        while i < self.entries.len()
            invariant
                i <= self.entries.len(),
                entries@ == self.entries@.take(i as int),
            decreases self.entries.len() - i,
        {
            let name = self.entries[i].0.clone();
            let value = self.entries[i].1.clone();
            entries.push((name, value));
            i += 1;
            assert(entries@ =~= self.entries@.take(i as int));
        }
        assert(self.entries@.take(self.entries@.len() as int) =~= self.entries@);
        Params { entries }
    }
}

proof fn lemma_replaced(
    before: Seq<(String, String)>,
    after: Seq<(String, String)>,
    at: int,
    name: Seq<char>,
    value: Seq<char>,
)
    requires
        ordered(before),
        ordered(after),
        0 <= at < before.len(),
        after.len() == before.len(),
        forall|j: int| 0 <= j < before.len() && j != at ==> after[j] == before[j],
        before[at].0@ == name,
        after[at].0@ == name,
        after[at].1@ == value,
    ensures
        as_map(after) == as_map(before).insert(name, value),
{
    let m = as_map(before).insert(name, value);
    assert forall|k: Seq<char>| as_map(after).contains_key(k) == m.contains_key(k) by {
        if has_name(after, k) {
            let j = choose|j: int| 0 <= j < after.len() && #[trigger] after[j].0@ == k;
            assert(before[j].0@ == k);
        }
        if has_name(before, k) {
            let j = choose|j: int| 0 <= j < before.len() && #[trigger] before[j].0@ == k;
            assert(after[j].0@ == k);
        }
        assert(after[at].0@ == name);
    }
    assert forall|k: Seq<char>| as_map(after).contains_key(k) implies as_map(after)[k] == m[k] by {
        let j = choose|j: int| 0 <= j < after.len() && #[trigger] after[j].0@ == k;
        lemma_entry(after, j);
        lemma_entry(before, j);
        lemma_entry(after, at);
    }
    assert(as_map(after) =~= m);
}

proof fn lemma_inserted(
    before: Seq<(String, String)>,
    after: Seq<(String, String)>,
    at: int,
    name: Seq<char>,
    value: Seq<char>,
)
    requires
        ordered(before),
        ordered(after),
        0 <= at <= before.len(),
        after.len() == before.len() + 1,
        forall|j: int| 0 <= j < at ==> after[j] == before[j],
        forall|j: int| at < j < after.len() ==> after[j] == before[j - 1],
        after[at].0@ == name,
        after[at].1@ == value,
    ensures
        as_map(after) == as_map(before).insert(name, value),
{
    let m = as_map(before).insert(name, value);
    assert forall|k: Seq<char>| as_map(after).contains_key(k) == m.contains_key(k) by {
        if has_name(after, k) {
            let j = choose|j: int| 0 <= j < after.len() && #[trigger] after[j].0@ == k;
            if j < at {
                assert(before[j].0@ == k);
            } else if j > at {
                assert(before[j - 1].0@ == k);
            }
        }
        if has_name(before, k) {
            let j = choose|j: int| 0 <= j < before.len() && #[trigger] before[j].0@ == k;
            if j < at {
                assert(after[j].0@ == k);
            } else {
                assert(after[j + 1].0@ == k);
            }
        }
        assert(after[at].0@ == name);
    }
    assert forall|k: Seq<char>| as_map(after).contains_key(k) implies as_map(after)[k] == m[k] by {
        let j = choose|j: int| 0 <= j < after.len() && #[trigger] after[j].0@ == k;
        lemma_entry(after, j);
        if j < at {
            lemma_entry(before, j);
            lemma_entry(after, at);
        } else if j > at {
            lemma_entry(before, j - 1);
            lemma_entry(after, at);
        }
        if j != at && k == name {
            lemma_text_less_total(after[j].0@, after[at].0@);
            if j < at {
                assert(text_less(after[j].0@, after[at].0@));
            } else {
                assert(text_less(after[at].0@, after[j].0@));
            }
        }
    }
    assert(as_map(after) =~= m);
}

} // verus!
