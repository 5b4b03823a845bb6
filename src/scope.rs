//! A scope: variable names bound to values, each name at most once.
use vstd::prelude::*;
use crate::text::str_eq;
use crate::value::{SpecValue, Value};

verus! {

/// The bindings that a list of entries makes; a later entry wins.
pub open spec fn entries_map(s: Seq<(String, Value)>) -> Map<Seq<char>, SpecValue>
    decreases s.len(),
{
    if s.len() == 0 {
        Map::empty()
    } else {
        entries_map(s.drop_last()).insert(s.last().0@, s.last().1@)
    }
}

/// No name occurs twice among the entries.
pub open spec fn keys_unique(s: Seq<(String, Value)>) -> bool {
    forall|i: int, j: int| 0 <= i < j < s.len() ==> s[i].0@ != s[j].0@
}

proof fn lemma_entries_absent(s: Seq<(String, Value)>, k: Seq<char>)
    requires
        forall|i: int| 0 <= i < s.len() ==> s[i].0@ != k,
    ensures
        !entries_map(s).contains_key(k),
    decreases s.len(),
{
    if s.len() > 0 {
        lemma_entries_absent(s.drop_last(), k);
    }
}

proof fn lemma_entries_at(s: Seq<(String, Value)>, i: int)
    requires
        keys_unique(s),
        0 <= i < s.len(),
    ensures
        entries_map(s).contains_key(s[i].0@),
        entries_map(s)[s[i].0@] == s[i].1@,
    decreases s.len(),
{
    if i < s.len() - 1 {
        lemma_entries_at(s.drop_last(), i);
    }
}

proof fn lemma_entries_update(s: Seq<(String, Value)>, i: int, e: (String, Value))
    requires
        keys_unique(s),
        0 <= i < s.len(),
        e.0@ == s[i].0@,
    ensures
        entries_map(s.update(i, e)) == entries_map(s).insert(e.0@, e.1@),
        keys_unique(s.update(i, e)),
    decreases s.len(),
{
    let t = s.update(i, e);
    if i == s.len() - 1 {
        assert(t.drop_last() =~= s.drop_last());
        assert(entries_map(t) =~= entries_map(s).insert(e.0@, e.1@));
    } else {
        lemma_entries_update(s.drop_last(), i, e);
        assert(t.drop_last() =~= s.drop_last().update(i, e));
        assert(entries_map(t) =~= entries_map(s).insert(e.0@, e.1@));
    }
}

/// The bindings are a list of entries with unique names rather than a
/// `HashMap`: vstd gives a map keyed by `String` no specification that lookups
/// could be proved from, while over a list they are proved here.
#[derive(Debug)]
pub struct Scope {
    variables: Vec<(String, Value)>,
}

impl View for Scope {
    type V = Map<Seq<char>, SpecValue>;

    closed spec fn view(&self) -> Map<Seq<char>, SpecValue> {
        entries_map(self.variables@)
    }
}

impl Scope {
    pub closed spec fn wf(&self) -> bool {
        keys_unique(self.variables@)
    }

    /// A scope without bindings.
    pub fn new() -> (r: Scope)
        ensures
            r.wf(),
            r@ == Map::<Seq<char>, SpecValue>::empty(),
    {
        Scope { variables: Vec::new() }
    }

    pub fn get(&self, name: &str) -> (r: Option<&Value>)
        requires
            self.wf(),
        ensures
            r is Some <==> self@.contains_key(name@),
            r matches Some(v) ==> v@ == self@[name@],
    {
        let mut i: usize = 0;
        while i < self.variables.len()
            invariant
                i <= self.variables@.len(),
                keys_unique(self.variables@),
                forall|j: int| 0 <= j < i ==> self.variables@[j].0@ != name@,
            decreases self.variables.len() - i,
        {
            if str_eq(self.variables[i].0.as_str(), name) {
                proof {
                    lemma_entries_at(self.variables@, i as int);
                }
                return Some(&self.variables[i].1);
            }
            i = i + 1;
        }
        proof {
            lemma_entries_absent(self.variables@, name@);
        }
        None
    }

    pub fn set(&mut self, name: String, value: Value)
        requires
            old(self).wf(),
        ensures
            final(self).wf(),
            final(self)@ == old(self)@.insert(name@, value@),
    {
        let mut i: usize = 0;
        while i < self.variables.len()
            invariant
                i <= self.variables@.len(),
                keys_unique(self.variables@),
                self.variables@ == old(self).variables@,
                forall|j: int| 0 <= j < i ==> self.variables@[j].0@ != name@,
            decreases self.variables.len() - i,
        {
            if str_eq(self.variables[i].0.as_str(), name.as_str()) {
                proof {
                    lemma_entries_update(self.variables@, i as int, (name, value));
                }
                self.variables.set(i, (name, value));
                return;
            }
            i = i + 1;
        }
        let ghost before = self.variables@;
        self.variables.push((name, value));
        assert(self.variables@.drop_last() =~= before);
        assert(keys_unique(self.variables@)) by {
            assert forall|a: int, b: int| 0 <= a < b < self.variables@.len() implies self.variables@[a].0@
                != self.variables@[b].0@ by {
                if b == before.len() {
                    assert(self.variables@[a] == before[a]);
                } else {
                    assert(self.variables@[a] == before[a]);
                    assert(self.variables@[b] == before[b]);
                }
            }
        }
    }
}

} // verus!
