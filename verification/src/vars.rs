//! Named scalar values.
//!
//! A `VarMap` associates variable names with `Scalar` values. It serves
//! both as the evaluation context for expressions (the loop variable and
//! auxiliary variables) and as the named-input mapping handed to a color
//! model. Its mathematical view is a `Map` from the name's characters to
//! the value's fixed-point units; a later binding for a name shadows an
//! earlier one.

use vstd::prelude::*;

use crate::scalar::Scalar;

verus! {

/// The mapping described by an association list: bindings are applied in
/// order, so the last binding for a name wins.
pub open spec fn al_map(s: Seq<(String, Scalar)>) -> Map<Seq<char>, int>
    decreases s.len(),
{
    if s.len() == 0 {
        Map::empty()
    } else {
        al_map(s.drop_last()).insert(s.last().0@, s.last().1.milli as int)
    }
}

/// Named scalar values: an evaluation context or a named-input mapping.
pub struct VarMap {
    entries: Vec<(String, Scalar)>,
}

impl View for VarMap {
    type V = Map<Seq<char>, int>;

    closed spec fn view(&self) -> Map<Seq<char>, int> {
        al_map(self.entries@)
    }
}

/// Character-for-character string equality.
pub fn str_eq(a: &str, b: &str) -> (r: bool)
    ensures
        r == (a@ == b@),
{
    let n = a.unicode_len();
    if n != b.unicode_len() {
        return false;
    }
    let mut i: usize = 0;
    while i < n
        invariant
            i <= n,
            n == a@.len(),
            n == b@.len(),
            forall|j: int| 0 <= j < i ==> a@[j] == b@[j],
        decreases n - i,
    {
        if a.get_char(i) != b.get_char(i) {
            return false;
        }
        i = i + 1;
    }
    proof {
        assert(a@ =~= b@);
    }
    true
}

/// Character-for-character equality of a string and a character vector.
pub fn str_eq_chars(a: &str, b: &Vec<char>) -> (r: bool)
    ensures
        r == (a@ == b@),
{
    let n = a.unicode_len();
    if n != b.len() {
        return false;
    }
    let mut i: usize = 0;
    while i < n
        invariant
            i <= n,
            n == a@.len(),
            n == b@.len(),
            forall|j: int| 0 <= j < i ==> a@[j] == b@[j],
        decreases n - i,
    {
        if a.get_char(i) != b[i] {
            return false;
        }
        i = i + 1;
    }
    proof {
        assert(a@ =~= b@);
    }
    true
}

/// Entries that agree on name and value describe the same mapping.
proof fn lemma_al_map_congruent(s1: Seq<(String, Scalar)>, s2: Seq<(String, Scalar)>)
    requires
        s1.len() == s2.len(),
        forall|i: int| 0 <= i < s1.len() ==> s1[i].0@ == s2[i].0@ && s1[i].1 == s2[i].1,
    ensures
        al_map(s1) == al_map(s2),
    decreases s1.len(),
{
    if s1.len() > 0 {
        lemma_al_map_congruent(s1.drop_last(), s2.drop_last());
    }
}

/// Bindings at positions `j` and beyond do not affect a name they do not
/// mention.
proof fn lemma_al_map_suffix_absent(s: Seq<(String, Scalar)>, j: int, k: Seq<char>)
    requires
        0 <= j <= s.len(),
        forall|l: int| j <= l < s.len() ==> s[l].0@ != k,
    ensures
        al_map(s).contains_key(k) == al_map(s.take(j)).contains_key(k),
        al_map(s).contains_key(k) ==> al_map(s)[k] == al_map(s.take(j))[k],
    decreases s.len() - j,
{
    if j < s.len() {
        lemma_al_map_suffix_absent(s.drop_last(), j, k);
        assert(s.drop_last().take(j) =~= s.take(j));
    } else {
        assert(s.take(j) =~= s);
    }
}

impl VarMap {
    /// An empty context: no variable is bound.
    pub fn new() -> (r: VarMap)
        ensures
            r@ == Map::<Seq<char>, int>::empty(),
    {
        VarMap { entries: Vec::new() }
    }

    /// Binds `name` to `val`, shadowing any earlier binding.
    pub fn set(&mut self, name: &str, val: Scalar)
        ensures
            final(self)@ == old(self)@.insert(name@, val.milli as int),
    {
        self.entries.push((name.to_owned(), val));
        proof {
            assert(self.entries@.drop_last() =~= old(self).entries@);
        }
    }

    /// Looks up the current value of `name`.
    pub fn get(&self, name: &str) -> (r: Option<Scalar>)
        ensures
            match r {
                Some(v) => self@.contains_key(name@) && v.milli as int == self@[name@],
                None => !self@.contains_key(name@),
            },
    {
        let mut idx = self.entries.len();
        while idx > 0
            invariant
                idx <= self.entries.len(),
                forall|l: int| idx <= l < self.entries@.len() ==> self.entries@[l].0@ != name@,
            decreases idx,
        {
            idx = idx - 1;
            if str_eq(self.entries[idx].0.as_str(), name) {
                proof {
                    lemma_al_map_suffix_absent(self.entries@, idx + 1, name@);
                    assert(self.entries@.take(idx + 1).drop_last() =~= self.entries@.take(
                        idx as int,
                    ));
                    assert(self.entries@.take(idx + 1).last() == self.entries@[idx as int]);
                }
                return Some(self.entries[idx].1);
            }
        }
        proof {
            lemma_al_map_suffix_absent(self.entries@, 0, name@);
            assert(self.entries@.take(0) =~= Seq::<(String, Scalar)>::empty());
        }
        None
    }

    /// An independent copy describing the same mapping.
    pub fn duplicate(&self) -> (r: VarMap)
        ensures
            r@ == self@,
    {
        let mut entries: Vec<(String, Scalar)> = Vec::new();
        let mut i: usize = 0;
        while i < self.entries.len()
            invariant
                i <= self.entries@.len(),
                entries@.len() == i,
                forall|j: int|
                    0 <= j < i ==> entries@[j].0@ == self.entries@[j].0@ && entries@[j].1
                        == self.entries@[j].1,
            decreases self.entries@.len() - i,
        {
            let name = self.entries[i].0.clone();
            let val = self.entries[i].1;
            entries.push((name, val));
            i = i + 1;
        }
        proof {
            lemma_al_map_congruent(entries@, self.entries@);
        }
        VarMap { entries }
    }

    /// Looks up the current value of a name given as characters.
    pub fn get_chars(&self, name: &Vec<char>) -> (r: Option<Scalar>)
        ensures
            match r {
                Some(v) => self@.contains_key(name@) && v.milli as int == self@[name@],
                None => !self@.contains_key(name@),
            },
    {
        let mut idx = self.entries.len();
        while idx > 0
            invariant
                idx <= self.entries.len(),
                forall|l: int| idx <= l < self.entries@.len() ==> self.entries@[l].0@ != name@,
            decreases idx,
        {
            idx = idx - 1;
            if str_eq_chars(self.entries[idx].0.as_str(), name) {
                proof {
                    lemma_al_map_suffix_absent(self.entries@, idx + 1, name@);
                    assert(self.entries@.take(idx + 1).drop_last() =~= self.entries@.take(
                        idx as int,
                    ));
                    assert(self.entries@.take(idx + 1).last() == self.entries@[idx as int]);
                }
                return Some(self.entries[idx].1);
            }
        }
        proof {
            lemma_al_map_suffix_absent(self.entries@, 0, name@);
            assert(self.entries@.take(0) =~= Seq::<(String, Scalar)>::empty());
        }
        None
    }

    /// Looks up `name`, falling back to zero where it is unbound.
    pub fn get_or_zero(&self, name: &str) -> (r: Scalar)
        ensures
            r.milli as int == if self@.contains_key(name@) {
                self@[name@]
            } else {
                0
            },
    {
        match self.get(name) {
            Some(v) => v,
            None => Scalar { milli: 0 },
        }
    }
}

} // verus!
