//! Resolved or "known" computation values.
//!
//! A write-once table from variable names to variables, populated
//! left-to-right during one company's evaluation.  Its view is the
//! sequence of entries in insertion order; inserting a name twice is
//! refused, so the keys of a table built through `insert` are unique.

use crate::error::BenchmarkingError;
use crate::strutil::str_eq;
use crate::variable::{Variable, VariableID};
use vstd::prelude::*;

verus! {

/// Unique names: no two entries share a key.
pub open spec fn entry_keys_distinct(s: Seq<(Seq<char>, Seq<u64>)>) -> bool {
    forall|i: int, j: int| 0 <= i < j < s.len() ==> (#[trigger] s[i]).0 != (#[trigger] s[j]).0
}

/// Some entry carries the key.
pub open spec fn seq_contains_key(s: Seq<(Seq<char>, Seq<u64>)>, k: Seq<char>) -> bool {
    exists|i: int| 0 <= i < s.len() && (#[trigger] s[i]).0 == k
}

/// The value of the first entry carrying the key, if any.
pub open spec fn lookup(s: Seq<(Seq<char>, Seq<u64>)>, k: Seq<char>) -> Option<Seq<u64>>
    decreases s.len(),
{
    if s.len() == 0 {
        None
    } else if s[0].0 == k {
        Some(s[0].1)
    } else {
        lookup(s.drop_first(), k)
    }
}

/// The entries whose keys are not in the given list, in order.
pub open spec fn filtered_entries(
    s: Seq<(Seq<char>, Seq<u64>)>,
    names: Seq<Seq<char>>,
) -> Seq<(Seq<char>, Seq<u64>)>
    decreases s.len(),
{
    if s.len() == 0 {
        Seq::empty()
    } else {
        let r = filtered_entries(s.drop_last(), names);
        if names.contains(s.last().0) {
            r
        } else {
            r.push(s.last())
        }
    }
}

/// A key is in the table exactly when `lookup` finds it.
pub proof fn lemma_lookup_contains(s: Seq<(Seq<char>, Seq<u64>)>, k: Seq<char>)
    ensures
        seq_contains_key(s, k) <==> lookup(s, k) is Some,
    decreases s.len(),
{
    if s.len() > 0 {
        lemma_lookup_contains(s.drop_first(), k);
        if s[0].0 == k {
        } else {
            assert forall|i: int| 0 <= i < s.len() && (#[trigger] s[i]).0 == k implies
                seq_contains_key(s.drop_first(), k) by {
                assert(s.drop_first()[i - 1] == s[i]);
            }
            assert forall|i: int|
                0 <= i < s.drop_first().len() && (#[trigger] s.drop_first()[i]).0 == k implies
                seq_contains_key(s, k) by {
                assert(s[i + 1] == s.drop_first()[i]);
            }
        }
    }
}

/// `lookup` returns the value at the first index carrying the key.
pub proof fn lemma_lookup_at(s: Seq<(Seq<char>, Seq<u64>)>, k: Seq<char>, i: int)
    requires
        0 <= i < s.len(),
        s[i].0 == k,
        forall|j: int| 0 <= j < i ==> (#[trigger] s[j]).0 != k,
    ensures
        lookup(s, k) == Some(s[i].1),
    decreases i,
{
    if i == 0 {
    } else {
        assert forall|j: int| 0 <= j < i - 1 implies (#[trigger] s.drop_first()[j]).0 != k by {
            assert(s.drop_first()[j] == s[j + 1]);
        }
        assert(s.drop_first()[i - 1] == s[i]);
        lemma_lookup_at(s.drop_first(), k, i - 1);
    }
}

/// Every filtered entry is one of the original entries, and carries
/// none of the filtered names.
pub proof fn lemma_filtered_entries_sub(s: Seq<(Seq<char>, Seq<u64>)>, names: Seq<Seq<char>>)
    ensures
        forall|j: int|
            0 <= j < filtered_entries(s, names).len() ==> exists|i: int|
                0 <= i < s.len() && (#[trigger] filtered_entries(s, names)[j]) == s[i],
        forall|j: int|
            0 <= j < filtered_entries(s, names).len() ==> !names.contains(
                (#[trigger] filtered_entries(s, names)[j]).0,
            ),
    decreases s.len(),
{
    if s.len() > 0 {
        lemma_filtered_entries_sub(s.drop_last(), names);
        let r = filtered_entries(s.drop_last(), names);
        assert forall|j: int| 0 <= j < filtered_entries(s, names).len() implies exists|i: int|
            0 <= i < s.len() && (#[trigger] filtered_entries(s, names)[j]) == s[i] by {
            if j < r.len() {
                assert(filtered_entries(s, names)[j] == r[j]);
                let i = choose|i: int| 0 <= i < s.drop_last().len() && r[j] == s.drop_last()[i];
                assert(s.drop_last()[i] == s[i]);
                assert(0 <= i < s.len() && filtered_entries(s, names)[j] == s[i]);
            } else {
                assert(!names.contains(s.last().0));
                assert(filtered_entries(s, names)[j] == s.last());
                assert(s.last() == s[s.len() - 1]);
            }
        }
    }
}

/// Filtering a table with unique keys keeps them unique, and keeps
/// exactly the entries whose keys are not filtered.
pub proof fn lemma_filtered_entries_distinct(s: Seq<(Seq<char>, Seq<u64>)>, names: Seq<Seq<char>>)
    requires
        entry_keys_distinct(s),
    ensures
        entry_keys_distinct(filtered_entries(s, names)),
        forall|k: Seq<char>|
            #[trigger] seq_contains_key(filtered_entries(s, names), k) <==> (seq_contains_key(s, k)
                && !names.contains(k)),
    decreases s.len(),
{
    let fs = filtered_entries(s, names);
    if s.len() == 0 {
        assert forall|k: Seq<char>| #[trigger] seq_contains_key(fs, k) implies (seq_contains_key(
            s,
            k,
        ) && !names.contains(k)) by {}
    } else {
        assert(entry_keys_distinct(s.drop_last())) by {
            assert forall|a: int, b: int|
                0 <= a < b < s.drop_last().len() implies (#[trigger] s.drop_last()[a]).0 != (
            #[trigger] s.drop_last()[b]).0 by {
                assert(s.drop_last()[a] == s[a]);
                assert(s.drop_last()[b] == s[b]);
            }
        }
        lemma_filtered_entries_distinct(s.drop_last(), names);
        lemma_filtered_entries_sub(s.drop_last(), names);
        let r = filtered_entries(s.drop_last(), names);
        let x = s.last();
        if names.contains(x.0) {
            assert(fs == r);
            assert forall|k: Seq<char>| #[trigger] seq_contains_key(fs, k) implies (
            seq_contains_key(s, k) && !names.contains(k)) by {
                assert(seq_contains_key(s.drop_last(), k));
                let i = choose|i: int| 0 <= i < s.drop_last().len() && (s.drop_last()[i]).0 == k;
                assert(s[i] == s.drop_last()[i]);
            }
            assert forall|k: Seq<char>| (seq_contains_key(s, k) && !names.contains(k)) implies
                #[trigger] seq_contains_key(fs, k) by {
                let i = choose|i: int| 0 <= i < s.len() && (s[i]).0 == k;
                assert(i < s.len() - 1 || s[i] == x);
                if i < s.len() - 1 {
                    assert(s.drop_last()[i] == s[i]);
                    assert(seq_contains_key(s.drop_last(), k));
                }
            }
        } else {
            assert(fs == r.push(x));
            assert(entry_keys_distinct(fs)) by {
                assert forall|a: int, b: int|
                    0 <= a < b < fs.len() implies (#[trigger] fs[a]).0 != (#[trigger] fs[b]).0 by {
                    if b < fs.len() - 1 {
                        assert(fs[a] == r[a] && fs[b] == r[b]);
                    } else {
                        assert(fs[b] == x);
                        assert(fs[a] == r[a]);
                        let i = choose|i: int|
                            0 <= i < s.drop_last().len() && r[a] == s.drop_last()[i];
                        assert(s.drop_last()[i] == s[i]);
                        assert(s[i].0 != s[s.len() - 1].0);
                    }
                }
            }
            assert forall|k: Seq<char>| #[trigger] seq_contains_key(fs, k) implies (
            seq_contains_key(s, k) && !names.contains(k)) by {
                let j = choose|j: int| 0 <= j < fs.len() && (fs[j]).0 == k;
                if j < fs.len() - 1 {
                    assert(fs[j] == r[j]);
                    assert(seq_contains_key(r, k));
                    assert(seq_contains_key(s.drop_last(), k));
                    let i = choose|i: int|
                        0 <= i < s.drop_last().len() && (s.drop_last()[i]).0 == k;
                    assert(s[i] == s.drop_last()[i]);
                } else {
                    assert(fs[j] == x);
                    assert(s[s.len() - 1] == x);
                }
            }
            assert forall|k: Seq<char>| (seq_contains_key(s, k) && !names.contains(k)) implies
                #[trigger] seq_contains_key(fs, k) by {
                let i = choose|i: int| 0 <= i < s.len() && (s[i]).0 == k;
                if i < s.len() - 1 {
                    assert(s.drop_last()[i] == s[i]);
                    assert(seq_contains_key(s.drop_last(), k));
                    assert(seq_contains_key(r, k));
                    let j = choose|j: int| 0 <= j < r.len() && (r[j]).0 == k;
                    assert(fs[j] == r[j]);
                } else {
                    assert(fs[fs.len() - 1] == x);
                }
            }
        }
    }
}

/// The write-once table of names to variables populated during one
/// company evaluation.
#[derive(Debug)]
pub struct ResolvedValues {
    resolved: Vec<(VariableID, Variable)>,
}

impl View for ResolvedValues {
    type V = Seq<(Seq<char>, Seq<u64>)>;

    closed spec fn view(&self) -> Seq<(Seq<char>, Seq<u64>)> {
        self.resolved@.map_values(|p: (VariableID, Variable)| (p.0@, p.1@))
    }
}

impl ResolvedValues {
    /// An empty table.
    pub fn new() -> (r: Self)
        ensures
            r@ == Seq::<(Seq<char>, Seq<u64>)>::empty(),
    {
        let r = ResolvedValues { resolved: Vec::new() };
        proof {
            assert(r@ =~= Seq::<(Seq<char>, Seq<u64>)>::empty());
        }
        r
    }

    /// Whether a value of this name has been resolved.
    pub fn has(&self, name: &String) -> (r: bool)
        ensures
            r == seq_contains_key(self@, name@),
    {
        let mut i: usize = 0;
        while i < self.resolved.len()
            invariant
                i <= self@.len(),
                self@.len() == self.resolved@.len(),
                forall|j: int| 0 <= j < i ==> (#[trigger] self@[j]).0 != name@,
                forall|j: int|
                    0 <= j < self@.len() ==> (#[trigger] self@[j]).0 == self.resolved@[j].0@,
            decreases self@.len() - i,
        {
            if str_eq(self.resolved[i].0.as_str(), name.as_str()) {
                proof {
                    assert((self@[i as int]).0 == name@);
                }
                return true;
            }
            i += 1;
        }
        false
    }

    /// Records a freshly computed value; re-inserting a name is an
    /// error and leaves the table unchanged.
    pub fn insert(&mut self, name: VariableID, var: Variable) -> (r: Result<
        (),
        BenchmarkingError,
    >)
        ensures
            match r {
                Ok(()) => !seq_contains_key(old(self)@, name@) && final(self)@ == old(self)@.push(
                    (name@, var@),
                ) && (entry_keys_distinct(old(self)@) ==> entry_keys_distinct(final(self)@)),
                Err(e) => seq_contains_key(old(self)@, name@) && final(self)@ == old(self)@ && (
                e matches BenchmarkingError::DuplicateResolved(n) && n@ == name@),
            },
    {
        if self.has(&name) {
            return Err(BenchmarkingError::DuplicateResolved(name));
        }
        let ghost before = self@;
        self.resolved.push((name, var));
        proof {
            assert(self@ =~= before.push((name@, var@)));
            if entry_keys_distinct(before) {
                assert forall|i: int, j: int| 0 <= i < j < self@.len() implies (
                #[trigger] self@[i]).0 != (#[trigger] self@[j]).0 by {
                    if j == self@.len() - 1 {
                        assert(self@[i] == before[i]);
                        assert(!seq_contains_key(before, name@));
                    } else {
                        assert(self@[i] == before[i]);
                        assert(self@[j] == before[j]);
                    }
                }
            }
        }
        Ok(())
    }

    /// Reads a resolved value; reading an unresolved name is an error.
    pub fn get(&self, name: &VariableID) -> (r: Result<&Variable, BenchmarkingError>)
        ensures
            match r {
                Ok(v) => lookup(self@, name@) == Some(v@),
                Err(e) => !seq_contains_key(self@, name@) && (
                e matches BenchmarkingError::UnresolvedValue(n) && n@ == name@),
            },
    {
        let mut i: usize = 0;
        while i < self.resolved.len()
            invariant
                i <= self@.len(),
                self@.len() == self.resolved@.len(),
                forall|j: int| 0 <= j < i ==> (#[trigger] self@[j]).0 != name@,
                forall|j: int|
                    0 <= j < self@.len() ==> (#[trigger] self@[j]).0 == self.resolved@[j].0@,
                forall|j: int|
                    0 <= j < self@.len() ==> (#[trigger] self@[j]).1 == self.resolved@[j].1@,
            decreases self@.len() - i,
        {
            if str_eq(self.resolved[i].0.as_str(), name.as_str()) {
                proof {
                    lemma_lookup_at(self@, name@, i as int);
                }
                return Ok(&self.resolved[i].1);
            }
            i += 1;
        }
        proof {
            lemma_lookup_contains(self@, name@);
        }
        Err(BenchmarkingError::UnresolvedValue(name.clone()))
    }

    /// Read access to the entries in insertion order.
    pub fn resolved(&self) -> (r: &Vec<(VariableID, Variable)>)
        ensures
            r@.len() == self@.len(),
            forall|i: int|
                0 <= i < self@.len() ==> (#[trigger] r@[i]).0@ == self@[i].0 && r@[i].1@
                    == self@[i].1,
    {
        &self.resolved
    }

    /// Removes every entry whose name is in the given list.
    pub fn filter_atomics_by_name(&mut self, atomics: &Vec<String>)
        ensures
            final(self)@ == filtered_entries(old(self)@, atomics@.map_values(|s: String| s@)),
    {
        let ghost names = atomics@.map_values(|s: String| s@);
        let ghost before = self@;
        let mut out: Vec<(VariableID, Variable)> = Vec::new();
        let mut i: usize = 0;
        proof {
            assert(names.len() == atomics@.len());
            assert(forall|jj: int|
                0 <= jj < names.len() ==> (#[trigger] names[jj]) == atomics@[jj]@);
            assert(out@.map_values(|p: (VariableID, Variable)| (p.0@, p.1@)) =~= filtered_entries(
                before.take(0),
                names,
            ));
        }
        while i < self.resolved.len()
            invariant
                i <= self.resolved@.len(),
                before == self@,
                before.len() == self.resolved@.len(),
                names.len() == atomics@.len(),
                forall|jj: int| 0 <= jj < names.len() ==> (#[trigger] names[jj]) == atomics@[jj]@,
                forall|j: int|
                    0 <= j < before.len() ==> (#[trigger] before[j]) == (
                    self.resolved@[j].0@,
                    self.resolved@[j].1@,
                ),
                out@.map_values(|p: (VariableID, Variable)| (p.0@, p.1@)) == filtered_entries(
                    before.take(i as int),
                    names,
                ),
            decreases self.resolved@.len() - i,
        {
            let mut in_names = false;
            let mut j: usize = 0;
            while j < atomics.len()
                invariant
                    j <= atomics@.len(),
                    names.len() == atomics@.len(),
                    forall|jj: int| 0 <= jj < names.len() ==> (#[trigger] names[jj]) == atomics@[jj]@,
                    in_names == exists|jj: int|
                        0 <= jj < j && (#[trigger] names[jj]) == self.resolved@[i as int].0@,
                    i < self.resolved@.len(),
                decreases atomics@.len() - j,
            {
                let eq_here = str_eq(atomics[j].as_str(), self.resolved[i].0.as_str());
                proof {
                    assert(names[j as int] == atomics@[j as int]@);
                    if eq_here {
                        assert(names[j as int] == self.resolved@[i as int].0@);
                    }
                }
                if eq_here {
                    in_names = true;
                }
                proof {
                    if !in_names {
                        assert forall|jj: int|
                            0 <= jj < j + 1 implies (#[trigger] names[jj])
                            != self.resolved@[i as int].0@ by {}
                    }
                }
                j += 1;
            }
            proof {
                assert(in_names == names.contains(before[i as int].0));
                assert(before.take(i + 1).drop_last() =~= before.take(i as int));
                assert(before.take(i + 1).last() == before[i as int]);
            }
            if !in_names {
                let entry = (self.resolved[i].0.clone(), self.resolved[i].1.clone());
                out.push(entry);
                proof {
                    assert(out@.map_values(|p: (VariableID, Variable)| (p.0@, p.1@))
                        =~= filtered_entries(before.take(i + 1), names));
                }
            }
            i += 1;
        }
        proof {
            assert(before.take(before.len() as int) =~= before);
        }
        self.resolved = out;
    }
}

} // verus!
