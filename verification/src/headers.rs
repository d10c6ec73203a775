//! Default request headers: a name-to-value table with case preserved,
//! last write winning on duplicate names, and no empty names.

use vstd::prelude::*;
use crate::text::compare_str;

verus! {

/// Value bound to `name` in the entry list, latest entry winning.
pub open spec fn lookup(es: Seq<(String, String)>, name: Seq<char>) -> Option<Seq<char>>
    decreases es.len(),
{
    if es.len() == 0 {
        None
    } else if es.last().0@ == name {
        Some(es.last().1@)
    } else {
        lookup(es.drop_last(), name)
    }
}

proof fn lemma_lookup_remove(es: Seq<(String, String)>, i: int, n: Seq<char>)
    requires
        0 <= i < es.len(),
        es[i].0@ != n,
    ensures
        lookup(es.remove(i), n) == lookup(es, n),
    decreases es.len(),
{
    if i == es.len() - 1 {
        assert(es.remove(i) =~= es.drop_last());
    } else {
        let r = es.remove(i);
        assert(r.last() == es.last());
        if es.last().0@ != n {
            assert(r.drop_last() =~= es.drop_last().remove(i));
            lemma_lookup_remove(es.drop_last(), i, n);
        }
    }
}

proof fn lemma_lookup_found(es: Seq<(String, String)>, i: int, n: Seq<char>)
    requires
        0 <= i < es.len(),
        es[i].0@ == n,
        forall|a: int, b: int|
            0 <= a < b < es.len() ==> (#[trigger] es[a]).0@ != (#[trigger] es[b]).0@,
    ensures
        lookup(es, n) == Some(es[i].1@),
    decreases es.len(),
{
    if i == es.len() - 1 {
    } else {
        assert(es.last().0@ != n);
        let d = es.drop_last();
        assert(d[i] == es[i]);
        assert forall|a: int, b: int| 0 <= a < b < d.len() implies (#[trigger] d[a]).0@
            != (#[trigger] d[b]).0@ by {
            assert(d[a] == es[a] && d[b] == es[b]);
        }
        lemma_lookup_found(d, i, n);
    }
}

proof fn lemma_lookup_absent(es: Seq<(String, String)>, n: Seq<char>)
    requires
        forall|i: int| 0 <= i < es.len() ==> (#[trigger] es[i]).0@ != n,
    ensures
        lookup(es, n) is None,
    decreases es.len(),
{
    if es.len() > 0 {
        let d = es.drop_last();
        assert forall|i: int| 0 <= i < d.len() implies (#[trigger] d[i]).0@ != n by {
            assert(d[i] == es[i]);
        }
        lemma_lookup_absent(d, n);
    }
}

/// The default-header table of a job: name/value pairs, names unique and
/// never empty, case preserved.
pub struct HeaderTable {
    entries: Vec<(String, String)>,
}

impl HeaderTable {
    /// Names are pairwise distinct and never empty.
    pub closed spec fn wf(self) -> bool {
        &&& forall|a: int, b: int|
            0 <= a < b < self.entries@.len() ==> (#[trigger] self.entries@[a]).0@
                != (#[trigger] self.entries@[b]).0@
        &&& forall|i: int| 0 <= i < self.entries@.len() ==> (#[trigger] self.entries@[i]).0@.len() > 0
    }

    /// The entries, in insertion order of their names.
    pub closed spec fn view_entries(self) -> Seq<(String, String)> {
        self.entries@
    }

    /// Value bound to `name`, if any.
    pub closed spec fn spec_get(self, name: Seq<char>) -> Option<Seq<char>> {
        lookup(self.entries@, name)
    }

    /// An empty table.
    pub fn new() -> (r: HeaderTable)
        ensures
            r.wf(),
            r.view_entries().len() == 0,
            forall|n: Seq<char>| r.spec_get(n) is None,
    {
        HeaderTable { entries: Vec::new() }
    }

    /// How many headers are set.
    pub fn len(&self) -> (r: usize)
        ensures
            r == self.view_entries().len(),
    {
        self.entries.len()
    }

    /// Binds `name` to `value`, replacing any earlier binding of the same
    /// name: the last write wins.
    pub fn insert(&mut self, name: String, value: String)
        requires
            old(self).wf(),
            name@.len() > 0,
        ensures
            final(self).wf(),
            final(self).spec_get(name@) == Some(value@),
            forall|n: Seq<char>|
                n != name@ ==> final(self).spec_get(n) == old(self).spec_get(n),
            final(self).view_entries().len() <= old(self).view_entries().len() + 1,
    {
        let ghost es0 = self.entries@;
        let n = self.entries.len();
        let mut i: usize = 0;
        while i < n
            invariant
                i <= n,
                n == self.entries@.len(),
                self.entries@ == es0,
                es0 == old(self).entries@,
                name@.len() > 0,
                forall|a: int, b: int|
                    0 <= a < b < es0.len() ==> (#[trigger] es0[a]).0@ != (#[trigger] es0[b]).0@,
                forall|j: int| 0 <= j < es0.len() ==> (#[trigger] es0[j]).0@.len() > 0,
                forall|j: int| 0 <= j < i ==> (#[trigger] es0[j]).0@ != name@,
            decreases n - i,
        {
            if compare_strings(&self.entries[i].0, &name) {
                let ghost iv = i as int;
                self.entries.remove(i);
                self.entries.push((name, value));
                proof {
                    let es1 = es0.remove(iv);
                    let es2 = self.entries@;
                    es0.remove_ensures(iv);
                    assert(es2 == es1.push((name, value)));
                    assert(es2.drop_last() =~= es1);
                    assert(es2.last().0@ == name@);
                    // Every entry but the new last one comes from the old
                    // table, shifted past the removed position.
                    assert forall|a: int| 0 <= a < es2.len() - 1 implies #[trigger] es2[a] == (
                    if a < iv {
                        es0[a]
                    } else {
                        es0[a + 1]
                    }) by {
                        assert(es2[a] == es1[a]);
                    }
                    // Other names keep their old binding.
                    assert forall|m: Seq<char>| m != name@ implies lookup(es2, m) == lookup(
                        es0,
                        m,
                    ) by {
                        lemma_lookup_remove(es0, iv, m);
                        assert(lookup(es2, m) == lookup(es1, m));
                    }
                    // Distinctness: position iv held the only old binding of
                    // this name, and it was removed.
                    assert forall|a: int, b: int|
                        0 <= a < b < es2.len() implies (#[trigger] es2[a]).0@ != (
                    #[trigger] es2[b]).0@ by {
                        if b == es2.len() - 1 {
                            if a < iv {
                                assert(es0[a].0@ != es0[iv].0@);
                            } else {
                                assert(es0[iv].0@ != es0[a + 1].0@);
                            }
                        }
                    }
                    assert forall|j: int| 0 <= j < es2.len() implies (#[trigger] es2[j]).0@.len()
                        > 0 by {}
                }
                return;
            }
            i += 1;
        }
        self.entries.push((name, value));
        proof {
            assert(self.entries@.drop_last() =~= es0);
            assert forall|m: Seq<char>| m != name@ implies lookup(self.entries@, m) == lookup(
                es0,
                m,
            ) by {}
            assert forall|a: int, b: int|
                0 <= a < b < self.entries@.len() implies (#[trigger] self.entries@[a]).0@
                != (#[trigger] self.entries@[b]).0@ by {
                if b < self.entries@.len() - 1 {
                    assert(self.entries@[a] == es0[a] && self.entries@[b] == es0[b]);
                } else {
                    assert(self.entries@[a] == es0[a]);
                }
            }
            assert forall|j: int| 0 <= j < self.entries@.len() implies (#[trigger] self
                .entries@[j]).0@.len() > 0 by {
                if j < self.entries@.len() - 1 {
                    assert(self.entries@[j] == es0[j]);
                }
            }
        }
    }

    /// Value bound to `name`, if any.
    pub fn get(&self, name: &str) -> (r: Option<&String>)
        requires
            self.wf(),
        ensures
            match r {
                Some(v) => self.spec_get(name@) == Some(v@),
                None => self.spec_get(name@) is None,
            },
    {
        let n = self.entries.len();
        let mut i: usize = 0;
        while i < n
            invariant
                self.wf(),
                i <= n,
                n == self.entries@.len(),
                forall|j: int| 0 <= j < i ==> (#[trigger] self.entries@[j]).0@ != name@,
            decreases n - i,
        {
            if compare_str(self.entries[i].0.as_str(), name) {
                proof {
                    lemma_lookup_found(self.entries@, i as int, name@);
                }
                return Some(&self.entries[i].1);
            }
            i += 1;
        }
        proof {
            lemma_lookup_absent(self.entries@, name@);
        }
        None
    }

    /// The name/value pairs, for handing to the network layer.
    pub fn entries(&self) -> (r: &Vec<(String, String)>)
        ensures
            r@ == self.view_entries(),
    {
        &self.entries
    }
}

/// String equality by view.
fn compare_strings(a: &String, b: &String) -> (r: bool)
    ensures
        r == (a@ == b@),
{
    a.eq(b)
}

} // verus!
