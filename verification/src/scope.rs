use vstd::prelude::*;
use crate::value::Type;
use crate::value::Val;

verus! {

/// A flat mapping from names to values, passed explicitly through
/// evaluation and copied — never chained — at call boundaries.
pub struct Scope {
    entries: Vec<(String, Type)>,
}

/// The map denoted by a run of entries, later entries winning.
pub open spec fn map_of(entries: Seq<(String, Type)>) -> Map<Seq<char>, Val>
    decreases entries.len(),
{
    if entries.len() == 0 {
        Map::empty()
    } else {
        map_of(entries.drop_last()).insert(entries.last().0@, entries.last().1@)
    }
}

impl View for Scope {
    type V = Map<Seq<char>, Val>;

    closed spec fn view(&self) -> Map<Seq<char>, Val> {
        map_of(self.entries@)
    }
}

proof fn lemma_map_of_no_key(entries: Seq<(String, Type)>, k: Seq<char>)
    requires
        forall|j: int| 0 <= j < entries.len() ==> (#[trigger] entries[j]).0@ != k,
    ensures
        !map_of(entries).contains_key(k),
    decreases entries.len(),
{
    if entries.len() > 0 {
        lemma_map_of_no_key(entries.drop_last(), k);
    }
}

proof fn lemma_map_of_get(entries: Seq<(String, Type)>, k: Seq<char>, i: int)
    requires
        0 <= i < entries.len(),
        entries[i].0@ == k,
        forall|j: int| i < j < entries.len() ==> (#[trigger] entries[j]).0@ != k,
    ensures
        map_of(entries).contains_key(k),
        map_of(entries)[k] == entries[i].1@,
    decreases entries.len(),
{
    if i == entries.len() - 1 {
    } else {
        lemma_map_of_get(entries.drop_last(), k, i);
    }
}

proof fn lemma_map_of_update(entries: Seq<(String, Type)>, j: int, name: String, value: Type)
    requires
        0 <= j < entries.len(),
        entries[j].0@ == name@,
        forall|a: int, b: int|
            0 <= a < b < entries.len() ==> (#[trigger] entries[a]).0@ != (#[trigger] entries[b]).0@,
    ensures
        map_of(entries.update(j, (name, value))) == map_of(entries).insert(name@, value@),
    decreases entries.len(),
{
    let upd = entries.update(j, (name, value));
    if j == entries.len() - 1 {
        assert(upd.drop_last() =~= entries.drop_last());
        assert(map_of(upd) =~= map_of(entries).insert(name@, value@));
    } else {
        assert(upd.drop_last() =~= entries.drop_last().update(j, (name, value)));
        lemma_map_of_update(entries.drop_last(), j, name, value);
        assert(entries.last().0@ != name@);
        assert(upd.last() == entries.last());
        assert(map_of(upd) =~= map_of(entries).insert(name@, value@));
    }
}

proof fn lemma_map_of_congruent(a: Seq<(String, Type)>, b: Seq<(String, Type)>)
    requires
        a.len() == b.len(),
        forall|i: int|
            0 <= i < a.len() ==> (#[trigger] a[i]).0@ == (#[trigger] b[i]).0@ && a[i].1@ == b[i].1@,
    ensures
        map_of(a) == map_of(b),
    decreases a.len(),
{
    if a.len() > 0 {
        lemma_map_of_congruent(a.drop_last(), b.drop_last());
        assert(map_of(a) =~= map_of(b));
    } else {
        assert(map_of(a) =~= map_of(b));
    }
}

impl Scope {
    /// Names are pairwise distinct: constructors establish this and every
    /// method preserves it.
    pub closed spec fn wf(&self) -> bool {
        forall|i: int, j: int|
            0 <= i < j < self.entries@.len() ==> (#[trigger] self.entries@[i]).0@ != (
            #[trigger] self.entries@[j]).0@
    }

    /// An empty scope.
    pub fn new() -> (r: Scope)
        ensures
            r.wf(),
            r@ == Map::<Seq<char>, Val>::empty(),
    {
        Scope { entries: Vec::new() }
    }

    /// Looks a name up; yields the bound value exactly when the name is
    /// bound.
    pub fn get(&self, name: &String) -> (r: Option<&Type>)
        requires
            self.wf(),
        ensures
            match r {
                Some(t) => self@.contains_key(name@) && t@ == self@[name@],
                None => !self@.contains_key(name@),
            },
    {
        let n = self.entries.len();
        let mut i: usize = 0;
        while i < n
            invariant
                0 <= i <= n,
                n == self.entries@.len(),
                self.wf(),
                forall|j: int| 0 <= j < i ==> (#[trigger] self.entries@[j]).0@ != name@,
            decreases n - i,
        {
            if self.entries[i].0.eq(name) {
                proof {
                    lemma_map_of_get(self.entries@, name@, i as int);
                }
                return Some(&self.entries[i].1);
            }
            i += 1;
        }
        proof {
            lemma_map_of_no_key(self.entries@, name@);
        }
        None
    }

    /// Binds a name, replacing any previous binding; last insert wins.
    pub fn insert(&mut self, name: String, value: Type)
        requires
            old(self).wf(),
        ensures
            final(self).wf(),
            final(self)@ == old(self)@.insert(name@, value@),
    {
        let n = self.entries.len();
        let mut i: usize = 0;
        while i < n
            invariant
                0 <= i <= n,
                n == self.entries@.len(),
                self.wf(),
                self == old(self),
                forall|j: int| 0 <= j < i ==> (#[trigger] self.entries@[j]).0@ != name@,
            decreases n - i,
        {
            if self.entries[i].0.eq(&name) {
                proof {
                    lemma_map_of_update(self.entries@, i as int, name, value);
                }
                self.entries[i] = (name, value);
                return;
            }
            i += 1;
        }
        let ghost prev = self.entries@;
        self.entries.push((name, value));
        proof {
            assert(self.entries@.drop_last() =~= prev);
        }
    }

    /// A full copy: the copy models the same map and is well formed.
    pub fn duplicate(&self) -> (r: Scope)
        requires
            self.wf(),
        ensures
            r.wf(),
            r@ == self@,
    {
        let n = self.entries.len();
        let mut out: Vec<(String, Type)> = Vec::new();
        let mut i: usize = 0;
        while i < n
            invariant
                0 <= i <= n,
                n == self.entries@.len(),
                out@.len() == i,
                forall|j: int|
                    0 <= j < i ==> (#[trigger] out@[j]).0@ == self.entries@[j].0@ && out@[j].1@
                        == self.entries@[j].1@,
            decreases n - i,
        {
            let name = self.entries[i].0.clone();
            let value = self.entries[i].1.duplicate();
            out.push((name, value));
            i += 1;
        }
        let r = Scope { entries: out };
        proof {
            lemma_map_of_congruent(r.entries@, self.entries@);
        }
        r
    }
}

} // verus!
