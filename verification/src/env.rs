use crate::value::{Value, ValueView};
use vstd::prelude::*;

verus! {

/// The variables of one scope: each name bound to one value, the last value
/// stored under it.
#[derive(Debug)]
pub struct Env {
    /// Names with their values. Only the first entry of a name counts, and
    /// `insert` never adds a second one.
    entries: Vec<(String, Value)>,
}

impl View for Env {
    type V = Map<Seq<char>, ValueView>;

    closed spec fn view(&self) -> Map<Seq<char>, ValueView> {
        Map::new(
            |k: Seq<char>| self.slot(k) < self.entries.len(),
            |k: Seq<char>| self.entries[self.slot(k)].1@,
        )
    }
}

impl Env {
    /// The first place at which `k` is bound, or the number of places if it
    /// is bound nowhere.
    spec fn slot(&self, k: Seq<char>) -> int {
        first_at(self.entries@, k, 0)
    }

    /// An environment that binds nothing.
    pub fn new() -> (e: Env)
        ensures
            e@ == Map::<Seq<char>, ValueView>::empty(),
    {
        let e = Env { entries: Vec::new() };
        assert(e@ =~= Map::<Seq<char>, ValueView>::empty());
        e
    }

    fn find(&self, name: &String) -> (i: usize)
        ensures
            i == self.slot(name@),
            i <= self.entries.len(),
    {
        let mut i: usize = 0;
        while i < self.entries.len()
            invariant
                i <= self.entries.len(),
                first_at(self.entries@, name@, 0) == first_at(self.entries@, name@, i as int),
            decreases self.entries.len() - i,
        {
            if self.entries[i].0 == *name {
                return i;
            }
            i += 1;
        }
        i
    }

    /// The value bound to `name`, if there is one.
    pub fn get(&self, name: &String) -> (r: Option<&Value>)
        ensures
            match r {
                Some(v) => self@.contains_key(name@) && self@[name@] == v@,
                None => !self@.contains_key(name@),
            },
    {
        let i = self.find(name);
        if i < self.entries.len() {
            proof {
                lemma_first_at(self.entries@, name@, 0);
            }
            Some(&self.entries[i].1)
        } else {
            None
        }
    }

    /// Binds `name` to `value`, in place of whatever it was bound to.
    pub fn insert(&mut self, name: String, value: Value)
        ensures
            final(self)@ == old(self)@.insert(name@, value@),
    {
        let i = self.find(&name);
        let ghost before = self.entries@;
        let ghost bound = (name, value);
        if i < self.entries.len() {
            self.entries.set(i, (name, value));
            proof {
                lemma_first_at(before, bound.0@, 0);
                assert forall|k: Seq<char>|
                    self.slot(k) == old(self).slot(k) && 0 <= self.slot(k) && (self.slot(k) == i
                        ==> k == bound.0@) by {
                    lemma_first_at_same(self.entries@, before, k, 0);
                    lemma_first_at(before, k, 0);
                }
                assert(self@ =~= old(self)@.insert(bound.0@, bound.1@));
            }
        } else {
            self.entries.push((name, value));
            proof {
                let n = before.len() as int;
                assert forall|k: Seq<char>|
                    self.slot(k) == (if old(self).slot(k) < n {
                        old(self).slot(k)
                    } else if k == bound.0@ {
                        n
                    } else {
                        n + 1
                    }) && 0 <= old(self).slot(k) by {
                    lemma_first_at_push(before, bound, k, 0);
                    lemma_first_at(before, k, 0);
                }
                assert(self@ =~= old(self)@.insert(bound.0@, bound.1@));
            }
        }
    }

    /// A copy of this environment that shares nothing with it.
    pub fn copy(&self) -> (r: Env)
        ensures
            r@ == self@,
    {
        let mut entries: Vec<(String, Value)> = Vec::new();
        let mut i: usize = 0;
        while i < self.entries.len()
            invariant
                i <= self.entries.len(),
                entries.len() == i,
                forall|j: int| 0 <= j < i ==> (#[trigger] entries[j]).0@ == self.entries[j].0@,
                forall|j: int| 0 <= j < i ==> (#[trigger] entries[j]).1@ == self.entries[j].1@,
            decreases self.entries.len() - i,
        {
            entries.push((self.entries[i].0.clone(), self.entries[i].1.copy()));
            i += 1;
        }
        let r = Env { entries };
        proof {
            assert forall|k: Seq<char>| r.slot(k) == self.slot(k) && 0 <= r.slot(k) by {
                lemma_first_at_same(r.entries@, self.entries@, k, 0);
                lemma_first_at(r.entries@, k, 0);
            }
            assert(r@ =~= self@);
        }
        r
    }
}

/// The first place from `from` on at which `entries` binds `k`, or the
/// length of `entries` if there is none.
spec fn first_at(entries: Seq<(String, Value)>, k: Seq<char>, from: int) -> int
    decreases entries.len() - from,
{
    if from < 0 || from >= entries.len() {
        entries.len() as int
    } else if entries[from].0@ == k {
        from
    } else {
        first_at(entries, k, from + 1)
    }
}

proof fn lemma_first_at(entries: Seq<(String, Value)>, k: Seq<char>, from: int)
    requires
        0 <= from,
    ensures
        from <= first_at(entries, k, from) || entries.len() < from,
        0 <= first_at(entries, k, from) <= entries.len(),
        first_at(entries, k, from) < entries.len() ==> entries[first_at(entries, k, from)].0@ == k,
    decreases entries.len() - from,
{
    if from < entries.len() && entries[from].0@ != k {
        lemma_first_at(entries, k, from + 1);
    }
}

proof fn lemma_first_at_push(
    entries: Seq<(String, Value)>,
    bound: (String, Value),
    k: Seq<char>,
    from: int,
)
    requires
        0 <= from <= entries.len(),
    ensures
        first_at(entries.push(bound), k, from) == (if first_at(entries, k, from) < entries.len() {
            first_at(entries, k, from)
        } else if k == bound.0@ {
            entries.len() as int
        } else {
            entries.len() as int + 1
        }),
    decreases entries.len() - from,
{
    let more = entries.push(bound);
    if from < entries.len() {
        assert(more[from] == entries[from]);
        if entries[from].0@ != k {
            lemma_first_at_push(entries, bound, k, from + 1);
        }
    } else {
        assert(more[from] == bound);
        assert(first_at(more, k, from + 1) == more.len());
    }
}

proof fn lemma_first_at_same(
    a: Seq<(String, Value)>,
    b: Seq<(String, Value)>,
    k: Seq<char>,
    from: int,
)
    requires
        0 <= from,
        a.len() == b.len(),
        forall|j: int| 0 <= j < a.len() ==> (#[trigger] a[j]).0@ == b[j].0@,
    ensures
        first_at(a, k, from) == first_at(b, k, from),
    decreases a.len() - from,
{
    if from < a.len() && a[from].0@ != k {
        lemma_first_at_same(a, b, k, from + 1);
    }
}

} // verus!
