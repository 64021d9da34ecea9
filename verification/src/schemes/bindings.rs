//! Bindings: a finite map from slot names to the values bound to them,
//! remembering the order in which names were first bound.

use vstd::prelude::*;
use crate::strings::owned;

verus! {

/// A map from slot names to values. Each name is bound at most once;
/// binding it again replaces its value in place.
#[derive(Debug, Clone)]
pub struct Bindings {
    entries: Vec<(String, String)>,
}

impl Bindings {
    /// The `(name, value)` pairs in the order the names were first bound.
    pub closed spec fn pairs(&self) -> Seq<(Seq<char>, Seq<char>)> {
        self.entries@.map_values(|e: (String, String)| (e.0@, e.1@))
    }

    /// No name is bound twice.
    pub closed spec fn wf(&self) -> bool {
        forall|i: int, j: int| 0 <= i < j < self.entries@.len() ==> #[trigger] self.entries@[i].0@ != #[trigger] self.entries@[j].0@
    }

    /// The position of `k` among the pairs, if it is bound.
    pub open spec fn position_of(&self, k: Seq<char>) -> int {
        choose|i: int| 0 <= i < self.pairs().len() && #[trigger] self.pairs()[i].0 == k
    }

    /// `k` is bound.
    pub open spec fn has(&self, k: Seq<char>) -> bool {
        exists|i: int| 0 <= i < self.pairs().len() && #[trigger] self.pairs()[i].0 == k
    }

    /// The value bound to `k`.
    pub open spec fn value_of(&self, k: Seq<char>) -> Option<Seq<char>> {
        if self.has(k) {
            Some(self.pairs()[self.position_of(k)].1)
        } else {
            None
        }
    }

    /// Facts every well-formed binding map satisfies.
    pub proof fn lemma_wf(&self)
        requires
            self.wf(),
        ensures
            forall|i: int, j: int| 0 <= i < self.pairs().len() && 0 <= j < self.pairs().len()
                && #[trigger] self.pairs()[i].0 == #[trigger] self.pairs()[j].0 ==> i == j,
    {
        assert forall|i: int, j: int| 0 <= i < self.pairs().len() && 0 <= j < self.pairs().len()
            && #[trigger] self.pairs()[i].0 == #[trigger] self.pairs()[j].0 implies i == j by {
            if i < j {
                assert(self.entries@[i].0@ != self.entries@[j].0@);
            } else if j < i {
                assert(self.entries@[j].0@ != self.entries@[i].0@);
            }
        }
    }

    /// No bindings.
    pub fn new() -> (r: Self)
        ensures
            r.wf(),
            r.pairs() == Seq::<(Seq<char>, Seq<char>)>::empty(),
    {
        let r = Bindings { entries: Vec::new() };
        assert(r.pairs() =~= Seq::<(Seq<char>, Seq<char>)>::empty());
        r
    }

    /// Position of the pair binding `k`, if any.
    fn find(&self, k: &str) -> (r: Option<usize>)
        requires
            self.wf(),
        ensures
            match r {
                Some(i) => i < self.pairs().len() && self.pairs()[i as int].0 == k@ && self.position_of(k@) == i,
                None => !self.has(k@),
            },
    {
        let key = owned(k);
        let mut i: usize = 0;
        while i < self.entries.len()
            invariant
                self.wf(),
                key@ == k@,
                i <= self.entries@.len(),
                forall|q: int| 0 <= q < i ==> #[trigger] self.entries@[q].0@ != k@,
            decreases self.entries@.len() - i,
        {
            if self.entries[i].0 == key {
                proof {
                    self.lemma_wf();
                    assert(self.pairs()[i as int].0 == k@);
                    let p = self.position_of(k@);
                    assert(self.pairs()[p].0 == k@);
                }
                return Some(i);
            }
            i = i + 1;
        }
        proof {
            if self.has(k@) {
                let q = choose|q: int| 0 <= q < self.pairs().len() && #[trigger] self.pairs()[q].0 == k@;
                assert(self.entries@[q].0@ == k@);
            }
        }
        None
    }

    /// The pair at position `i`.
    pub fn pair_at(&self, i: usize) -> (r: (&String, &String))
        requires
            i < self.pairs().len(),
        ensures
            (r.0@, r.1@) == self.pairs()[i as int],
    {
        (&self.entries[i].0, &self.entries[i].1)
    }

    /// Number of bound names.
    pub fn len(&self) -> (r: usize)
        ensures
            r == self.pairs().len(),
    {
        self.entries.len()
    }

    /// Whether no name is bound.
    pub fn is_empty(&self) -> (r: bool)
        ensures
            r == (self.pairs().len() == 0),
    {
        self.entries.len() == 0
    }

    /// Whether `k` is bound.
    pub fn contains_key(&self, k: &str) -> (r: bool)
        requires
            self.wf(),
        ensures
            r == self.has(k@),
    {
        self.find(k).is_some()
    }

    /// The value bound to `k`.
    pub fn get(&self, k: &str) -> (r: Option<&String>)
        requires
            self.wf(),
        ensures
            match r {
                Some(v) => self.value_of(k@) == Some(v@),
                None => self.value_of(k@) is None,
            },
    {
        match self.find(k) {
            Some(i) => Some(&self.entries[i].1),
            None => None,
        }
    }

    /// Bind `k` to `v`. A name already bound keeps its position and takes
    /// the new value; a new name is added last.
    pub fn insert(&mut self, k: &str, v: &str)
        requires
            old(self).wf(),
        ensures
            final(self).wf(),
            final(self).pairs() == if old(self).has(k@) {
                old(self).pairs().update(old(self).position_of(k@), (k@, v@))
            } else {
                old(self).pairs().push((k@, v@))
            },
    {
        let ghost before = self.pairs();
        match self.find(k) {
            Some(i) => {
                self.entries.set(i, (owned(k), owned(v)));
                assert(self.pairs() =~= before.update(i as int, (k@, v@)));
                assert forall|a: int, b: int| 0 <= a < b < self.entries@.len()
                    implies #[trigger] self.entries@[a].0@ != #[trigger] self.entries@[b].0@ by {
                    assert(old(self).entries@[a].0@ == self.entries@[a].0@ || a == i);
                    assert(old(self).entries@[b].0@ == self.entries@[b].0@ || b == i);
                    if a == i {
                        assert(old(self).entries@[i as int].0@ == k@);
                    }
                    if b == i {
                        assert(old(self).entries@[i as int].0@ == k@);
                    }
                }
            },
            None => {
                self.entries.push((owned(k), owned(v)));
                assert(self.pairs() =~= before.push((k@, v@)));
                assert forall|a: int, b: int| 0 <= a < b < self.entries@.len()
                    implies #[trigger] self.entries@[a].0@ != #[trigger] self.entries@[b].0@ by {
                    if b == self.entries@.len() - 1 {
                        assert(before[a].0 == self.entries@[a].0@);
                    } else {
                        assert(old(self).entries@[a] == self.entries@[a]);
                        assert(old(self).entries@[b] == self.entries@[b]);
                    }
                }
            },
        }
    }

    /// Unbind `k`, returning its value; the other pairs keep their order.
    pub fn remove(&mut self, k: &str) -> (r: Option<String>)
        requires
            old(self).wf(),
        ensures
            final(self).wf(),
            match r {
                Some(v) => old(self).value_of(k@) == Some(v@)
                    && final(self).pairs() == old(self).pairs().remove(old(self).position_of(k@)),
                None => !old(self).has(k@) && final(self).pairs() == old(self).pairs(),
            },
    {
        let ghost before = self.pairs();
        match self.find(k) {
            Some(i) => {
                let (_, v) = self.entries.remove(i);
                assert(self.pairs() =~= before.remove(i as int));
                assert forall|a: int, b: int| 0 <= a < b < self.entries@.len()
                    implies #[trigger] self.entries@[a].0@ != #[trigger] self.entries@[b].0@ by {
                    let oa = if a < i { a } else { a + 1 };
                    let ob = if b < i { b } else { b + 1 };
                    assert(self.entries@[a] == old(self).entries@[oa]);
                    assert(self.entries@[b] == old(self).entries@[ob]);
                    assert(old(self).entries@[oa].0@ != old(self).entries@[ob].0@);
                }
                Some(v)
            },
            None => None,
        }
    }
}

} // verus!
