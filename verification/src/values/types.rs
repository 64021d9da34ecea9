//! Values, value assignments and audiences.

use vstd::prelude::*;
use crate::order::{sort_strings, strictly_sorted};
use crate::strings::{owned, strings_view};

verus! {

/// A value that an argument can promote.
#[derive(Debug, Clone, Hash, PartialEq, Eq, PartialOrd, Ord)]
pub struct Value(String);

impl View for Value {
    type V = Seq<char>;

    closed spec fn view(&self) -> Seq<char> {
        self.0@
    }
}

/// The names of a sequence of values.
pub open spec fn values_view(vs: Seq<Value>) -> Seq<Seq<char>> {
    vs.map_values(|v: Value| v@)
}

/// `s` without repetitions, each name kept at its first occurrence.
pub open spec fn dedup(s: Seq<Seq<char>>) -> Seq<Seq<char>>
    decreases s.len(),
{
    if s.len() == 0 {
        s
    } else {
        let d = dedup(s.drop_last());
        if d.contains(s.last()) {
            d
        } else {
            d.push(s.last())
        }
    }
}

/// The concatenation of the sequences of `s`, in order.
pub open spec fn concat_all(s: Seq<Seq<Seq<char>>>) -> Seq<Seq<char>>
    decreases s.len(),
{
    if s.len() == 0 {
        Seq::empty()
    } else {
        concat_all(s.drop_last()) + s.last()
    }
}

/// The position of the first tier of `ts` that holds `v`.
#[verifier::opaque]
pub open spec fn rank_in(ts: Seq<Seq<Seq<char>>>, v: Seq<char>) -> Option<int> {
    if exists|i: int| 0 <= i < ts.len() && #[trigger] ts[i].contains(v) {
        Some(choose|i: int| 0 <= i < ts.len() && #[trigger] ts[i].contains(v)
            && forall|j: int| 0 <= j < i ==> !(#[trigger] ts[j].contains(v)))
    } else {
        None
    }
}

/// `a` is ranked in a strictly earlier tier of `ts` than `b`; unranked
/// values are incomparable.
#[verifier::opaque]
pub open spec fn prefers_in(ts: Seq<Seq<Seq<char>>>, a: Seq<char>, b: Seq<char>) -> bool {
    match (rank_in(ts, a), rank_in(ts, b)) {
        (Some(ra), Some(rb)) => ra < rb,
        _ => false,
    }
}

impl Value {
    /// A value with the given name.
    pub fn new(s: &str) -> (r: Value)
        ensures
            r@ == s@,
    {
        Value(owned(s))
    }

    /// The value's name.
    pub fn as_str(&self) -> (r: &str)
        ensures
            r@ == self@,
    {
        self.0.as_str()
    }

    /// A copy of the value.
    pub(crate) fn duplicate(&self) -> (r: Value)
        ensures
            r@ == self@,
    {
        Value(self.0.clone())
    }
}

/// Whether `v` is among `vs`.
pub(crate) fn contains_value(vs: &[Value], v: &Value) -> (r: bool)
    ensures
        r == values_view(vs@).contains(v@),
{
    let mut i: usize = 0;
    while i < vs.len()
        invariant
            i <= vs@.len(),
            forall|k: int| 0 <= k < i ==> vs@[k]@ != v@,
        decreases vs@.len() - i,
    {
        if vs[i].0 == v.0 {
            assert(values_view(vs@)[i as int] == v@);
            return true;
        }
        i = i + 1;
    }
    assert(!values_view(vs@).contains(v@)) by {
        if values_view(vs@).contains(v@) {
            let k = choose|k: int| 0 <= k < values_view(vs@).len() && values_view(vs@)[k] == v@;
            assert(vs@[k]@ == v@);
        }
    }
    false
}

/// Append a copy of `v` to `d` unless it is already there.
fn push_distinct(d: &mut Vec<Value>, v: &Value)
    ensures
        values_view(final(d)@) == if values_view(old(d)@).contains(v@) {
            values_view(old(d)@)
        } else {
            values_view(old(d)@).push(v@)
        },
{
    if !contains_value(d.as_slice(), v) {
        let ghost before = values_view(d@);
        d.push(v.duplicate());
        assert(values_view(d@) =~= before.push(v@));
    }
}

/// The distinct values of the lists `lists`, in order of first occurrence.
fn distinct_of(lists: &Vec<Vec<Value>>) -> (r: Vec<Value>)
    ensures
        values_view(r@) == dedup(concat_all(lists@.map_values(|t: Vec<Value>| values_view(t@)))),
{
    let ghost ts = lists@.map_values(|t: Vec<Value>| values_view(t@));
    let mut d: Vec<Value> = Vec::new();
    let mut i: usize = 0;
    assert(concat_all(ts.take(0)) =~= Seq::<Seq<char>>::empty());
    while i < lists.len()
        invariant
            ts == lists@.map_values(|t: Vec<Value>| values_view(t@)),
            i <= lists@.len(),
            values_view(d@) == dedup(concat_all(ts.take(i as int))),
        decreases lists@.len() - i,
    {
        let tier = &lists[i];
        let ghost base = concat_all(ts.take(i as int));
        assert(ts.take(i + 1).drop_last() =~= ts.take(i as int));
        assert(ts.take(i + 1).last() == ts[i as int]);
        let mut j: usize = 0;
        while j < tier.len()
            invariant
                tier@ == lists@[i as int]@,
                ts[i as int] == values_view(tier@),
                j <= tier@.len(),
                values_view(d@) == dedup(base + values_view(tier@).take(j as int)),
            decreases tier@.len() - j,
        {
            let ghost s = base + values_view(tier@).take(j as int);
            assert((base + values_view(tier@).take(j + 1)).drop_last() =~= s);
            assert((base + values_view(tier@).take(j + 1)).last() == tier@[j as int]@);
            push_distinct(&mut d, &tier[j]);
            j = j + 1;
        }
        assert(values_view(tier@).take(tier@.len() as int) =~= values_view(tier@));
        i = i + 1;
    }
    assert(ts.take(lists@.len() as int) =~= ts);
    d
}

/// An audience: values in ranked tiers, the first tier most preferred;
/// values in one tier are equally preferred, and values in no tier are
/// incomparable with every value.
#[derive(Debug, Clone)]
pub struct Audience {
    tiers: Vec<Vec<Value>>,
}

impl Audience {
    /// The tiers, as names.
    pub closed spec fn ranking(&self) -> Seq<Seq<Seq<char>>> {
        self.tiers@.map_values(|t: Vec<Value>| values_view(t@))
    }

    /// An audience with no preferences.
    pub fn new() -> (r: Self)
        ensures
            r.ranking() == Seq::<Seq<Seq<char>>>::empty(),
    {
        let r = Audience { tiers: Vec::new() };
        assert(r.ranking() =~= Seq::<Seq<Seq<char>>>::empty());
        r
    }

    /// A total order: one value per tier, most preferred first.
    pub fn total(ranked: Vec<Value>) -> (r: Self)
        ensures
            r.ranking() == Seq::new(ranked@.len(), |i: int| seq![ranked@[i]@]),
    {
        let mut tiers: Vec<Vec<Value>> = Vec::new();
        let mut i: usize = 0;
        while i < ranked.len()
            invariant
                i <= ranked@.len(),
                tiers@.len() == i,
                forall|k: int| 0 <= k < i ==> values_view(#[trigger] tiers@[k]@) == seq![ranked@[k]@],
            decreases ranked@.len() - i,
        {
            let mut t: Vec<Value> = Vec::new();
            t.push(ranked[i].duplicate());
            assert(values_view(t@) =~= seq![ranked@[i as int]@]);
            tiers.push(t);
            i = i + 1;
        }
        let r = Audience { tiers };
        assert(r.ranking() =~= Seq::new(ranked@.len(), |i: int| seq![ranked@[i]@]));
        r
    }

    /// An audience from explicit tiers, most preferred first.
    pub fn from_tiers(tiers: Vec<Vec<Value>>) -> (r: Self)
        ensures
            r.ranking() == tiers@.map_values(|t: Vec<Value>| values_view(t@)),
    {
        Audience { tiers }
    }

    /// The tier of `v` (0 for the most preferred), if `v` is ranked.
    pub fn rank(&self, v: &Value) -> (r: Option<usize>)
        ensures
            match r {
                Some(i) => rank_in(self.ranking(), v@) == Some(i as int),
                None => rank_in(self.ranking(), v@) is None,
            },
    {
        proof {
            reveal(rank_in);
        }
        let ghost ts = self.ranking();
        let mut i: usize = 0;
        while i < self.tiers.len()
            invariant
                ts == self.ranking(),
                i <= ts.len(),
                forall|j: int| 0 <= j < i ==> !(#[trigger] ts[j].contains(v@)),
            decreases ts.len() - i,
        {
            if contains_value(self.tiers[i].as_slice(), v) {
                proof {
                    reveal(rank_in);
                }
                assert(ts[i as int].contains(v@));
                let ghost c = choose|c: int| 0 <= c < ts.len() && #[trigger] ts[c].contains(v@)
                    && forall|j: int| 0 <= j < c ==> !(#[trigger] ts[j].contains(v@));
                assert(c == i) by {
                    if c < i {
                        assert(!ts[c].contains(v@));
                    }
                    if c > i {
                        assert(!ts[i as int].contains(v@));
                    }
                }
                return Some(i);
            }
            i = i + 1;
        }
        None
    }

    /// Whether `a` is strictly preferred to `b`; false when either is
    /// unranked.
    pub fn prefers(&self, a: &Value, b: &Value) -> (r: bool)
        ensures
            r == prefers_in(self.ranking(), a@, b@),
    {
        proof {
            reveal(prefers_in);
        }
        match (self.rank(a), self.rank(b)) {
            (Some(ra), Some(rb)) => ra < rb,
            _ => false,
        }
    }

    /// The distinct values of the audience, in tier order.
    pub fn values(&self) -> (r: Vec<Value>)
        ensures
            values_view(r@) == dedup(concat_all(self.ranking())),
    {
        distinct_of(&self.tiers)
    }

    /// Number of distinct values in the audience.
    pub fn value_count(&self) -> (r: usize)
        ensures
            r == dedup(concat_all(self.ranking())).len(),
    {
        distinct_of(&self.tiers).len()
    }

    /// Number of tiers.
    pub fn tier_count(&self) -> (r: usize)
        ensures
            r == self.ranking().len(),
    {
        self.tiers.len()
    }
}

/// The values each argument promotes. An argument with no entry promotes
/// no value; an argument may promote several.
#[derive(Debug, Clone)]
pub struct ValueAssignment {
    promoted: Vec<(String, Vec<Value>)>,
}

impl ValueAssignment {
    /// Each argument has one entry, whose values are distinct.
    pub closed spec fn wf(&self) -> bool {
        &&& forall|i: int, j: int| 0 <= i < j < self.promoted@.len()
            ==> #[trigger] self.promoted@[i].0@ != #[trigger] self.promoted@[j].0@
        &&& forall|i: int| 0 <= i < self.promoted@.len() ==> values_view(#[trigger] self.promoted@[i].1@).no_duplicates()
    }

    /// The arguments with an entry, in order of first promotion.
    pub closed spec fn arguments(&self) -> Seq<Seq<char>> {
        self.promoted@.map_values(|e: (String, Vec<Value>)| e.0@)
    }

    /// The value lists of the entries, in the same order.
    pub closed spec fn lists(&self) -> Seq<Seq<Seq<char>>> {
        self.promoted@.map_values(|e: (String, Vec<Value>)| values_view(e.1@))
    }

    /// The values promoted by `arg`, in order of promotion.
    pub open spec fn values_of(&self, arg: Seq<char>) -> Seq<Seq<char>> {
        if exists|i: int| 0 <= i < self.arguments().len() && #[trigger] self.arguments()[i] == arg {
            self.lists()[choose|i: int| 0 <= i < self.arguments().len() && #[trigger] self.arguments()[i] == arg]
        } else {
            Seq::empty()
        }
    }

    /// Every value promoted by some argument, without repetition, in order
    /// of first promotion.
    pub open spec fn distinct(&self) -> Seq<Seq<char>> {
        dedup(concat_all(self.lists()))
    }

    /// The values of an argument are distinct.
    pub proof fn lemma_values_distinct(&self, a: Seq<char>)
        requires
            self.wf(),
        ensures
            self.values_of(a).no_duplicates(),
    {
        if exists|i: int| 0 <= i < self.arguments().len() && #[trigger] self.arguments()[i] == a {
            let i = choose|i: int| 0 <= i < self.arguments().len() && #[trigger] self.arguments()[i] == a;
            assert(values_view(self.promoted@[i].1@).no_duplicates());
        }
    }

    /// Finitely many arguments promote values.
    pub proof fn lemma_promoting_finite(&self)
        ensures
            Set::new(|a: Seq<char>| self.values_of(a).len() > 0).finite(),
    {
        let s = Set::new(|a: Seq<char>| self.values_of(a).len() > 0);
        assert(s.subset_of(self.arguments().to_set()));
        vstd::set_lib::lemma_set_subset_finite(self.arguments().to_set(), s);
    }

    /// No argument promotes anything.
    pub fn new() -> (r: Self)
        ensures
            r.wf(),
            forall|a: Seq<char>| #[trigger] r.values_of(a) == Seq::<Seq<char>>::empty(),
            r.distinct() == Seq::<Seq<char>>::empty(),
    {
        let r = ValueAssignment { promoted: Vec::new() };
        assert(r.lists() =~= Seq::<Seq<Seq<char>>>::empty());
        r
    }

    /// Position of `arg`'s entry.
    fn find(&self, arg: &str) -> (r: Option<usize>)
        requires
            self.wf(),
        ensures
            match r {
                Some(i) => i < self.arguments().len() && self.arguments()[i as int] == arg@
                    && self.values_of(arg@) == self.lists()[i as int],
                None => forall|i: int| 0 <= i < self.arguments().len() ==> self.arguments()[i] != arg@,
            },
    {
        let key = owned(arg);
        let mut i: usize = 0;
        while i < self.promoted.len()
            invariant
                self.wf(),
                key@ == arg@,
                i <= self.promoted@.len(),
                forall|q: int| 0 <= q < i ==> #[trigger] self.promoted@[q].0@ != arg@,
            decreases self.promoted@.len() - i,
        {
            if self.promoted[i].0 == key {
                assert(self.arguments()[i as int] == arg@);
                let ghost c = choose|c: int| 0 <= c < self.arguments().len() && #[trigger] self.arguments()[c] == arg@;
                assert(c == i) by {
                    if c != i {
                        assert(self.promoted@[c].0@ == self.promoted@[i as int].0@);
                        if c < i {
                            assert(self.promoted@[c].0@ != self.promoted@[i as int].0@);
                        } else {
                            assert(self.promoted@[i as int].0@ != self.promoted@[c].0@);
                        }
                    }
                }
                return Some(i);
            }
            i = i + 1;
        }
        assert forall|q: int| 0 <= q < self.arguments().len() implies self.arguments()[q] != arg@ by {
            assert(self.promoted@[q].0@ != arg@);
        }
        None
    }

    /// Record that `arg` promotes `value`; promoting a value twice
    /// changes nothing.
    pub fn promote(&mut self, arg: &str, value: Value)
        requires
            old(self).wf(),
        ensures
            final(self).wf(),
            final(self).values_of(arg@) == if old(self).values_of(arg@).contains(value@) {
                old(self).values_of(arg@)
            } else {
                old(self).values_of(arg@).push(value@)
            },
            forall|a: Seq<char>| a != arg@ ==> #[trigger] final(self).values_of(a) == old(self).values_of(a),
    {
        let ghost old_args = self.arguments();
        let ghost old_lists = self.lists();
        match self.find(arg) {
            Some(i) => {
                if !contains_value(self.promoted[i].1.as_slice(), &value) {
                    let (k, mut vs) = self.promoted.remove(i);
                    let ghost before = values_view(vs@);
                    vs.push(value);
                    assert(values_view(vs@) =~= before.push(value@));
                    self.promoted.insert(i, (k, vs));
                    assert(self.arguments() =~= old_args);
                    assert(self.lists() =~= old_lists.update(i as int, before.push(value@)));
                    proof {
                        assert forall|p: int, q: int| 0 <= p < q < self.promoted@.len()
                            implies #[trigger] self.promoted@[p].0@ != #[trigger] self.promoted@[q].0@ by {
                            assert(self.arguments()[p] == old_args[p]);
                            assert(self.arguments()[q] == old_args[q]);
                            assert(old(self).promoted@[p].0@ != old(self).promoted@[q].0@);
                        }
                        assert forall|p: int| 0 <= p < self.promoted@.len() implies values_view(#[trigger] self.promoted@[p].1@).no_duplicates() by {
                            if p != i {
                                assert(self.lists()[p] == old_lists[p]);
                                assert(values_view(old(self).promoted@[p].1@).no_duplicates());
                            } else {
                                assert(values_view(old(self).promoted@[p].1@).no_duplicates());
                            }
                        }
                        assert forall|a: Seq<char>| a != arg@ implies #[trigger] self.values_of(a) == old(self).values_of(a) by {
                            if exists|q: int| 0 <= q < self.arguments().len() && #[trigger] self.arguments()[q] == a {
                                let q = choose|q: int| 0 <= q < self.arguments().len() && #[trigger] self.arguments()[q] == a;
                                assert(q != i);
                            }
                        }
                    }
                }
            },
            None => {
                let mut vs: Vec<Value> = Vec::new();
                vs.push(value);
                let ghost nv = values_view(vs@);
                assert(nv =~= seq![value@]);
                self.promoted.push((owned(arg), vs));
                assert(self.arguments() =~= old_args.push(arg@));
                assert(self.lists() =~= old_lists.push(nv));
                proof {
                    assert forall|p: int, q: int| 0 <= p < q < self.promoted@.len()
                        implies #[trigger] self.promoted@[p].0@ != #[trigger] self.promoted@[q].0@ by {
                        if q == self.promoted@.len() - 1 {
                            assert(self.arguments()[p] == old_args[p]);
                        } else {
                            assert(old(self).promoted@[p].0@ != old(self).promoted@[q].0@);
                        }
                    }
                    assert forall|p: int| 0 <= p < self.promoted@.len() implies values_view(#[trigger] self.promoted@[p].1@).no_duplicates() by {
                        if p < self.promoted@.len() - 1 {
                            assert(self.promoted@[p] == old(self).promoted@[p]);
                        }
                    }
                    let last = self.arguments().len() - 1;
                    assert(self.arguments()[last] == arg@);
                    assert forall|a: Seq<char>| a != arg@ implies #[trigger] self.values_of(a) == old(self).values_of(a) by {
                        if exists|q: int| 0 <= q < self.arguments().len() && #[trigger] self.arguments()[q] == a {
                            let q = choose|q: int| 0 <= q < self.arguments().len() && #[trigger] self.arguments()[q] == a;
                            assert(q != last);
                            assert(old_args[q] == a);
                            assert(old(self).arguments()[q] == a);
                            let c = choose|c: int| 0 <= c < old(self).arguments().len() && #[trigger] old(self).arguments()[c] == a;
                            assert(c == q) by {
                                if c < q {
                                    assert(old(self).promoted@[c].0@ != old(self).promoted@[q].0@);
                                } else if q < c {
                                    assert(old(self).promoted@[q].0@ != old(self).promoted@[c].0@);
                                }
                            }
                            assert(self.lists()[q] == old_lists[q]);
                        } else {
                            assert forall|q: int| 0 <= q < old(self).arguments().len() implies old(self).arguments()[q] != a by {
                                assert(self.arguments()[q] == old_args[q]);
                            }
                        }
                    }
                    let c = choose|c: int| 0 <= c < self.arguments().len() && #[trigger] self.arguments()[c] == arg@;
                    assert(c == last);
                }
            },
        }
    }

    /// The values promoted by `arg` (none if it has no entry).
    pub fn values(&self, arg: &str) -> (r: &[Value])
        requires
            self.wf(),
        ensures
            values_view(r@) == self.values_of(arg@),
    {
        match self.find(arg) {
            Some(i) => self.promoted[i].1.as_slice(),
            None => {
                let r: &[Value] = &[];
                assert(values_view(r@) =~= Seq::<Seq<char>>::empty());
                r
            },
        }
    }

    /// Each argument with an entry and the values it promotes, in order
    /// of first promotion.
    pub fn entries(&self) -> (r: &[(String, Vec<Value>)])
        requires
            self.wf(),
        ensures
            forall|i: int| 0 <= i < r@.len() ==> self.values_of(#[trigger] r@[i].0@) == values_view(r@[i].1@),
            forall|a: Seq<char>| #[trigger] self.values_of(a).len() > 0 ==> exists|i: int| 0 <= i < r@.len() && r@[i].0@ == a,
    {
        proof {
            assert forall|i: int| 0 <= i < self.promoted@.len() implies self.values_of(#[trigger] self.promoted@[i].0@)
                == values_view(self.promoted@[i].1@) by {
                let a = self.promoted@[i].0@;
                assert(self.arguments()[i] == a);
                let c = choose|c: int| 0 <= c < self.arguments().len() && #[trigger] self.arguments()[c] == a;
                if c != i {
                    if c < i {
                        assert(self.promoted@[c].0@ != self.promoted@[i].0@);
                    } else {
                        assert(self.promoted@[i].0@ != self.promoted@[c].0@);
                    }
                }
            }
            assert forall|a: Seq<char>| #[trigger] self.values_of(a).len() > 0 implies exists|i: int|
                0 <= i < self.promoted@.len() && self.promoted@[i].0@ == a by {
                let c = choose|c: int| 0 <= c < self.arguments().len() && #[trigger] self.arguments()[c] == a;
                assert(self.promoted@[c].0@ == a);
            }
        }
        self.promoted.as_slice()
    }

    /// Every value promoted by some argument, without repetition, in
    /// ascending order.
    pub fn distinct_values(&self) -> (r: Vec<Value>)
        ensures
            strictly_sorted(values_view(r@)),
            values_view(r@).to_set() == self.distinct().to_set(),
    {
        let d = self.distinct_in_order();
        let mut names: Vec<String> = Vec::new();
        let mut i: usize = 0;
        while i < d.len()
            invariant
                i <= d@.len(),
                strings_view(names@) == values_view(d@).take(i as int),
            decreases d@.len() - i,
        {
            let ghost before = strings_view(names@);
            names.push(owned(d[i].as_str()));
            assert(strings_view(names@) =~= before.push(d@[i as int]@));
            assert(strings_view(names@) =~= values_view(d@).take(i + 1));
            i = i + 1;
        }
        assert(values_view(d@).take(d@.len() as int) =~= values_view(d@));
        let sorted = sort_strings(&names);
        let mut out: Vec<Value> = Vec::new();
        let mut k: usize = 0;
        while k < sorted.len()
            invariant
                k <= sorted@.len(),
                values_view(out@) == strings_view(sorted@).take(k as int),
            decreases sorted@.len() - k,
        {
            let ghost before = values_view(out@);
            out.push(Value::new(sorted[k].as_str()));
            assert(values_view(out@) =~= before.push(sorted@[k as int]@));
            assert(values_view(out@) =~= strings_view(sorted@).take(k + 1));
            k = k + 1;
        }
        assert(strings_view(sorted@).take(sorted@.len() as int) =~= strings_view(sorted@));
        out
    }

    /// Every value promoted by some argument, without repetition, in order
    /// of first promotion.
    pub(crate) fn distinct_in_order(&self) -> (r: Vec<Value>)
        ensures
            values_view(r@) == self.distinct(),
    {
        let mut lists: Vec<Vec<Value>> = Vec::new();
        let mut i: usize = 0;
        while i < self.promoted.len()
            invariant
                i <= self.promoted@.len(),
                lists@.len() == i,
                forall|k: int| 0 <= k < i ==> values_view(#[trigger] lists@[k]@) == values_view(self.promoted@[k].1@),
            decreases self.promoted@.len() - i,
        {
            let src = &self.promoted[i].1;
            let mut copy: Vec<Value> = Vec::new();
            let mut j: usize = 0;
            while j < src.len()
                invariant
                    j <= src@.len(),
                    values_view(copy@) == values_view(src@).take(j as int),
                decreases src@.len() - j,
            {
                let ghost before = values_view(copy@);
                copy.push(src[j].duplicate());
                assert(values_view(copy@) =~= before.push(src@[j as int]@));
                assert(values_view(copy@) =~= values_view(src@).take(j + 1));
                j = j + 1;
            }
            assert(values_view(src@).take(src@.len() as int) =~= values_view(src@));
            lists.push(copy);
            i = i + 1;
        }
        assert(lists@.map_values(|t: Vec<Value>| values_view(t@)) =~= self.lists());
        distinct_of(&lists)
    }
}

} // verus!
