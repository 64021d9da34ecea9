//! `CatalogRegistry`: schemes in registration order, looked up by id, by
//! key, by name or by category.

use vstd::prelude::*;
use crate::schemes::scheme::{SchemeSpec, key_of, all_ascii, ascii_key};
use crate::schemes::types::{SchemeCategory, SchemeId};
use crate::schemes::catalog::{default_catalog, default_layout, default_schemes, default_keys};
use crate::strings::owned;

verus! {

/// Position of the last scheme in `ss` with identifier `id`, or -1.
pub open spec fn last_with_id(ss: Seq<SchemeSpec>, id: SchemeId) -> int
    decreases ss.len(),
{
    if ss.len() == 0 {
        -1
    } else if ss.last().id == id {
        ss.len() - 1
    } else {
        last_with_id(ss.drop_last(), id)
    }
}

/// Position of the last scheme in `ss` whose key is `key`, or -1.
pub open spec fn last_with_key(ss: Seq<SchemeSpec>, key: Seq<char>) -> int
    decreases ss.len(),
{
    if ss.len() == 0 {
        -1
    } else if key_of(ss.last().name@) == key {
        ss.len() - 1
    } else {
        last_with_key(ss.drop_last(), key)
    }
}

/// Position of the first scheme in `ss` named `name`, or -1.
pub open spec fn first_with_name(ss: Seq<SchemeSpec>, name: Seq<char>) -> int
    decreases ss.len(),
{
    if ss.len() == 0 {
        -1
    } else if ss[0].name@ == name {
        0
    } else {
        let r = first_with_name(ss.drop_first(), name);
        if r < 0 {
            -1
        } else {
            r + 1
        }
    }
}

/// The schemes of `ss` in category `cat`, in order.
pub open spec fn in_category(ss: Seq<SchemeSpec>, cat: SchemeCategory) -> Seq<SchemeSpec> {
    ss.filter(|s: SchemeSpec| s.category == cat)
}

/// The scheme at position `i` of `ss`, if `i` is a position.
pub open spec fn found(ss: Seq<SchemeSpec>, i: int, r: Option<&SchemeSpec>) -> bool {
    match r {
        Some(s) => 0 <= i < ss.len() && *s == ss[i],
        None => i < 0,
    }
}

/// The key of each scheme in `ss` with an ASCII name is its
/// [`ascii_key`].
pub open spec fn ascii_keys(ss: Seq<SchemeSpec>) -> bool {
    forall|i: int| 0 <= i < ss.len() && all_ascii(#[trigger] ss[i].name@) ==> key_of(ss[i].name@) == ascii_key(ss[i].name@)
}

/// A collection of schemes. A scheme registered later wins a lookup by
/// id or key over an earlier one with the same id or key.
#[derive(Debug, Clone)]
pub struct CatalogRegistry {
    schemes: Vec<SchemeSpec>,
    keys: Vec<String>,
}

impl CatalogRegistry {
    /// Each scheme's key is stored beside it.
    pub closed spec fn wf(&self) -> bool {
        &&& self.keys@.len() == self.schemes@.len()
        &&& forall|i: int| 0 <= i < self.keys@.len() ==> #[trigger] self.keys@[i]@ == key_of(self.schemes@[i].name@)
        &&& ascii_keys(self.schemes@)
    }

    /// The key of each registered scheme with an ASCII name is its
    /// [`ascii_key`].
    pub proof fn lemma_ascii_keys(&self)
        requires
            self.wf(),
        ensures
            ascii_keys(self.entries()),
    {
    }

    /// The registered schemes, in registration order.
    pub closed spec fn entries(&self) -> Seq<SchemeSpec> {
        self.schemes@
    }

    /// An empty registry.
    pub fn new() -> (r: Self)
        ensures
            r.wf(),
            r.entries() == Seq::<SchemeSpec>::empty(),
    {
        CatalogRegistry { schemes: Vec::new(), keys: Vec::new() }
    }

    /// Register a scheme after the others.
    pub fn register(&mut self, scheme: SchemeSpec)
        requires
            old(self).wf(),
        ensures
            final(self).wf(),
            final(self).entries() == old(self).entries().push(scheme),
    {
        let key = scheme.key();
        self.keys.push(key);
        self.schemes.push(scheme);
    }

    /// The scheme with identifier `id` (the last registered, if several).
    pub fn by_id(&self, id: SchemeId) -> (r: Option<&SchemeSpec>)
        requires
            self.wf(),
        ensures
            found(self.entries(), last_with_id(self.entries(), id), r),
    {
        let ghost ss = self.schemes@;
        let mut i = self.schemes.len();
        assert(ss.take(ss.len() as int) =~= ss);
        while i > 0
            invariant
                ss == self.schemes@,
                i <= ss.len(),
                last_with_id(ss, id) == last_with_id(ss.take(i as int), id),
            decreases i,
        {
            let ghost pre = ss.take(i as int);
            assert(pre.drop_last() =~= ss.take(i - 1));
            if self.schemes[i - 1].id == id {
                assert(pre.last() == ss[i - 1]);
                return Some(&self.schemes[i - 1]);
            }
            i = i - 1;
        }
        assert(ss.take(0).len() == 0);
        None
    }

    /// The scheme whose key is `key` (the last registered, if several).
    pub fn by_key(&self, key: &str) -> (r: Option<&SchemeSpec>)
        requires
            self.wf(),
        ensures
            found(self.entries(), last_with_key(self.entries(), key@), r),
    {
        let ghost ss = self.schemes@;
        let k = owned(key);
        let mut i = self.schemes.len();
        assert(ss.take(ss.len() as int) =~= ss);
        while i > 0
            invariant
                self.wf(),
                ss == self.schemes@,
                k@ == key@,
                i <= ss.len(),
                last_with_key(ss, key@) == last_with_key(ss.take(i as int), key@),
            decreases i,
        {
            let ghost pre = ss.take(i as int);
            assert(pre.drop_last() =~= ss.take(i - 1));
            if self.keys[i - 1] == k {
                assert(pre.last() == ss[i - 1]);
                return Some(&self.schemes[i - 1]);
            }
            i = i - 1;
        }
        assert(ss.take(0).len() == 0);
        None
    }

    /// The schemes of category `category`, in registration order.
    pub fn by_category(&self, category: SchemeCategory) -> (r: Vec<&SchemeSpec>)
        ensures
            r@.map_values(|s: &SchemeSpec| *s) == in_category(self.entries(), category),
    {
        let ghost ss = self.schemes@;
        let ghost pred = |s: SchemeSpec| s.category == category;
        let mut r: Vec<&SchemeSpec> = Vec::new();
        let mut i: usize = 0;
        assert(ss.take(0).filter(pred) =~= Seq::<SchemeSpec>::empty()) by {
            reveal(Seq::filter);
        }
        assert(r@.map_values(|s: &SchemeSpec| *s) =~= Seq::<SchemeSpec>::empty());
        while i < self.schemes.len()
            invariant
                ss == self.schemes@,
                pred == (|s: SchemeSpec| s.category == category),
                i <= ss.len(),
                r@.map_values(|s: &SchemeSpec| *s) == ss.take(i as int).filter(pred),
            decreases ss.len() - i,
        {
            let ghost before = r@;
            assert(ss.take(i + 1) =~= ss.take(i as int).push(ss[i as int]));
            proof {
                ss.take(i as int).lemma_filter_push(ss[i as int], pred);
            }
            assert(ss.take(i + 1).filter(pred) == if pred(ss[i as int]) {
                ss.take(i as int).filter(pred).push(ss[i as int])
            } else {
                ss.take(i as int).filter(pred)
            });
            if self.schemes[i].category == category {
                r.push(&self.schemes[i]);
                assert(r@.map_values(|s: &SchemeSpec| *s) =~= before.map_values(|s: &SchemeSpec| *s).push(ss[i as int]));
            }
            i = i + 1;
        }
        assert(ss.take(ss.len() as int) =~= ss);
        r
    }

    /// All registered schemes, in registration order.
    pub fn all(&self) -> (r: &[SchemeSpec])
        ensures
            r@ == self.entries(),
    {
        self.schemes.as_slice()
    }

    /// Number of registered schemes.
    pub fn len(&self) -> (r: usize)
        ensures
            r == self.entries().len(),
    {
        self.schemes.len()
    }

    /// Whether no scheme is registered.
    pub fn is_empty(&self) -> (r: bool)
        ensures
            r == (self.entries().len() == 0),
    {
        self.schemes.len() == 0
    }

    /// A registry holding the default catalogue: the same schemes, in the
    /// same order, as [`default_catalog`].
    pub fn with_default() -> (r: Self)
        ensures
            r.wf(),
            default_schemes(r.entries()),
            default_layout(r.entries()),
            default_keys(r.entries()),
    {
        default_catalog()
    }

    /// A registry holding the default catalogue of Walton schemes; the
    /// same as [`CatalogRegistry::with_default`].
    pub fn with_walton_catalog() -> (r: Self)
        ensures
            r.wf(),
            default_schemes(r.entries()),
            default_layout(r.entries()),
            default_keys(r.entries()),
    {
        default_catalog()
    }

    /// The first scheme whose canonical name is exactly `name`.
    pub fn by_name(&self, name: &str) -> (r: Option<&SchemeSpec>)
        ensures
            found(self.entries(), first_with_name(self.entries(), name@), r),
    {
        let ghost ss = self.schemes@;
        let target = owned(name);
        let mut i: usize = 0;
        assert(ss.skip(0) =~= ss);
        while i < self.schemes.len()
            invariant
                ss == self.schemes@,
                target@ == name@,
                i <= ss.len(),
                first_with_name(ss, name@) == if first_with_name(ss.skip(i as int), name@) < 0 { -1 } else {
                    first_with_name(ss.skip(i as int), name@) + i },
            decreases ss.len() - i,
        {
            assert(ss.skip(i as int).drop_first() =~= ss.skip(i + 1));
            assert(ss.skip(i as int)[0] == ss[i as int]);
            if self.schemes[i].name == target {
                return Some(&self.schemes[i]);
            }
            i = i + 1;
        }
        assert(ss.skip(ss.len() as int).len() == 0);
        None
    }
}

impl Default for CatalogRegistry {
    fn default() -> (r: Self)
        ensures
            r.wf(),
            r.entries() == Seq::<SchemeSpec>::empty(),
    {
        CatalogRegistry::new()
    }
}

} // verus!
