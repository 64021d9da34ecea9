//! Square boolean matrices used as adjacency relations.

use vstd::prelude::*;

verus! {

/// `m` is an `n × n` matrix.
pub open spec fn square(m: Seq<Vec<bool>>, n: nat) -> bool {
    &&& m.len() == n
    &&& forall|i: int| 0 <= i < n ==> #[trigger] m[i]@.len() == n
}

/// The entry `(i, j)`, false outside the matrix.
pub open spec fn entry(m: Seq<Vec<bool>>, i: int, j: int) -> bool {
    0 <= i < m.len() && 0 <= j < m[i]@.len() && m[i]@[j]
}

/// An `n × n` matrix of `false`.
pub fn new_square(n: usize) -> (r: Vec<Vec<bool>>)
    ensures
        square(r@, n as nat),
        forall|i: int, j: int| !#[trigger] entry(r@, i, j),
{
    let mut r: Vec<Vec<bool>> = Vec::new();
    let mut i: usize = 0;
    while i < n
        invariant
            i <= n,
            r@.len() == i,
            forall|k: int| 0 <= k < i ==> #[trigger] r@[k]@.len() == n,
            forall|k: int, j: int| !#[trigger] entry(r@, k, j),
        decreases n - i,
    {
        let mut row: Vec<bool> = Vec::new();
        let mut j: usize = 0;
        while j < n
            invariant
                j <= n,
                row@.len() == j,
                forall|k: int| 0 <= k < j ==> !#[trigger] row@[k],
            decreases n - j,
        {
            row.push(false);
            j = j + 1;
        }
        let ghost before = r@;
        r.push(row);
        assert forall|k: int, j: int| !#[trigger] entry(r@, k, j) by {
            if 0 <= k < i {
                assert(r@[k] == before[k]);
                assert(!entry(before, k, j));
            }
        }
        i = i + 1;
    }
    r
}

/// Grow an `n × n` matrix to `(n + 1) × (n + 1)` with a false row and column.
pub fn grow(m: &mut Vec<Vec<bool>>, n: usize)
    requires
        square(old(m)@, n as nat),
    ensures
        square(final(m)@, n as nat + 1),
        forall|i: int, j: int| #[trigger] entry(final(m)@, i, j) == entry(old(m)@, i, j),
{
    let ghost start = m@;
    let mut k: usize = 0;
    while k < n
        invariant
            m@.len() == n,
            k <= n,
            square(start, n as nat),
            forall|i: int| 0 <= i < k ==> #[trigger] m@[i]@ == start[i]@.push(false),
            forall|i: int| k <= i < n ==> #[trigger] m@[i] == start[i],
        decreases n - k,
    {
        let mut row = m[k].clone();
        row.push(false);
        assert(row@ =~= start[k as int]@.push(false));
        m.set(k, row);
        k = k + 1;
    }
    let mut last: Vec<bool> = Vec::new();
    let mut c: usize = 0;
    while c < n
        invariant
            c <= n,
            last@.len() == c,
            forall|j: int| 0 <= j < c ==> !#[trigger] last@[j],
        decreases n - c,
    {
        last.push(false);
        c = c + 1;
    }
    last.push(false);
    m.push(last);
    assert forall|i: int, j: int| #[trigger] entry(m@, i, j) == entry(start, i, j) by {
        if 0 <= i < n {
            assert(m@[i]@ == start[i]@.push(false));
        }
    }
}

/// Set entry `(i, j)` of a square matrix.
pub fn set_entry(m: &mut Vec<Vec<bool>>, n: usize, i: usize, j: usize, v: bool)
    requires
        square(old(m)@, n as nat),
        i < n,
        j < n,
    ensures
        square(final(m)@, n as nat),
        forall|a: int, b: int| #[trigger] entry(final(m)@, a, b) == if a == i && b == j {
            v
        } else {
            entry(old(m)@, a, b)
        },
{
    let mut row = m[i].clone();
    row.set(j, v);
    m.set(i, row);
}

} // verus!
