//! Row permutations: which stored row stands at which logical position.

use vstd::prelude::*;
use vstd::set_lib::*;
use crate::error::SolveError;

verus! {

/// `s` is a permutation of `0 .. s.len()`: every entry is below the
/// length and no entry occurs twice.
pub open spec fn is_permutation(s: Seq<usize>) -> bool {
    &&& forall|i: int| 0 <= i < s.len() ==> (#[trigger] s[i]) < s.len()
    &&& forall|i: int, j: int| 0 <= i < j < s.len() ==> s[i] != s[j]
}

/// The permutation that leaves every row where it is.
pub open spec fn identity_rows(n: nat) -> Seq<usize> {
    Seq::new(n, |i: int| i as usize)
}

/// `s` with the entries at `i` and `j` exchanged.
pub open spec fn exchanged(s: Seq<usize>, i: int, j: int) -> Seq<usize> {
    s.update(i, s[j]).update(j, s[i])
}

/// `q` undoes `p`: position `p[i]` of `q` holds `i`.
pub open spec fn undoes(q: Seq<usize>, p: Seq<usize>) -> bool {
    &&& q.len() == p.len()
    &&& forall|i: int| 0 <= i < p.len() ==> 0 <= (#[trigger] p[i]) < q.len() && q[p[i] as int] == i
}

/// The items of `items` taken in the order that `order` gives: position
/// `i` of the result holds `items[order[i]]`.
pub open spec fn gathered<T>(items: Seq<T>, order: Seq<usize>) -> Seq<T> {
    Seq::new(order.len(), |i: int| items[order[i] as int])
}

/// Some position of `s` holds the row `k`.
pub open spec fn holds_row(s: Seq<usize>, k: int) -> bool {
    exists|i: int| 0 <= i < s.len() && #[trigger] s[i] == k
}

/// A permutation reaches every index: it is a bijection on
/// `0 .. s.len()`, not only an injection.
pub proof fn lemma_permutation_onto(s: Seq<usize>)
    requires
        is_permutation(s),
    ensures
        forall|k: int| 0 <= k < s.len() ==> #[trigger] holds_row(s, k),
{
    let n = s.len() as int;
    let t = Seq::new(s.len(), |i: int| s[i] as int);
    assert(t.no_duplicates()) by {
        assert forall|i: int, j: int| 0 <= i < t.len() && 0 <= j < t.len() && i != j implies t[i]
            != t[j] by {
            if i < j {
                assert(s[i] != s[j]);
            } else {
                assert(s[j] != s[i]);
            }
        }
    }
    t.unique_seq_to_set();
    lemma_int_range(0, n);
    assert(t.to_set().subset_of(set_int_range(0, n))) by {
        assert forall|v: int| t.to_set().contains(v) implies set_int_range(0, n).contains(v) by {
            let i = choose|i: int| 0 <= i < t.len() && t[i] == v;
            assert(s[i] < s.len());
        }
    }
    lemma_len_subset(t.to_set(), set_int_range(0, n));
    lemma_subset_equality(t.to_set(), set_int_range(0, n));
    assert forall|k: int| 0 <= k < s.len() implies #[trigger] holds_row(s, k) by {
        assert(set_int_range(0, n).contains(k));
        assert(t.to_set().contains(k));
        let i = choose|i: int| 0 <= i < t.len() && t[i] == k;
        assert(s[i] == k);
    }
}

/// Exchanging two entries of a permutation gives a permutation.
pub proof fn lemma_exchange_keeps_permutation(s: Seq<usize>, i: int, j: int)
    requires
        is_permutation(s),
        0 <= i < s.len(),
        0 <= j < s.len(),
    ensures
        is_permutation(exchanged(s, i, j)),
{
    let e = exchanged(s, i, j);
    assert forall|a: int, b: int| 0 <= a < b < e.len() implies e[a] != e[b] by {
        let sa = if a == i { j } else if a == j { i } else { a };
        let sb = if b == i { j } else if b == j { i } else { b };
        assert(e[a] == s[sa] && e[b] == s[sb]);
        if sa < sb {
            assert(s[sa] != s[sb]);
        } else {
            assert(s[sb] != s[sa]);
        }
    }
    assert forall|a: int| 0 <= a < e.len() implies (#[trigger] e[a]) < e.len() by {
        let sa = if a == i { j } else if a == j { i } else { a };
        assert(e[a] == s[sa]);
    }
}

/// If `q` undoes a permutation `p`, then `q` is a permutation and `p`
/// undoes `q`.
pub proof fn lemma_undoes_is_mutual(q: Seq<usize>, p: Seq<usize>)
    requires
        is_permutation(p),
        undoes(q, p),
    ensures
        is_permutation(q),
        undoes(p, q),
{
    lemma_permutation_onto(p);
    assert forall|k: int| 0 <= k < q.len() implies 0 <= (#[trigger] q[k]) < p.len() && p[q[k] as int]
        == k by {
        assert(holds_row(p, k));
        let i = choose|i: int| 0 <= i < p.len() && p[i] == k;
        assert(q[p[i] as int] == i);
    }
    assert forall|a: int, b: int| 0 <= a < b < q.len() implies q[a] != q[b] by {
        assert(p[q[a] as int] == a);
        assert(p[q[b] as int] == b);
    }
}

/// Reordering by a permutation and then by one that it undoes gives the
/// items back.
pub proof fn lemma_gather_round_trip<T>(items: Seq<T>, p: Seq<usize>, q: Seq<usize>)
    requires
        items.len() == p.len(),
        undoes(p, q),
    ensures
        gathered(gathered(items, p), q) == items,
{
    let once = gathered(items, p);
    let twice = gathered(once, q);
    assert forall|k: int| 0 <= k < items.len() implies twice[k] == items[k] by {
        assert(0 <= q[k] < p.len() && p[q[k] as int] == k);
    }
    assert(twice =~= items);
}

/// A permutation of the rows `0 .. len`: entry `i` is the stored row that
/// stands at logical position `i`.
pub struct Permutation {
    rows: Vec<usize>,
}

impl View for Permutation {
    type V = Seq<usize>;

    closed spec fn view(&self) -> Seq<usize> {
        self.rows@
    }
}

impl Clone for Permutation {
    fn clone(&self) -> (p: Permutation)
        ensures
            p@ == self@,
    {
        proof {
            use_type_invariant(self);
        }
        Permutation { rows: self.to_vec() }
    }
}

impl Permutation {
    #[verifier::type_invariant]
    spec fn valid(self) -> bool {
        is_permutation(self.rows@)
    }

    /// The identity on `n` rows.
    pub fn identity(n: usize) -> (p: Permutation)
        ensures
            p@ == identity_rows(n as nat),
            is_permutation(p@),
    {
        let mut rows: Vec<usize> = Vec::new();
        let mut i: usize = 0;
        while i < n
            invariant
                i <= n,
                rows@.len() == i,
                forall|k: int| 0 <= k < i ==> rows@[k] == k,
            decreases n - i,
        {
            rows.push(i);
            i += 1;
        }
        assert(rows@ =~= identity_rows(n as nat));
        Permutation { rows }
    }

    /// Accepts `rows` if it is a permutation of `0 .. rows.len()`.
    pub fn from_vec(rows: Vec<usize>) -> (r: Option<Permutation>)
        ensures
            r is Some <==> is_permutation(rows@),
            r is Some ==> r->0@ == rows@,
    {
        let n = rows.len();
        let mut seen: Vec<bool> = Vec::new();
        let mut k: usize = 0;
        while k < n
            invariant
                k <= n,
                seen@.len() == k,
                forall|v: int| 0 <= v < k ==> !seen@[v],
            decreases n - k,
        {
            seen.push(false);
            k += 1;
        }
        let mut i: usize = 0;
        while i < n
            invariant
                i <= n,
                n == rows@.len(),
                seen@.len() == n,
                forall|a: int| 0 <= a < i ==> (#[trigger] rows@[a]) < n,
                forall|a: int, b: int| 0 <= a < b < i ==> rows@[a] != rows@[b],
                forall|v: int|
                    0 <= v < n ==> (#[trigger] seen@[v] <==> exists|a: int|
                        0 <= a < i && rows@[a] == v),
            decreases n - i,
        {
            let v = rows[i];
            if v >= n {
                return None;
            }
            if seen[v] {
                proof {
                    let a = choose|a: int| 0 <= a < i && rows@[a] == v;
                    assert(rows@[a] == rows@[i as int]);
                }
                return None;
            }
            let ghost before = seen@;
            seen.set(v, true);
            proof {
                assert forall|w: int| 0 <= w < n implies (#[trigger] seen@[w] <==> exists|a: int|
                    0 <= a < i + 1 && rows@[a] == w) by {
                    if w == v {
                        assert(rows@[i as int] == w);
                    } else {
                        assert(seen@[w] == before[w]);
                        if before[w] {
                            let a = choose|a: int| 0 <= a < i && rows@[a] == w;
                            assert(0 <= a < i + 1 && rows@[a] == w);
                        }
                    }
                }
            }
            i += 1;
        }
        Some(Permutation { rows })
    }

    /// The number of rows.
    pub fn len(&self) -> (n: usize)
        ensures
            n == self@.len(),
            is_permutation(self@),
    {
        proof {
            use_type_invariant(self);
        }
        self.rows.len()
    }

    /// The stored row at logical position `i`.
    pub fn row(&self, i: usize) -> (r: usize)
        requires
            i < self@.len(),
        ensures
            r == self@[i as int],
            r < self@.len(),
    {
        proof {
            use_type_invariant(self);
        }
        self.rows[i]
    }

    /// Exchanges the rows at logical positions `i` and `j`.
    pub fn swap(&mut self, i: usize, j: usize)
        requires
            i < old(self)@.len(),
            j < old(self)@.len(),
        ensures
            final(self)@ == exchanged(old(self)@, i as int, j as int),
            is_permutation(final(self)@),
    {
        proof {
            use_type_invariant(&*self);
            lemma_exchange_keeps_permutation(self.rows@, i as int, j as int);
        }
        let mut rows: Vec<usize> = Vec::new();
        core::mem::swap(&mut rows, &mut self.rows);
        let at_i = rows[i];
        let at_j = rows[j];
        rows.set(i, at_j);
        rows.set(j, at_i);
        self.rows = rows;
    }

    /// The permutation that undoes this one: where this one has row `r`
    /// at position `i`, the result has `i` at position `r`.
    pub fn inverse(&self) -> (inv: Permutation)
        ensures
            undoes(inv@, self@),
            undoes(self@, inv@),
            is_permutation(inv@),
    {
        proof {
            use_type_invariant(self);
        }
        let n = self.rows.len();
        let mut back: Vec<usize> = Vec::new();
        let mut k: usize = 0;
        while k < n
            invariant
                k <= n,
                back@.len() == k,
            decreases n - k,
        {
            back.push(0);
            k += 1;
        }
        let mut i: usize = 0;
        while i < n
            invariant
                i <= n,
                n == self.rows@.len(),
                back@.len() == n,
                is_permutation(self.rows@),
                forall|a: int| 0 <= a < i ==> back@[(#[trigger] self.rows@[a]) as int] == a,
            decreases n - i,
        {
            let r = self.rows[i];
            let ghost before = back@;
            back.set(r, i);
            proof {
                assert forall|a: int| 0 <= a < i + 1 implies back@[(#[trigger] self.rows@[a]) as int]
                    == a by {
                    if a < i {
                        assert(self.rows@[a] != self.rows@[i as int]);
                        assert(before[self.rows@[a] as int] == a);
                    }
                }
            }
            i += 1;
        }
        proof {
            assert(undoes(back@, self.rows@));
            lemma_undoes_is_mutual(back@, self.rows@);
        }
        Permutation { rows: back }
    }

    /// The rows as a vector, position by position.
    pub fn to_vec(&self) -> (rows: Vec<usize>)
        ensures
            rows@ == self@,
    {
        let n = self.rows.len();
        let mut out: Vec<usize> = Vec::new();
        let mut i: usize = 0;
        while i < n
            invariant
                i <= n,
                n == self.rows@.len(),
                out@.len() == i,
                forall|k: int| 0 <= k < i ==> out@[k] == self.rows@[k],
            decreases n - i,
        {
            out.push(self.rows[i]);
            i += 1;
        }
        assert(out@ =~= self.rows@);
        out
    }

    /// Takes `items` in this permutation's order: position `i` of the
    /// result holds `items[self[i]]`. A slice of another length is refused.
    pub fn reorder<T: Copy>(&self, items: &[T]) -> (r: Result<Vec<T>, SolveError>)
        ensures
            r is Ok <==> items@.len() == self@.len(),
            r is Ok ==> r->Ok_0@ == gathered(items@, self@),
            r is Err ==> r->Err_0 == SolveError::DimensionMismatch,
    {
        proof {
            use_type_invariant(self);
        }
        let n = self.rows.len();
        if items.len() != n {
            return Err(SolveError::DimensionMismatch);
        }
        let mut out: Vec<T> = Vec::new();
        let mut i: usize = 0;
        while i < n
            invariant
                i <= n,
                n == self.rows@.len(),
                n == items@.len(),
                is_permutation(self.rows@),
                out@.len() == i,
                forall|k: int| 0 <= k < i ==> out@[k] == items@[self.rows@[k] as int],
            decreases n - i,
        {
            let r = self.rows[i];
            out.push(items[r]);
            i += 1;
        }
        assert(out@ =~= gathered(items@, self.rows@));
        Ok(out)
    }
}

} // verus!
